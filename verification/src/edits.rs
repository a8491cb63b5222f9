//! Pure structural edits of the proof stack: delete, copy, move and swap.
//! Each returns a fresh state and fails, changing nothing, when an index
//! is out of range.

use vstd::prelude::*;

use crate::types::State;
use crate::types::StateS;
use crate::types::copy_formula;
use crate::types::copy_formulas;
use crate::types::fmls;

verus! {

/// Exchange the entries at `i` and `j`.
pub open spec fn swap_spec(st: StateS, i: int, j: int) -> Option<StateS> {
    if 0 <= i < st.proof_stack.len() && 0 <= j < st.proof_stack.len() {
        Some(
            StateS {
                current_level_stmt_addr: st.current_level_stmt_addr,
                proof_stack: st.proof_stack.update(i, st.proof_stack[j]).update(
                    j,
                    st.proof_stack[i],
                ),
            },
        )
    } else {
        None
    }
}

/// Remove the entry at `i`.
pub open spec fn delete_spec(st: StateS, i: int) -> Option<StateS> {
    if 0 <= i < st.proof_stack.len() {
        Some(
            StateS {
                current_level_stmt_addr: st.current_level_stmt_addr,
                proof_stack: st.proof_stack.remove(i),
            },
        )
    } else {
        None
    }
}

/// Insert a duplicate of the entry at `i` immediately before it.
pub open spec fn copy_spec(st: StateS, i: int) -> Option<StateS> {
    if 0 <= i < st.proof_stack.len() {
        Some(
            StateS {
                current_level_stmt_addr: st.current_level_stmt_addr,
                proof_stack: st.proof_stack.insert(i, st.proof_stack[i]),
            },
        )
    } else {
        None
    }
}

/// Remove the entry at `src` and reinsert it at `dst`.
pub open spec fn move_spec(st: StateS, src: int, dst: int) -> Option<StateS> {
    if 0 <= src < st.proof_stack.len() && 0 <= dst < st.proof_stack.len() {
        Some(
            StateS {
                current_level_stmt_addr: st.current_level_stmt_addr,
                proof_stack: st.proof_stack.remove(src).insert(dst, st.proof_stack[src]),
            },
        )
    } else {
        None
    }
}

impl State {
    /// Exchange stack entries `i` and `j`; `None` if either is out of
    /// range.
    pub fn stack_swap(&self, i: usize, j: usize) -> (r: Option<State>)
        ensures
            match r {
                Some(s2) => swap_spec(self@, i as int, j as int) == Some(s2@),
                None => swap_spec(self@, i as int, j as int) is None,
            },
    {
        if i >= self.proof_stack.len() || j >= self.proof_stack.len() {
            return None;
        }
        let fi = copy_formula(&self.proof_stack[i]);
        let fj = copy_formula(&self.proof_stack[j]);
        let mut v = copy_formulas(&self.proof_stack);
        v[i] = fj;
        v[j] = fi;
        let s2 = State { current_level_stmt_addr: self.current_level_stmt_addr, proof_stack: v };
        proof {
            assert(fmls(s2.proof_stack@) =~= self@.proof_stack.update(
                i as int,
                self@.proof_stack[j as int],
            ).update(j as int, self@.proof_stack[i as int]));
            assert(s2@ =~= swap_spec(self@, i as int, j as int)->Some_0);
        }
        Some(s2)
    }

    /// Remove stack entry `i`; `None` if it is out of range.
    pub fn stack_delete(&self, i: usize) -> (r: Option<State>)
        ensures
            match r {
                Some(s2) => delete_spec(self@, i as int) == Some(s2@),
                None => delete_spec(self@, i as int) is None,
            },
    {
        if i >= self.proof_stack.len() {
            return None;
        }
        let mut v = copy_formulas(&self.proof_stack);
        v.remove(i);
        let s2 = State { current_level_stmt_addr: self.current_level_stmt_addr, proof_stack: v };
        proof {
            assert(fmls(s2.proof_stack@) =~= self@.proof_stack.remove(i as int));
            assert(s2@ =~= delete_spec(self@, i as int)->Some_0);
        }
        Some(s2)
    }

    /// Insert a duplicate of stack entry `i` immediately before it; `None`
    /// if it is out of range.
    pub fn stack_copy(&self, i: usize) -> (r: Option<State>)
        ensures
            match r {
                Some(s2) => copy_spec(self@, i as int) == Some(s2@),
                None => copy_spec(self@, i as int) is None,
            },
    {
        if i >= self.proof_stack.len() {
            return None;
        }
        let f = copy_formula(&self.proof_stack[i]);
        let mut v = copy_formulas(&self.proof_stack);
        v.insert(i, f);
        let s2 = State { current_level_stmt_addr: self.current_level_stmt_addr, proof_stack: v };
        proof {
            assert(fmls(s2.proof_stack@) =~= self@.proof_stack.insert(
                i as int,
                self@.proof_stack[i as int],
            ));
            assert(s2@ =~= copy_spec(self@, i as int)->Some_0);
        }
        Some(s2)
    }

    /// Move stack entry `src` to position `dst`; `None` if either is out
    /// of range.
    pub fn stack_move(&self, src: usize, dst: usize) -> (r: Option<State>)
        ensures
            match r {
                Some(s2) => move_spec(self@, src as int, dst as int) == Some(s2@),
                None => move_spec(self@, src as int, dst as int) is None,
            },
    {
        if src >= self.proof_stack.len() || dst >= self.proof_stack.len() {
            return None;
        }
        let f = copy_formula(&self.proof_stack[src]);
        let mut v = copy_formulas(&self.proof_stack);
        v.remove(src);
        v.insert(dst, f);
        let s2 = State { current_level_stmt_addr: self.current_level_stmt_addr, proof_stack: v };
        proof {
            assert(fmls(s2.proof_stack@) =~= self@.proof_stack.remove(src as int).insert(
                dst as int,
                self@.proof_stack[src as int],
            ));
            assert(s2@ =~= move_spec(self@, src as int, dst as int)->Some_0);
        }
        Some(s2)
    }
}

} // verus!
