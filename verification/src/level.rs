//! Level management: the goal-completion test, the advance to the next
//! goal, the opening state, and the per-level list of applicable steps.

use vstd::prelude::*;

use crate::engine::push_spec;
use crate::types::Context;
use crate::types::ContextS;
use crate::types::FormulaS;
use crate::types::State;
use crate::types::StateS;
use crate::types::StatementAddress;
use crate::types::StatementKind;
use crate::types::formula_eq;

verus! {

/// The formula of the statement picked as the current goal.
pub open spec fn goal_formula(c: ContextS, st: StateS) -> FormulaS {
    c.statements[st.current_level_stmt_addr as int].formula
}

/// The level is finished exactly when the stack is non-empty and its top
/// formula equals the goal formula.
pub open spec fn level_finished_spec(c: ContextS, st: StateS) -> bool {
    st.proof_stack.len() > 0 && st.proof_stack.last() == goal_formula(c, st)
}

/// Position of the first provable statement at or after `i` in corpus
/// order.
pub open spec fn first_provable_from(c: ContextS, i: int) -> Option<int>
    decreases c.statements.len() - i,
{
    if !(0 <= i < c.statements.len()) {
        None
    } else if c.statements[i].kind == StatementKind::Provable {
        Some(i)
    } else {
        first_provable_from(c, i + 1)
    }
}

/// Position of the first statement at or after `i` whose label is `lbl`.
pub open spec fn first_with_label_from(c: ContextS, lbl: Seq<char>, i: int) -> Option<int>
    decreases c.statements.len() - i,
{
    if !(0 <= i < c.statements.len()) {
        None
    } else if c.statements[i].label == lbl {
        Some(i)
    } else {
        first_with_label_from(c, lbl, i + 1)
    }
}

/// A scan that has passed positions without a hit may as well start after
/// them.
proof fn lemma_first_provable_skip(c: ContextS, lo: int, hi: int)
    requires
        0 <= lo <= hi <= c.statements.len(),
        forall|t: int| lo <= t < hi ==> (#[trigger] c.statements[t]).kind
            != StatementKind::Provable,
    ensures
        first_provable_from(c, lo) == first_provable_from(c, hi),
    decreases hi - lo,
{
    if lo < hi {
        lemma_first_provable_skip(c, lo + 1, hi);
    }
}

/// As `lemma_first_provable_skip`, for the label scan.
proof fn lemma_first_label_skip(c: ContextS, lbl: Seq<char>, lo: int, hi: int)
    requires
        0 <= lo <= hi <= c.statements.len(),
        forall|t: int| lo <= t < hi ==> (#[trigger] c.statements[t]).label != lbl,
    ensures
        first_with_label_from(c, lbl, lo) == first_with_label_from(c, lbl, hi),
    decreases hi - lo,
{
    if lo < hi {
        lemma_first_label_skip(c, lbl, lo + 1, hi);
    }
}

/// What `next_level` returns: nothing unless the level is finished, else
/// a fresh state at the next provable statement with an empty stack.
/// A finished level with no later provable statement is a fatal setup
/// condition, which `next_level` excludes by precondition.
pub open spec fn next_level_spec(c: ContextS, st: StateS) -> Option<StateS> {
    if !level_finished_spec(c, st) {
        None
    } else {
        match first_provable_from(c, st.current_level_stmt_addr + 1) {
            Some(a) => Some(
                StateS { current_level_stmt_addr: a as usize, proof_stack: Seq::empty() },
            ),
            None => None,
        }
    }
}

/// What `initial_state` returns: the state at the named level, or at the
/// first provable statement when no level is named, with an empty stack;
/// nothing when the label is absent or no statement is provable.
pub open spec fn initial_state_spec(c: ContextS, level: Option<Seq<char>>) -> Option<StateS> {
    let pos = match level {
        Some(lbl) => first_with_label_from(c, lbl, 0),
        None => first_provable_from(c, 0),
    };
    match pos {
        Some(a) => Some(StateS { current_level_stmt_addr: a as usize, proof_stack: Seq::empty() }),
        None => None,
    }
}

/// The ordered, duplicate-free form of a sequence: each entry at its
/// first occurrence.
pub open spec fn dedup_first(s: Seq<StatementAddress>) -> Seq<StatementAddress>
    decreases s.len(),
{
    if s.len() == 0 {
        Seq::empty()
    } else {
        let d = dedup_first(s.drop_last());
        if d.contains(s.last()) {
            d
        } else {
            d.push(s.last())
        }
    }
}

/// Linear membership test on an address list.
fn contains_addr(v: &Vec<StatementAddress>, x: StatementAddress) -> (r: bool)
    ensures
        r == v@.contains(x),
{
    for i in 0..v.len()
        invariant
            forall|t: int| 0 <= t < i ==> v@[t] != x,
    {
        if v[i] == x {
            return true;
        }
    }
    false
}

/// String equality with an exact contract.
fn str_eq(a: &str, b: &str) -> (r: bool)
    ensures
        r == (a@ == b@),
{
    let sa = a.to_owned();
    let sb = b.to_owned();
    sa == sb
}

impl Context {
    /// The ordered, duplicate-free list of statement addresses the proof
    /// of the statement at `addr` references.
    #[verifier::loop_isolation(false)]
    pub fn deps(&self, addr: StatementAddress) -> (r: Vec<StatementAddress>)
        requires
            self@.wf(),
            addr < self.statements@.len(),
        ensures
            r@ == dedup_first(self@.statements[addr as int].deps),
            forall|t: int| 0 <= t < r@.len() ==> #[trigger] r@[t] < self.statements@.len(),
    {
        proof {
            assert(self@.statements[addr as int] == self.statements@[addr as int]@);
            assert(self@.statements[addr as int].wf(self@));
        }
        let ds = &self.statements[addr].deps;
        let ghost dsv = self@.statements[addr as int].deps;
        let mut out: Vec<StatementAddress> = Vec::new();
        for i in 0..ds.len()
            invariant
                dsv == ds@,
                out@ == dedup_first(dsv.take(i as int)),
                forall|t: int| 0 <= t < out@.len() ==> #[trigger] out@[t] < self.statements@.len(),
        {
            proof {
                assert(dsv.take(i + 1).drop_last() =~= dsv.take(i as int));
                assert(dsv.take(i + 1).last() == dsv[i as int]);
            }
            if !contains_addr(&out, ds[i]) {
                out.push(ds[i]);
                proof {
                    assert(self@.statements.len() == self.statements@.len());
                    assert(dsv[i as int] < self.statements@.len());
                }
            }
        }
        proof {
            assert(dsv.take(dsv.len() as int) =~= dsv);
        }
        out
    }

    /// The opening state: the named level, or the first provable
    /// statement when none is named; `None` when the label is absent from
    /// the corpus or the corpus has no provable statement.
    #[verifier::loop_isolation(false)]
    pub fn initial_state(&self, level: Option<&str>) -> (r: Option<State>)
        requires
            self@.wf(),
        ensures
            ({
                let lv = match level {
                    Some(l) => Some(l@),
                    None => None,
                };
                match r {
                    Some(s) => initial_state_spec(self@, lv) == Some(s@) && s@.wf(self@),
                    None => initial_state_spec(self@, lv) is None,
                }
            }),
    {
        match level {
            Some(lbl) => {
                for a in 0..self.statements.len()
                    invariant
                        forall|t: int| 0 <= t < a ==> (#[trigger] self@.statements[t]).label
                            != lbl@,
                {
                    proof {
                        assert(self@.statements[a as int] == self.statements@[a as int]@);
                    }
                    if str_eq(self.statements[a].label.as_str(), lbl) {
                        let s2 = State { current_level_stmt_addr: a, proof_stack: Vec::new() };
                        proof {
                            lemma_first_label_skip(self@, lbl@, 0, a as int);
                            assert(first_with_label_from(self@, lbl@, a as int) == Some(a as int));
                            assert(s2@ =~= StateS {
                                current_level_stmt_addr: a,
                                proof_stack: Seq::empty(),
                            });
                        }
                        return Some(s2);
                    }
                }
                proof {
                    lemma_first_label_skip(self@, lbl@, 0, self.statements@.len() as int);
                }
                None
            },
            None => {
                for a in 0..self.statements.len()
                    invariant
                        forall|t: int| 0 <= t < a ==> (#[trigger] self@.statements[t]).kind
                            != StatementKind::Provable,
                {
                    proof {
                        assert(self@.statements[a as int] == self.statements@[a as int]@);
                    }
                    if matches!(self.statements[a].kind, StatementKind::Provable) {
                        let s2 = State { current_level_stmt_addr: a, proof_stack: Vec::new() };
                        proof {
                            lemma_first_provable_skip(self@, 0, a as int);
                            assert(first_provable_from(self@, a as int) == Some(a as int));
                            assert(s2@ =~= StateS {
                                current_level_stmt_addr: a,
                                proof_stack: Seq::empty(),
                            });
                        }
                        return Some(s2);
                    }
                }
                proof {
                    lemma_first_provable_skip(self@, 0, self.statements@.len() as int);
                }
                None
            },
        }
    }
}

impl State {
    /// Is the current level solved: stack non-empty and its top formula
    /// equal to the goal?
    pub fn level_finished(&self, ctx: &Context) -> (r: bool)
        requires
            ctx@.wf(),
            self@.wf(ctx@),
        ensures
            r == level_finished_spec(ctx@, self@),
    {
        if self.proof_stack.len() == 0 {
            return false;
        }
        proof {
            assert(ctx@.statements[self.current_level_stmt_addr as int]
                == ctx.statements@[self.current_level_stmt_addr as int]@);
            assert(self@.proof_stack.last() == self.proof_stack@[self.proof_stack@.len() - 1]@);
        }
        let goal = &ctx.statements[self.current_level_stmt_addr].formula;
        let top = &self.proof_stack[self.proof_stack.len() - 1];
        formula_eq(top, goal)
    }

    /// Advance to the next provable statement with an empty stack; `None`
    /// if the level is not finished yet. A finished level with nothing
    /// provable after it means the corpus is exhausted, a fatal setup
    /// condition this function excludes by precondition.
    #[verifier::loop_isolation(false)]
    pub fn next_level(&self, ctx: &Context) -> (r: Option<State>)
        requires
            ctx@.wf(),
            self@.wf(ctx@),
            level_finished_spec(ctx@, self@) ==> first_provable_from(
                ctx@,
                self.current_level_stmt_addr + 1,
            ) is Some,
        ensures
            match r {
                Some(s2) => next_level_spec(ctx@, self@) == Some(s2@) && s2@.wf(ctx@)
                    && s2.current_level_stmt_addr > self.current_level_stmt_addr,
                None => next_level_spec(ctx@, self@) is None,
            },
    {
        if !self.level_finished(ctx) {
            return None;
        }
        let total = ctx.statements.len();
        proof {
            assert(ctx@.statements.len() == ctx.statements@.len());
            assert(self.current_level_stmt_addr < total);
        }
        let start = self.current_level_stmt_addr + 1;
        let mut a = start;
        while a < ctx.statements.len()
            invariant
                start <= a <= ctx.statements@.len(),
                start == self.current_level_stmt_addr + 1,
                forall|t: int| start <= t < a ==> (#[trigger] ctx@.statements[t]).kind
                    != StatementKind::Provable,
            decreases ctx.statements@.len() - a,
        {
            proof {
                assert(ctx@.statements[a as int] == ctx.statements@[a as int]@);
            }
            if matches!(ctx.statements[a].kind, StatementKind::Provable) {
                let s2 = State { current_level_stmt_addr: a, proof_stack: Vec::new() };
                proof {
                    lemma_first_provable_skip(ctx@, start as int, a as int);
                    assert(first_provable_from(ctx@, start as int) == Some(a as int));
                    assert(s2@ =~= StateS {
                        current_level_stmt_addr: a,
                        proof_stack: Seq::empty(),
                    });
                }
                return Some(s2);
            }
            a = a + 1;
        }
        proof {
            lemma_first_provable_skip(ctx@, start as int, ctx.statements@.len() as int);
            assert(first_provable_from(ctx@, start as int) is None);
            assert(false);
        }
        None
    }

    /// For the current level's own proof, the ordered, duplicate-free
    /// addresses it references, each paired with the result of pushing
    /// it onto this state (a failure is kept, never hidden).
    #[verifier::loop_isolation(false)]
    pub fn buttons(&self, ctx: &Context) -> (r: Vec<(StatementAddress, Option<State>)>)
        requires
            ctx@.wf(),
            self@.wf(ctx@),
        ensures
            ({
                let ds = dedup_first(
                    ctx@.statements[self.current_level_stmt_addr as int].deps,
                );
                &&& r@.len() == ds.len()
                &&& forall|t: int| 0 <= t < ds.len() ==> (#[trigger] r@[t]).0 == ds[t]
                &&& forall|t: int|
                    0 <= t < ds.len() ==> match (#[trigger] r@[t]).1 {
                        Some(s2) => push_spec(ctx@, self@, ds[t]) == Some(s2@),
                        None => push_spec(ctx@, self@, ds[t]) is None,
                    }
            }),
    {
        let ds = ctx.deps(self.current_level_stmt_addr);
        let ghost dsv = dedup_first(ctx@.statements[self.current_level_stmt_addr as int].deps);
        let mut out: Vec<(StatementAddress, Option<State>)> = Vec::new();
        for t in 0..ds.len()
            invariant
                ds@ == dsv,
                forall|u: int| 0 <= u < ds@.len() ==> #[trigger] ds@[u] < ctx.statements@.len(),
                out@.len() == t,
                forall|u: int| 0 <= u < t ==> (#[trigger] out@[u]).0 == dsv[u],
                forall|u: int|
                    0 <= u < t ==> match (#[trigger] out@[u]).1 {
                        Some(s2) => push_spec(ctx@, self@, dsv[u]) == Some(s2@),
                        None => push_spec(ctx@, self@, dsv[u]) is None,
                    },
        {
            let addr = ds[t];
            let next = self.push(ctx, addr);
            out.push((addr, next));
        }
        out
    }
}

} // verus!
