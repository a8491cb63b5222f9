//! Laws the library states about itself, proved once and for all: the
//! engine is deterministic and sound, its pop-count stays in bounds, a
//! finished level advances properly, and the stack edits undo each other.

use vstd::prelude::*;

use crate::edits::copy_spec;
use crate::edits::delete_spec;
use crate::edits::move_spec;
use crate::edits::swap_spec;
use crate::engine::binds_exactly;
use crate::engine::dv_ok;
use crate::engine::level_dv;
use crate::engine::push_choice;
use crate::engine::push_spec;
use crate::engine::search_k;
use crate::engine::search_perms;
use crate::engine::stmt_is_hyp;
use crate::engine::try_candidate;
use crate::level::first_provable_from;
use crate::level::level_finished_spec;
use crate::level::next_level_spec;
use crate::subst::apply_map_formula;
use crate::types::ContextS;
use crate::types::FormulaS;
use crate::types::FrameS;
use crate::types::StateS;
use crate::types::StatementAddress;
use crate::types::StatementKind;
use crate::types::Token;

verus! {

/// Determinism: applying the same step to the same state settles on the
/// same (ordering, pop-count, substitution) choice and the same result,
/// every time.
pub proof fn lemma_push_deterministic(
    c: ContextS,
    s1: StateS,
    s2: StateS,
    addr: StatementAddress,
)
    requires
        s1 == s2,
    ensures
        push_spec(c, s1, addr) == push_spec(c, s2, addr),
        push_choice(c, s1, addr) == push_choice(c, s2, addr),
{
}

/// A hit of the pop-count scan is a successful candidate with the
/// pop-count inside the scanned range.
proof fn lemma_search_k_sound(
    ldv: Seq<(u64, u64)>,
    frame: FrameS,
    perm: Seq<usize>,
    stack: Seq<FormulaS>,
    k0: int,
    kmax: int,
    m: Map<u64, Seq<Token>>,
    k: int,
)
    requires
        search_k(ldv, frame, perm, stack, k0, kmax) == Some((m, k)),
    ensures
        k0 <= k <= kmax,
        try_candidate(ldv, frame, perm, stack, k) == Some(m),
    decreases kmax + 1 - k0,
{
    if try_candidate(ldv, frame, perm, stack, k0) is Some {
    } else {
        lemma_search_k_sound(ldv, frame, perm, stack, k0 + 1, kmax, m, k);
    }
}

/// A hit of the ordering scan is a successful candidate at the returned
/// ordering index, with the pop-count in range.
proof fn lemma_search_perms_sound(
    ldv: Seq<(u64, u64)>,
    frame: FrameS,
    plist: Seq<Seq<usize>>,
    i0: int,
    stack: Seq<FormulaS>,
    kmax: int,
    m: Map<u64, Seq<Token>>,
    k: int,
    pi: int,
)
    requires
        search_perms(ldv, frame, plist, i0, stack, kmax) == Some((m, k, pi)),
    ensures
        i0 <= pi < plist.len(),
        1 <= k <= kmax,
        try_candidate(ldv, frame, plist[pi], stack, k) == Some(m),
    decreases plist.len() - i0,
{
    if search_k(ldv, frame, plist[i0], stack, 1, kmax) is Some {
        let p = search_k(ldv, frame, plist[i0], stack, 1, kmax)->Some_0;
        lemma_search_k_sound(ldv, frame, plist[i0], stack, 1, kmax, p.0, p.1);
    } else {
        lemma_search_perms_sound(ldv, frame, plist, i0 + 1, stack, kmax, m, k, pi);
    }
}

/// Soundness: when applying an axiom or provable step succeeds, the new
/// top formula is the step's conclusion under the chosen substitution;
/// that substitution binds exactly the step's variables and respects
/// every mandatory disjoint-variable pair of the step under the pairs
/// the current level declares.
pub proof fn lemma_push_sound(
    c: ContextS,
    st: StateS,
    addr: StatementAddress,
    m: Map<u64, Seq<Token>>,
    k: int,
    pi: int,
)
    requires
        addr < c.statements.len(),
        !stmt_is_hyp(c.statements[addr as int].kind),
        push_choice(c, st, addr) == Some((m, k, pi)),
    ensures
        push_spec(c, st, addr) is Some,
        ({
            let st2 = push_spec(c, st, addr)->Some_0;
            &&& st2.proof_stack.len() == st.proof_stack.len() - k + 1
            &&& st2.proof_stack.last() == apply_map_formula(
                m,
                c.statements[addr as int].formula,
            )
        }),
        binds_exactly(m, c.statements[addr as int].frame.var_list),
        dv_ok(c.statements[addr as int].frame.disjoint, level_dv(c, st), m),
{
    let frame = c.statements[addr as int].frame;
    let n = frame.hypotheses.len() as int;
    if n == 0 {
        assert(try_candidate(level_dv(c, st), frame, Seq::empty(), st.proof_stack, 0) == Some(m));
    } else {
        let kmax = if st.proof_stack.len() <= n {
            st.proof_stack.len() as int
        } else {
            n
        };
        let plist = crate::perm::perms_of(crate::engine::idseq(n));
        lemma_search_perms_sound(level_dv(c, st), frame, plist, 0, st.proof_stack, kmax, m, k, pi);
    }
}

/// Pop-count bound: the chosen pop-count never exceeds the smaller of
/// the step's hypothesis count and the stack depth, and is positive
/// whenever the step has hypotheses.
pub proof fn lemma_pop_count_bound(
    c: ContextS,
    st: StateS,
    addr: StatementAddress,
    m: Map<u64, Seq<Token>>,
    k: int,
    pi: int,
)
    requires
        addr < c.statements.len(),
        push_choice(c, st, addr) == Some((m, k, pi)),
    ensures
        0 <= k <= c.statements[addr as int].frame.hypotheses.len(),
        k <= st.proof_stack.len(),
        c.statements[addr as int].frame.hypotheses.len() > 0 ==> 1 <= k,
{
    let frame = c.statements[addr as int].frame;
    let n = frame.hypotheses.len() as int;
    if n == 0 {
    } else {
        let kmax = if st.proof_stack.len() <= n {
            st.proof_stack.len() as int
        } else {
            n
        };
        let plist = crate::perm::perms_of(crate::engine::idseq(n));
        lemma_search_perms_sound(level_dv(c, st), frame, plist, 0, st.proof_stack, kmax, m, k, pi);
    }
}

/// A hit of the goal scan lies in the scanned range, is provable, and is
/// the first such position.
proof fn lemma_first_provable_props(c: ContextS, i: int, a: int)
    requires
        first_provable_from(c, i) == Some(a),
    ensures
        i <= a < c.statements.len(),
        c.statements[a].kind == StatementKind::Provable,
        forall|t: int| i <= t < a ==> (#[trigger] c.statements[t]).kind != StatementKind::Provable,
    decreases c.statements.len() - i,
{
    if 0 <= i < c.statements.len() && c.statements[i].kind != StatementKind::Provable {
        lemma_first_provable_props(c, i + 1, a);
    }
}

/// After a successful advance the stack is empty, the goal address
/// strictly increases to the first provable statement after the old one,
/// and advancing again before the new level is finished fails.
pub proof fn lemma_next_level_progress(c: ContextS, st: StateS, st2: StateS)
    requires
        c.statements.len() <= usize::MAX,
        next_level_spec(c, st) == Some(st2),
    ensures
        st2.proof_stack.len() == 0,
        st2.current_level_stmt_addr > st.current_level_stmt_addr,
        st2.current_level_stmt_addr < c.statements.len(),
        c.statements[st2.current_level_stmt_addr as int].kind == StatementKind::Provable,
        forall|t: int|
            st.current_level_stmt_addr < t < st2.current_level_stmt_addr ==> (
            #[trigger] c.statements[t]).kind != StatementKind::Provable,
        next_level_spec(c, st2) is None,
{
    let a = first_provable_from(c, st.current_level_stmt_addr + 1)->Some_0;
    lemma_first_provable_props(c, st.current_level_stmt_addr + 1, a);
    assert(0 <= a < c.statements.len());
    assert((a as usize) as int == a);
    assert(!level_finished_spec(c, st2));
}

/// Every stack edit keeps the state well-formed: the edits only
/// rearrange, duplicate or drop formulas that were already on the stack.
pub proof fn lemma_edits_preserve_wf(c: ContextS, st: StateS, i: int, j: int)
    requires
        st.wf(c),
    ensures
        swap_spec(st, i, j) matches Some(s2) ==> s2.wf(c),
        delete_spec(st, i) matches Some(s2) ==> s2.wf(c),
        copy_spec(st, i) matches Some(s2) ==> s2.wf(c),
        move_spec(st, i, j) matches Some(s2) ==> s2.wf(c),
{
    let stack = st.proof_stack;
    if 0 <= i < stack.len() && 0 <= j < stack.len() {
        let sw = swap_spec(st, i, j)->Some_0;
        assert forall|t: int| 0 <= t < sw.proof_stack.len() implies (
        #[trigger] sw.proof_stack[t]).wf(c) by {
            assert(sw.proof_stack[t] == stack[t] || sw.proof_stack[t] == stack[i]
                || sw.proof_stack[t] == stack[j]);
        }
        let mv = move_spec(st, i, j)->Some_0;
        assert forall|t: int| 0 <= t < mv.proof_stack.len() implies (
        #[trigger] mv.proof_stack[t]).wf(c) by {
            let removed = stack.remove(i);
            assert(forall|u: int| 0 <= u < removed.len() ==> #[trigger] removed[u] == (if u < i {
                stack[u]
            } else {
                stack[u + 1]
            }));
            if t < j {
                assert(mv.proof_stack[t] == removed[t]);
            } else if t == j {
                assert(mv.proof_stack[t] == stack[i]);
            } else {
                assert(mv.proof_stack[t] == removed[t - 1]);
            }
        }
    }
    if 0 <= i < stack.len() {
        let dl = delete_spec(st, i)->Some_0;
        assert forall|t: int| 0 <= t < dl.proof_stack.len() implies (
        #[trigger] dl.proof_stack[t]).wf(c) by {
            assert(dl.proof_stack[t] == (if t < i {
                stack[t]
            } else {
                stack[t + 1]
            }));
        }
        let cp = copy_spec(st, i)->Some_0;
        assert forall|t: int| 0 <= t < cp.proof_stack.len() implies (
        #[trigger] cp.proof_stack[t]).wf(c) by {
            if t < i {
                assert(cp.proof_stack[t] == stack[t]);
            } else if t == i {
                assert(cp.proof_stack[t] == stack[i]);
            } else {
                assert(cp.proof_stack[t] == stack[t - 1]);
            }
        }
    }
}

/// Swapping the same two entries twice restores the original state.
pub proof fn lemma_swap_involution(st: StateS, i: int, j: int)
    requires
        0 <= i < st.proof_stack.len(),
        0 <= j < st.proof_stack.len(),
    ensures
        swap_spec(st, i, j) is Some,
        swap_spec(swap_spec(st, i, j)->Some_0, i, j) == Some(st),
{
    let s1 = swap_spec(st, i, j)->Some_0;
    let s2 = swap_spec(s1, i, j)->Some_0;
    assert(s2.proof_stack =~= st.proof_stack);
    assert(s2 =~= st);
}

/// Copying an entry and then deleting the copy restores the original
/// state, for any valid position.
pub proof fn lemma_copy_delete(st: StateS, i: int)
    requires
        0 <= i < st.proof_stack.len(),
    ensures
        copy_spec(st, i) is Some,
        delete_spec(copy_spec(st, i)->Some_0, i) == Some(st),
{
    let s1 = copy_spec(st, i)->Some_0;
    let s2 = delete_spec(s1, i)->Some_0;
    assert(s2.proof_stack =~= st.proof_stack);
    assert(s2 =~= st);
}

} // verus!
