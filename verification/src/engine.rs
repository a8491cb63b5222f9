//! The application engine: given a stack and a candidate step, decide
//! legality, compute the substitution, and return the new stack or failure.
//!
//! The search tries every ordering of the step's hypotheses and every
//! pop-count, in a fixed enumeration order (orderings as `perms_of` lists
//! them, pop-counts ascending within each ordering); the first candidate
//! that aligns, binds exactly the step's variables and respects the
//! disjoint-variable constraints wins.

use vstd::prelude::*;

use crate::perm::perms_of;
use crate::subst::Subst;
use crate::subst::apply_map;
use crate::subst::apply_map_formula;
use crate::subst::apply_subst_tokens;
use crate::subst::has_var;
use crate::subst::lemma_map_of_contains;
use crate::subst::map_values_wf;
use crate::subst::pairs_view;
use crate::subst::vars_of;
use crate::perm::lemma_perms_of_shape;
use crate::perm::permutations;
use crate::perm::vv;
use crate::subst::apply_subst;
use crate::types::Context;
use crate::types::ContextS;
use crate::types::Formula;
use crate::types::Frame;
use crate::types::State;
use crate::types::StatementAddress;
use crate::types::copy_formula;
use crate::types::copy_formulas;
use crate::types::FormulaS;
use crate::types::FrameS;
use crate::types::Hypothesis;
use crate::types::HypothesisS;
use crate::types::StateS;
use crate::types::StatementKind;
use crate::types::Token;
use crate::types::copy_tokens;
use crate::types::fmls;
use crate::types::hyps_view;
use crate::types::tokens_eq;

verus! {

/// Is some hypothesis of the sequence essential?
pub open spec fn any_essential(hyps: Seq<HypothesisS>) -> bool {
    exists|i: int| 0 <= i < hyps.len() && (#[trigger] hyps[i]) is Essential
}

/// Align a hypothesis sequence against a slice of the stack, top first:
/// the last hypothesis is matched with the slice's last formula, and so
/// on downward. A floating hypothesis requires the formula's typecode to
/// equal its own and binds its variable to the formula's tokens (or, if
/// already bound, requires the binding to agree). An essential hypothesis
/// requires the formula to equal its template after the substitution
/// gathered so far. Hypotheses left over once the slice is exhausted must
/// all be floating; they bind nothing.
pub open spec fn align(
    hyps: Seq<HypothesisS>,
    slice: Seq<FormulaS>,
    m: Map<u64, Seq<Token>>,
) -> Option<Map<u64, Seq<Token>>>
    decreases slice.len(),
{
    if slice.len() == 0 {
        if any_essential(hyps) {
            None
        } else {
            Some(m)
        }
    } else if hyps.len() == 0 {
        None
    } else {
        let f = slice.last();
        match hyps.last() {
            HypothesisS::Floating { var, typecode } => {
                if f.typecode != typecode {
                    None
                } else if m.dom().contains(var) {
                    if m[var] == f.tokens {
                        align(hyps.drop_last(), slice.drop_last(), m)
                    } else {
                        None
                    }
                } else {
                    align(hyps.drop_last(), slice.drop_last(), m.insert(var, f.tokens))
                }
            },
            HypothesisS::Essential { formula } => {
                if formula.typecode == f.typecode && apply_map(m, formula.tokens) == f.tokens {
                    align(hyps.drop_last(), slice.drop_last(), m)
                } else {
                    None
                }
            },
        }
    }
}

/// The hypotheses in the order a permutation of their positions gives.
pub open spec fn perm_hyps(hyps: Seq<HypothesisS>, perm: Seq<usize>) -> Seq<HypothesisS> {
    perm.map_values(|j: usize| hyps[j as int])
}

/// What a variable is bound to, the empty sequence if unbound.
pub open spec fn m_get(m: Map<u64, Seq<Token>>, v: u64) -> Seq<Token> {
    if m.dom().contains(v) {
        m[v]
    } else {
        Seq::empty()
    }
}

/// Is the unordered pair {a, b} declared in the disjoint-variable list?
pub open spec fn pair_listed(dv: Seq<(u64, u64)>, a: u64, b: u64) -> bool {
    dv.contains((a, b)) || dv.contains((b, a))
}

/// One disjoint-variable pair (x, y) of the step is respected: any two
/// variables occurring in what x and y are bound to are distinct and
/// declared disjoint by the current level's context.
pub open spec fn dv_pair_ok(level_dv: Seq<(u64, u64)>, m: Map<u64, Seq<Token>>, x: u64, y: u64) -> bool {
    forall|v1: u64, v2: u64|
        #[trigger] has_var(m_get(m, x), v1) && #[trigger] has_var(m_get(m, y), v2) ==> v1 != v2
            && pair_listed(level_dv, v1, v2)
}

/// Every disjoint-variable pair of the step is respected.
pub open spec fn dv_ok(step_dv: Seq<(u64, u64)>, level_dv: Seq<(u64, u64)>, m: Map<u64, Seq<Token>>) -> bool {
    forall|t: int| 0 <= t < step_dv.len() ==> dv_pair_ok(
        level_dv,
        m,
        (#[trigger] step_dv[t]).0,
        step_dv[t].1,
    )
}

/// The bound variables are exactly the listed ones.
pub open spec fn binds_exactly(m: Map<u64, Seq<Token>>, var_list: Seq<u64>) -> bool {
    &&& forall|v: u64| #[trigger] m.dom().contains(v) ==> var_list.contains(v)
    &&& forall|v: u64| #[trigger] var_list.contains(v) ==> m.dom().contains(v)
}

/// One candidate of the search: try the given hypothesis ordering with the
/// given pop-count `k` against the top `k` stack entries.
pub open spec fn try_candidate(
    level_dv: Seq<(u64, u64)>,
    frame: FrameS,
    perm: Seq<usize>,
    stack: Seq<FormulaS>,
    k: int,
) -> Option<Map<u64, Seq<Token>>> {
    if !(0 <= k <= stack.len()) {
        None
    } else {
        match align(perm_hyps(frame.hypotheses, perm), stack.skip(stack.len() - k), Map::empty()) {
            None => None,
            Some(m) => if binds_exactly(m, frame.var_list) && dv_ok(frame.disjoint, level_dv, m) {
                Some(m)
            } else {
                None
            },
        }
    }
}

/// First pop-count in `k..=kmax` whose candidate succeeds for this
/// ordering, with its substitution.
pub open spec fn search_k(
    level_dv: Seq<(u64, u64)>,
    frame: FrameS,
    perm: Seq<usize>,
    stack: Seq<FormulaS>,
    k: int,
    kmax: int,
) -> Option<(Map<u64, Seq<Token>>, int)>
    decreases kmax + 1 - k,
{
    if k < 1 || k > kmax {
        None
    } else {
        match try_candidate(level_dv, frame, perm, stack, k) {
            Some(m) => Some((m, k)),
            None => search_k(level_dv, frame, perm, stack, k + 1, kmax),
        }
    }
}

/// First (ordering, pop-count) candidate from position `i` of the ordering
/// list on that succeeds, with its substitution, pop-count and ordering
/// index.
pub open spec fn search_perms(
    level_dv: Seq<(u64, u64)>,
    frame: FrameS,
    plist: Seq<Seq<usize>>,
    i: int,
    stack: Seq<FormulaS>,
    kmax: int,
) -> Option<(Map<u64, Seq<Token>>, int, int)>
    decreases plist.len() - i,
{
    if !(0 <= i < plist.len()) {
        None
    } else {
        match search_k(level_dv, frame, plist[i], stack, 1, kmax) {
            Some(p) => Some((p.0, p.1, i)),
            None => search_perms(level_dv, frame, plist, i + 1, stack, kmax),
        }
    }
}

/// The disjoint-variable list declared by the current level's context.
pub open spec fn level_dv(c: ContextS, st: StateS) -> Seq<(u64, u64)> {
    c.statements[st.current_level_stmt_addr as int].frame.disjoint
}

/// The positions 0, 1, ..., n-1.
pub open spec fn idseq(n: int) -> Seq<usize> {
    Seq::new(n as nat, |i: int| i as usize)
}

/// Is the statement a hypothesis rather than a provable step or axiom?
pub open spec fn stmt_is_hyp(k: StatementKind) -> bool {
    k == StatementKind::EssentialHyp || k == StatementKind::FloatingHyp
}

/// The substitution, pop-count and ordering index the search settles on
/// for an axiom or provable step, if any candidate succeeds. A step with
/// no hypotheses pops nothing and is checked with the empty ordering.
pub open spec fn push_choice(c: ContextS, st: StateS, addr: usize) -> Option<
    (Map<u64, Seq<Token>>, int, int),
> {
    let frame = c.statements[addr as int].frame;
    let n = frame.hypotheses.len() as int;
    if n == 0 {
        match try_candidate(level_dv(c, st), frame, Seq::empty(), st.proof_stack, 0) {
            Some(m) => Some((m, 0, 0)),
            None => None,
        }
    } else {
        let kmax = if st.proof_stack.len() <= n {
            st.proof_stack.len() as int
        } else {
            n
        };
        search_perms(level_dv(c, st), frame, perms_of(idseq(n)), 0, st.proof_stack, kmax)
    }
}

/// What applying the statement at `addr` does to the state: a hypothesis
/// statement is appended as it stands; an axiom or provable statement pops
/// the chosen number of entries and pushes its conclusion under the chosen
/// substitution; `None` if no candidate succeeds.
pub open spec fn push_spec(c: ContextS, st: StateS, addr: usize) -> Option<StateS> {
    let stmt = c.statements[addr as int];
    if stmt_is_hyp(stmt.kind) {
        Some(
            StateS {
                current_level_stmt_addr: st.current_level_stmt_addr,
                proof_stack: st.proof_stack.push(stmt.formula),
            },
        )
    } else {
        match push_choice(c, st, addr) {
            None => None,
            Some(ch) => Some(
                StateS {
                    current_level_stmt_addr: st.current_level_stmt_addr,
                    proof_stack: st.proof_stack.take(st.proof_stack.len() - ch.1).push(
                        apply_map_formula(ch.0, stmt.formula),
                    ),
                },
            ),
        }
    }
}

/// Align the hypotheses, taken in the order `perm` gives, against the top
/// `k` stack entries, building the substitution `align` describes.
fn align_exec(hyps: &Vec<Hypothesis>, perm: &Vec<usize>, stack: &Vec<Formula>, k: usize) -> (r:
    Option<Subst>)
    requires
        perm@.len() == hyps@.len(),
        forall|t: int| 0 <= t < perm@.len() ==> #[trigger] perm@[t] < hyps@.len(),
        k <= stack@.len(),
        k <= hyps@.len(),
    ensures
        ({
            let spec_r = align(
                perm_hyps(hyps_view(hyps@), perm@),
                fmls(stack@).skip(stack@.len() - k),
                Map::empty(),
            );
            match r {
                Some(s) => spec_r == Some(s@),
                None => spec_r is None,
            }
        }),
{
    let n = hyps.len();
    let ghost ph = perm_hyps(hyps_view(hyps@), perm@);
    let ghost slice = fmls(stack@).skip(stack@.len() - k);
    proof {
        assert(ph.len() == n);
        assert(slice.len() == k);
        assert(ph.take(n - 0) =~= ph);
        assert(slice.take(k - 0) =~= slice);
    }
    let mut s = Subst::new();
    let mut i: usize = 0;
    while i < k
        invariant
            i <= k,
            k <= stack@.len(),
            k <= n,
            n == hyps@.len(),
            perm@.len() == n,
            forall|t: int| 0 <= t < perm@.len() ==> #[trigger] perm@[t] < hyps@.len(),
            ph == perm_hyps(hyps_view(hyps@), perm@),
            slice == fmls(stack@).skip(stack@.len() - k),
            ph.len() == n,
            slice.len() == k,
            align(ph, slice, Map::empty()) == align(
                ph.take(n - i),
                slice.take(k - i),
                s@,
            ),
        decreases k - i,
    {
        let hi = perm[n - 1 - i];
        let sf = &stack[stack.len() - 1 - i];
        proof {
            assert(ph.take(n - i).len() == n - i);
            assert(ph.take(n - i).last() == ph[n - 1 - i]);
            assert(ph[n - 1 - i] == hyps_view(hyps@)[perm@[n - 1 - i] as int]);
            assert(hyps_view(hyps@)[hi as int] == hyps@[hi as int]@);
            assert(slice.take(k - i).len() == k - i);
            assert(slice.take(k - i).last() == slice[k - 1 - i]);
            assert(slice[k - 1 - i] == fmls(stack@)[stack@.len() - k + (k - 1 - i)]);
            assert(fmls(stack@)[stack@.len() - 1 - i] == stack@[stack@.len() - 1 - i]@);
            assert(ph.take(n - i).drop_last() =~= ph.take(n - (i + 1)));
            assert(slice.take(k - i).drop_last() =~= slice.take(k - (i + 1)));
        }
        match &hyps[hi] {
            Hypothesis::Floating { var, typecode } => {
                if sf.typecode != *typecode {
                    return None;
                }
                match s.get(*var) {
                    Some(t) => {
                        if !tokens_eq(t, &sf.tokens) {
                            return None;
                        }
                    },
                    None => {
                        s.set(*var, copy_tokens(&sf.tokens));
                    },
                }
            },
            Hypothesis::Essential { formula } => {
                let applied = apply_subst_tokens(&s, &formula.tokens);
                if formula.typecode != sf.typecode {
                    return None;
                }
                if !tokens_eq(&applied, &sf.tokens) {
                    return None;
                }
            },
        }
        i = i + 1;
    }
    proof {
        assert(slice.take(k - i).len() == 0);
        assert(slice.take(k - i) =~= Seq::<FormulaS>::empty());
    }
    let lim = n - k;
    let mut j: usize = 0;
    while j < lim
        invariant
            j <= lim,
            lim == n - k,
            k <= n,
            k <= stack@.len(),
            n == hyps@.len(),
            perm@.len() == n,
            forall|t: int| 0 <= t < perm@.len() ==> #[trigger] perm@[t] < hyps@.len(),
            ph == perm_hyps(hyps_view(hyps@), perm@),
            slice == fmls(stack@).skip(stack@.len() - k),
            ph.len() == n,
            align(ph, slice, Map::empty()) == align(ph.take(n - k), slice.take(0), s@),
            slice.take(0).len() == 0,
            forall|t: int| 0 <= t < j ==> !((#[trigger] ph[t]) is Essential),
        decreases lim - j,
    {
        let hj = perm[j];
        proof {
            assert(ph[j as int] == hyps_view(hyps@)[perm@[j as int] as int]);
            assert(hyps_view(hyps@)[hj as int] == hyps@[hj as int]@);
        }
        match &hyps[hj] {
            Hypothesis::Essential { formula } => {
                proof {
                    assert(ph.take(n - k)[j as int] == ph[j as int]);
                    assert(any_essential(ph.take(n - k)));
                    assert(align(ph.take(n - k), slice.take(0), s@) is None);
                }
                return None;
            },
            Hypothesis::Floating { .. } => {},
        }
        j = j + 1;
    }
    proof {
        assert forall|t: int| 0 <= t < ph.take(n - k).len() implies !((#[trigger] ph.take(
            n - k,
        )[t]) is Essential) by {
            assert(ph.take(n - k)[t] == ph[t]);
        }
        assert(!any_essential(ph.take(n - k)));
        assert(align(ph.take(n - k), slice.take(0), s@) == Some(s@));
    }
    Some(s)
}

/// Linear membership test on a variable list.
fn contains_u64(v: &Vec<u64>, x: u64) -> (r: bool)
    ensures
        r == v@.contains(x),
{
    for i in 0..v.len()
        invariant
            forall|t: int| 0 <= t < i ==> v@[t] != x,
    {
        if v[i] == x {
            return true;
        }
    }
    false
}

/// Does the substitution bind exactly the variables of `var_list`?
fn binds_exactly_exec(s: &Subst, var_list: &Vec<u64>) -> (r: bool)
    ensures
        r == binds_exactly(s@, var_list@),
{
    let ghost pv = pairs_view(s.pairs@);
    for idx in 0..s.pairs.len()
        invariant
            pv == pairs_view(s.pairs@),
            forall|t: int| 0 <= t < idx ==> var_list@.contains((#[trigger] pv[t]).0),
    {
        if !contains_u64(var_list, s.pairs[idx].0) {
            proof {
                lemma_map_of_contains(pv, pv[idx as int].0);
                assert(s@.dom().contains(pv[idx as int].0));
            }
            return false;
        }
        proof {
            assert(pv[idx as int].0 == s.pairs@[idx as int].0);
        }
    }
    for idx in 0..var_list.len()
        invariant
            forall|t: int| 0 <= t < idx ==> s@.dom().contains(#[trigger] var_list@[t]),
    {
        if s.get(var_list[idx]).is_none() {
            proof {
                assert(var_list@.contains(var_list@[idx as int]));
            }
            return false;
        }
    }
    proof {
        assert forall|v: u64| #[trigger] s@.dom().contains(v) implies var_list@.contains(v) by {
            lemma_map_of_contains(pv, v);
            let i = choose|i: int| 0 <= i < pv.len() && (#[trigger] pv[i]).0 == v;
            assert(var_list@.contains(pv[i].0));
        }
        assert forall|v: u64| #[trigger] var_list@.contains(v) implies s@.dom().contains(v) by {
            let i = choose|i: int| 0 <= i < var_list@.len() && var_list@[i] == v;
            assert(s@.dom().contains(var_list@[i]));
        }
    }
    true
}

/// Linear membership test for an unordered pair in a disjoint-variable
/// list.
fn pair_listed_exec(dv: &Vec<(u64, u64)>, a: u64, b: u64) -> (r: bool)
    ensures
        r == pair_listed(dv@, a, b),
{
    for i in 0..dv.len()
        invariant
            forall|t: int| 0 <= t < i ==> #[trigger] dv@[t] != (a, b) && dv@[t] != (b, a),
    {
        let p = dv[i];
        if (p.0 == a && p.1 == b) || (p.0 == b && p.1 == a) {
            proof {
                assert(dv@[i as int] == (a, b) || dv@[i as int] == (b, a));
            }
            return true;
        }
    }
    proof {
        if dv@.contains((a, b)) {
            let t = choose|t: int| 0 <= t < dv@.len() && dv@[t] == (a, b);
            assert(false);
        }
        if dv@.contains((b, a)) {
            let t = choose|t: int| 0 <= t < dv@.len() && dv@[t] == (b, a);
            assert(false);
        }
    }
    false
}

/// Check one disjoint-variable pair (x, y) of the step against the
/// current level's declared pairs.
fn dv_pair_ok_exec(level_dv: &Vec<(u64, u64)>, s: &Subst, x: u64, y: u64) -> (r: bool)
    ensures
        r == dv_pair_ok(level_dv@, s@, x, y),
{
    let xs = match s.get(x) {
        Some(t) => vars_of(t),
        None => Vec::new(),
    };
    let ys = match s.get(y) {
        Some(t) => vars_of(t),
        None => Vec::new(),
    };
    proof {
        assert(forall|v: u64| xs@.contains(v) <==> has_var(m_get(s@, x), v));
        assert(forall|v: u64| ys@.contains(v) <==> has_var(m_get(s@, y), v));
    }
    for ia in 0..xs.len()
        invariant
            forall|v: u64| xs@.contains(v) <==> has_var(m_get(s@, x), v),
            forall|v: u64| ys@.contains(v) <==> has_var(m_get(s@, y), v),
            forall|t: int, u: int|
                0 <= t < ia && 0 <= u < ys@.len() ==> #[trigger] xs@[t] != #[trigger] ys@[u]
                    && pair_listed(level_dv@, xs@[t], ys@[u]),
    {
        for ib in 0..ys.len()
            invariant
                forall|v: u64| xs@.contains(v) <==> has_var(m_get(s@, x), v),
                forall|v: u64| ys@.contains(v) <==> has_var(m_get(s@, y), v),
                ia < xs@.len(),
                forall|t: int, u: int|
                    0 <= t < ia && 0 <= u < ys@.len() ==> #[trigger] xs@[t] != #[trigger] ys@[u]
                        && pair_listed(level_dv@, xs@[t], ys@[u]),
                forall|u: int|
                    0 <= u < ib ==> xs@[ia as int] != #[trigger] ys@[u] && pair_listed(
                        level_dv@,
                        xs@[ia as int],
                        ys@[u],
                    ),
        {
            let a = xs[ia];
            let b = ys[ib];
            proof {
                assert(xs@[ia as int] == a);
                assert(xs@.contains(a));
                assert(has_var(m_get(s@, x), a));
                assert(ys@[ib as int] == b);
                assert(ys@.contains(b));
                assert(has_var(m_get(s@, y), b));
            }
            if a == b {
                proof {
                    assert(!dv_pair_ok(level_dv@, s@, x, y));
                }
                return false;
            }
            if !pair_listed_exec(level_dv, a, b) {
                proof {
                    assert(!dv_pair_ok(level_dv@, s@, x, y));
                }
                return false;
            }
        }
    }
    proof {
        assert forall|v1: u64, v2: u64|
            has_var(#[trigger] m_get(s@, x), v1) && has_var(
                #[trigger] m_get(s@, y),
                v2,
            ) implies v1 != v2 && pair_listed(level_dv@, v1, v2) by {
            assert(xs@.contains(v1));
            assert(ys@.contains(v2));
            let t = choose|t: int| 0 <= t < xs@.len() && xs@[t] == v1;
            let u = choose|u: int| 0 <= u < ys@.len() && ys@[u] == v2;
            assert(xs@[t] != ys@[u] && pair_listed(level_dv@, xs@[t], ys@[u]));
        }
    }
    true
}

/// Check every disjoint-variable pair of the step.
fn dv_ok_exec(step_dv: &Vec<(u64, u64)>, level_dv: &Vec<(u64, u64)>, s: &Subst) -> (r: bool)
    ensures
        r == dv_ok(step_dv@, level_dv@, s@),
{
    for t in 0..step_dv.len()
        invariant
            forall|u: int| 0 <= u < t ==> dv_pair_ok(
                level_dv@,
                s@,
                (#[trigger] step_dv@[u]).0,
                step_dv@[u].1,
            ),
    {
        let p = step_dv[t];
        if !dv_pair_ok_exec(level_dv, s, p.0, p.1) {
            return false;
        }
    }
    true
}

/// Alignment only binds variables to tokens drawn from the stack slice,
/// so a substitution built from a well-formed slice stays inside the
/// symbol table.
pub proof fn lemma_align_values_wf(
    c: ContextS,
    hyps: Seq<HypothesisS>,
    slice: Seq<FormulaS>,
    m0: Map<u64, Seq<Token>>,
    m: Map<u64, Seq<Token>>,
)
    requires
        forall|i: int| 0 <= i < slice.len() ==> (#[trigger] slice[i]).wf(c),
        map_values_wf(c, m0),
        align(hyps, slice, m0) == Some(m),
    ensures
        map_values_wf(c, m),
    decreases slice.len(),
{
    if slice.len() == 0 {
    } else if hyps.len() == 0 {
    } else {
        let f = slice.last();
        assert(slice[slice.len() - 1].wf(c));
        assert(forall|i: int| 0 <= i < slice.drop_last().len() ==> (
        #[trigger] slice.drop_last()[i]).wf(c));
        match hyps.last() {
            HypothesisS::Floating { var, typecode } => {
                if f.typecode == typecode {
                    if m0.dom().contains(var) {
                        if m0[var] == f.tokens {
                            lemma_align_values_wf(c, hyps.drop_last(), slice.drop_last(), m0, m);
                        }
                    } else {
                        let m1 = m0.insert(var, f.tokens);
                        assert forall|v: u64| #[trigger] m1.dom().contains(v) implies forall|
                            i: int,
                        |
                            0 <= i < m1[v].len() ==> crate::types::tok_sym(#[trigger] m1[v][i])
                                < c.sym_names.len() by {
                            if v == var {
                                assert(m1[v] == f.tokens);
                            } else {
                                assert(m1[v] == m0[v]);
                            }
                        }
                        lemma_align_values_wf(c, hyps.drop_last(), slice.drop_last(), m1, m);
                    }
                }
            },
            HypothesisS::Essential { formula } => {
                if formula.typecode == f.typecode && apply_map(m0, formula.tokens) == f.tokens {
                    lemma_align_values_wf(c, hyps.drop_last(), slice.drop_last(), m0, m);
                }
            },
        }
    }
}

/// A substitution a successful candidate produced only holds well-formed
/// token sequences, provided the stack is well-formed.
pub proof fn lemma_try_candidate_values_wf(
    c: ContextS,
    level_dv: Seq<(u64, u64)>,
    frame: FrameS,
    perm: Seq<usize>,
    stack: Seq<FormulaS>,
    k: int,
    m: Map<u64, Seq<Token>>,
)
    requires
        forall|i: int| 0 <= i < stack.len() ==> (#[trigger] stack[i]).wf(c),
        try_candidate(level_dv, frame, perm, stack, k) == Some(m),
    ensures
        map_values_wf(c, m),
{
    let slice = stack.skip(stack.len() - k);
    assert forall|i: int| 0 <= i < slice.len() implies (#[trigger] slice[i]).wf(c) by {
        assert(slice[i] == stack[stack.len() - k + i]);
    }
    assert(map_values_wf(c, Map::<u64, Seq<Token>>::empty()));
    let r = align(perm_hyps(frame.hypotheses, perm), slice, Map::empty());
    lemma_align_values_wf(c, perm_hyps(frame.hypotheses, perm), slice, Map::empty(), m);
}

/// Try one (ordering, pop-count) candidate.
fn try_candidate_exec(
    level_dv: &Vec<(u64, u64)>,
    frame: &Frame,
    perm: &Vec<usize>,
    stack: &Vec<Formula>,
    k: usize,
) -> (r: Option<Subst>)
    requires
        perm@.len() == frame.hypotheses@.len(),
        forall|t: int| 0 <= t < perm@.len() ==> #[trigger] perm@[t] < frame.hypotheses@.len(),
        k <= stack@.len(),
        k <= frame.hypotheses@.len(),
    ensures
        match r {
            Some(s) => try_candidate(level_dv@, frame@, perm@, fmls(stack@), k as int) == Some(s@),
            None => try_candidate(level_dv@, frame@, perm@, fmls(stack@), k as int) is None,
        },
{
    proof {
        assert(fmls(stack@).len() == stack@.len());
        assert(frame@.hypotheses == hyps_view(frame.hypotheses@));
    }
    let s = match align_exec(&frame.hypotheses, perm, stack, k) {
        Some(s) => s,
        None => {
            return None;
        },
    };
    if !binds_exactly_exec(&s, &frame.var_list) {
        return None;
    }
    if !dv_ok_exec(&frame.disjoint, level_dv, &s) {
        return None;
    }
    Some(s)
}

impl State {
    /// Apply the statement at `step_addr` to this state. `push_spec` says
    /// exactly what comes back: the same result for the same arguments,
    /// every time.
    #[verifier::loop_isolation(false)]
    pub fn push(&self, ctx: &Context, step_addr: StatementAddress) -> (r: Option<State>)
        requires
            ctx@.wf(),
            self@.wf(ctx@),
            step_addr < ctx.statements@.len(),
        ensures
            match r {
                Some(s2) => push_spec(ctx@, self@, step_addr) == Some(s2@) && s2@.wf(ctx@)
                    && s2.current_level_stmt_addr == self.current_level_stmt_addr,
                None => push_spec(ctx@, self@, step_addr) is None,
            },
    {
        proof {
            assert(ctx@.statements[step_addr as int] == ctx.statements@[step_addr as int]@);
            assert(ctx@.statements[step_addr as int].wf(ctx@));
            assert(ctx@.statements[self.current_level_stmt_addr as int] == ctx.statements@[self.current_level_stmt_addr as int]@);
        }
        let stmt = &ctx.statements[step_addr];
        let ghost stmt_s = ctx@.statements[step_addr as int];
        match stmt.kind {
            StatementKind::EssentialHyp | StatementKind::FloatingHyp => {
                let mut stack = copy_formulas(&self.proof_stack);
                stack.push(copy_formula(&stmt.formula));
                let s2 = State {
                    current_level_stmt_addr: self.current_level_stmt_addr,
                    proof_stack: stack,
                };
                proof {
                    assert(stmt_is_hyp(stmt_s.kind));
                    assert(fmls(s2.proof_stack@) =~= self@.proof_stack.push(stmt_s.formula));
                    assert(s2@ =~= StateS {
                        current_level_stmt_addr: self@.current_level_stmt_addr,
                        proof_stack: self@.proof_stack.push(stmt_s.formula),
                    });
                    assert forall|i: int| 0 <= i < s2@.proof_stack.len() implies (
                    #[trigger] s2@.proof_stack[i]).wf(ctx@) by {
                        if i < self@.proof_stack.len() {
                            assert(s2@.proof_stack[i] == self@.proof_stack[i]);
                        } else {
                            assert(s2@.proof_stack[i] == stmt_s.formula);
                        }
                    }
                }
                Some(s2)
            },
            StatementKind::Axiom | StatementKind::Provable => {
                let n = stmt.frame.hypotheses.len();
                let level_disjoint = &ctx.statements[self.current_level_stmt_addr].frame.disjoint;
                let ghost frame_s = stmt_s.frame;
                let ghost ldv = level_dv(ctx@, self@);
                proof {
                    assert(level_disjoint@ == ldv);
                    assert(stmt.frame@ == frame_s);
                    assert(fmls(self.proof_stack@) == self@.proof_stack);
                    assert(!stmt_is_hyp(stmt_s.kind));
                }
                if n == 0 {
                    let empty_perm: Vec<usize> = Vec::new();
                    match try_candidate_exec(
                        level_disjoint,
                        &stmt.frame,
                        &empty_perm,
                        &self.proof_stack,
                        0,
                    ) {
                        Some(s) => {
                            let mut stack = copy_formulas(&self.proof_stack);
                            let concl = apply_subst(&s, &stmt.formula);
                            stack.push(concl);
                            let s2 = State {
                                current_level_stmt_addr: self.current_level_stmt_addr,
                                proof_stack: stack,
                            };
                            proof {
                                assert(empty_perm@ =~= Seq::<usize>::empty());
                                assert(push_choice(ctx@, self@, step_addr) == Some(
                                    (s@, 0int, 0int),
                                ));
                                assert(self@.proof_stack.take(
                                    self@.proof_stack.len() - 0,
                                ) =~= self@.proof_stack);
                                assert(fmls(s2.proof_stack@) =~= self@.proof_stack.push(
                                    apply_map_formula(s@, stmt_s.formula),
                                ));
                                assert(s2@ =~= StateS {
                                    current_level_stmt_addr: self@.current_level_stmt_addr,
                                    proof_stack: self@.proof_stack.take(
                                        self@.proof_stack.len() - 0,
                                    ).push(apply_map_formula(s@, stmt_s.formula)),
                                });
                                lemma_try_candidate_values_wf(
                                    ctx@,
                                    ldv,
                                    frame_s,
                                    empty_perm@,
                                    self@.proof_stack,
                                    0,
                                    s@,
                                );
                                crate::subst::lemma_apply_map_wf(ctx@, s@, stmt_s.formula.tokens);
                                assert forall|i: int| 0 <= i < s2@.proof_stack.len() implies (
                                #[trigger] s2@.proof_stack[i]).wf(ctx@) by {
                                    if i < self@.proof_stack.len() {
                                        assert(s2@.proof_stack[i] == self@.proof_stack[i]);
                                    } else {
                                        assert(s2@.proof_stack[i] == apply_map_formula(
                                            s@,
                                            stmt_s.formula,
                                        ));
                                    }
                                }
                            }
                            Some(s2)
                        },
                        None => {
                            proof {
                                assert(empty_perm@ =~= Seq::<usize>::empty());
                                assert(push_choice(ctx@, self@, step_addr) is None);
                            }
                            None
                        },
                    }
                } else {
                    let kmax = if self.proof_stack.len() < n {
                        self.proof_stack.len()
                    } else {
                        n
                    };
                    let mut ids: Vec<usize> = Vec::new();
                    for t in 0..n
                        invariant
                            ids@ == idseq(t as int),
                    {
                        ids.push(t);
                        proof {
                            assert(ids@ =~= idseq(t + 1));
                        }
                    }
                    let permlist = permutations(&ids);
                    let ghost plist = perms_of(idseq(n as int));
                    proof {
                        assert(vv(permlist@) == plist);
                        lemma_perms_of_shape(idseq(n as int));
                        assert forall|pi: int, t: int|
                            0 <= pi < plist.len() && 0 <= t < plist[pi].len() implies #[trigger] plist[pi][t]
                            < n by {
                            assert(idseq(n as int).contains(plist[pi][t]));
                            let j = choose|j: int|
                                0 <= j < idseq(n as int).len() && idseq(n as int)[j] == plist[pi][t];
                            assert(idseq(n as int)[j] == j as usize);
                        }
                    }
                    let mut i: usize = 0;
                    while i < permlist.len()
                        invariant
                            search_perms(ldv, frame_s, plist, 0, self@.proof_stack, kmax as int)
                                == search_perms(
                                ldv,
                                frame_s,
                                plist,
                                i as int,
                                self@.proof_stack,
                                kmax as int,
                            ),
                        decreases permlist@.len() - i,
                    {
                        let perm = &permlist[i];
                        proof {
                            assert(plist[i as int] == vv(permlist@)[i as int]);
                            assert(perm@ == plist[i as int]);
                            assert(perm@.len() == idseq(n as int).len());
                            assert(forall|t: int| 0 <= t < perm@.len() ==> #[trigger] perm@[t]
                                < n);
                        }
                        for j in 0..kmax
                            invariant
                                search_k(
                                    ldv,
                                    frame_s,
                                    perm@,
                                    self@.proof_stack,
                                    1,
                                    kmax as int,
                                ) == search_k(
                                    ldv,
                                    frame_s,
                                    perm@,
                                    self@.proof_stack,
                                    j + 1,
                                    kmax as int,
                                ),
                        {
                            let k = j + 1;
                            match try_candidate_exec(
                                level_disjoint,
                                &stmt.frame,
                                perm,
                                &self.proof_stack,
                                k,
                            ) {
                                Some(s) => {
                                    let mut stack = copy_formulas(&self.proof_stack);
                                    let new_len = stack.len() - k;
                                    stack.truncate(new_len);
                                    let concl = apply_subst(&s, &stmt.formula);
                                    stack.push(concl);
                                    let s2 = State {
                                        current_level_stmt_addr: self.current_level_stmt_addr,
                                        proof_stack: stack,
                                    };
                                    proof {
                                        assert(search_k(
                                            ldv,
                                            frame_s,
                                            perm@,
                                            self@.proof_stack,
                                            k as int,
                                            kmax as int,
                                        ) == Some((s@, k as int)));
                                        assert(search_perms(
                                            ldv,
                                            frame_s,
                                            plist,
                                            i as int,
                                            self@.proof_stack,
                                            kmax as int,
                                        ) == Some((s@, k as int, i as int)));
                                        assert(push_choice(ctx@, self@, step_addr) == Some(
                                            (s@, k as int, i as int),
                                        ));
                                        let taken = self@.proof_stack.take(
                                            self@.proof_stack.len() - k,
                                        );
                                        assert(fmls(stack@) =~= taken.push(
                                            apply_map_formula(s@, stmt_s.formula),
                                        ));
                                        assert(s2@ =~= StateS {
                                            current_level_stmt_addr: self@.current_level_stmt_addr,
                                            proof_stack: taken.push(
                                                apply_map_formula(s@, stmt_s.formula),
                                            ),
                                        });
                                        lemma_try_candidate_values_wf(
                                            ctx@,
                                            ldv,
                                            frame_s,
                                            perm@,
                                            self@.proof_stack,
                                            k as int,
                                            s@,
                                        );
                                        crate::subst::lemma_apply_map_wf(
                                            ctx@,
                                            s@,
                                            stmt_s.formula.tokens,
                                        );
                                        assert forall|t: int|
                                            0 <= t < s2@.proof_stack.len() implies (
                                        #[trigger] s2@.proof_stack[t]).wf(ctx@) by {
                                            if t < taken.len() {
                                                assert(s2@.proof_stack[t]
                                                    == self@.proof_stack[t]);
                                            } else {
                                                assert(s2@.proof_stack[t] == apply_map_formula(
                                                    s@,
                                                    stmt_s.formula,
                                                ));
                                            }
                                        }
                                    }
                                    return Some(s2);
                                },
                                None => {
                                    proof {
                                        assert(try_candidate(
                                            ldv,
                                            frame_s,
                                            perm@,
                                            self@.proof_stack,
                                            k as int,
                                        ) is None);
                                    }
                                },
                            }
                        }
                        proof {
                            assert(search_k(
                                ldv,
                                frame_s,
                                perm@,
                                self@.proof_stack,
                                kmax + 1,
                                kmax as int,
                            ) is None);
                        }
                        i = i + 1;
                    }
                    proof {
                        assert(search_perms(
                            ldv,
                            frame_s,
                            plist,
                            permlist@.len() as int,
                            self@.proof_stack,
                            kmax as int,
                        ) is None);
                        assert(push_choice(ctx@, self@, step_addr) is None);
                    }
                    None
                }
            },
        }
    }
}

} // verus!
