//! Enumeration of the orderings a hypothesis list can be tried in: all
//! permutations, generated in a fixed lexicographic-by-position order so
//! that the search over them is deterministic.

use vstd::prelude::*;

verus! {

/// The abstract content of a vector of index vectors.
pub open spec fn vv(s: Seq<Vec<usize>>) -> Seq<Seq<usize>> {
    s.map_values(|p: Vec<usize>| p@)
}

/// Each sequence of `ps` with `x` put in front.
pub open spec fn prepend_all(x: usize, ps: Seq<Seq<usize>>) -> Seq<Seq<usize>> {
    ps.map_values(|p: Seq<usize>| seq![x] + p)
}

/// All permutations of `s`, in a stable order: those starting with `s[0]`
/// first, then those starting with `s[1]`, and so on, recursively.
pub open spec fn perms_of(s: Seq<usize>) -> Seq<Seq<usize>>
    decreases s.len(), s.len() + 1,
{
    if s.len() == 0 {
        seq![Seq::<usize>::empty()]
    } else {
        perms_from(s, 0)
    }
}

/// The permutations of `s` whose first element is at position `i` or later.
pub open spec fn perms_from(s: Seq<usize>, i: int) -> Seq<Seq<usize>>
    decreases s.len(), s.len() - i,
{
    if s.len() == 0 || i < 0 || i >= s.len() {
        Seq::empty()
    } else {
        prepend_all(s[i], perms_of(s.remove(i))) + perms_from(s, i + 1)
    }
}

/// Copy of a `usize` vector with an exact contract.
fn copy_usizes(v: &Vec<usize>) -> (r: Vec<usize>)
    ensures
        r@ == v@,
{
    let mut out: Vec<usize> = Vec::new();
    for i in 0..v.len()
        invariant
            out@ == v@.take(i as int),
    {
        out.push(v[i]);
        proof {
            assert(out@ =~= v@.take(i + 1));
        }
    }
    proof {
        assert(v@.take(v@.len() as int) =~= v@);
    }
    out
}

/// `p` with `x` put in front.
fn prepend(x: usize, p: &Vec<usize>) -> (r: Vec<usize>)
    ensures
        r@ == seq![x] + p@,
{
    let mut out: Vec<usize> = Vec::new();
    out.push(x);
    for i in 0..p.len()
        invariant
            out@ == seq![x] + p@.take(i as int),
    {
        out.push(p[i]);
        proof {
            assert(out@ =~= seq![x] + p@.take(i + 1));
        }
    }
    proof {
        assert(p@.take(p@.len() as int) =~= p@);
    }
    out
}

/// All permutations of `s`, in the order `perms_of` fixes.
pub fn permutations(s: &Vec<usize>) -> (r: Vec<Vec<usize>>)
    ensures
        vv(r@) == perms_of(s@),
    decreases s@.len(),
{
    let mut out: Vec<Vec<usize>> = Vec::new();
    if s.len() == 0 {
        out.push(Vec::new());
        proof {
            assert(vv(out@) =~= seq![Seq::<usize>::empty()]);
        }
        return out;
    }
    proof {
        assert(vv(out@) =~= Seq::<Seq<usize>>::empty());
        assert(Seq::<Seq<usize>>::empty() + perms_from(s@, 0) =~= perms_from(s@, 0));
    }
    for i in 0..s.len()
        invariant
            s@.len() > 0,
            perms_of(s@) == vv(out@) + perms_from(s@, i as int),
        decreases s@.len() - i,
    {
        let ghost base = vv(out@);
        let mut rest = copy_usizes(s);
        rest.remove(i);
        let sub = permutations(&rest);
        let ghost group = prepend_all(s@[i as int], perms_of(s@.remove(i as int)));
        proof {
            assert(group.len() == vv(sub@).len());
        }
        for j in 0..sub.len()
            invariant
                group == prepend_all(s@[i as int], vv(sub@)),
                group.len() == vv(sub@).len(),
                vv(sub@) == perms_of(s@.remove(i as int)),
                vv(out@) == base + group.take(j as int),
                i < s@.len(),
        {
            let q = prepend(s[i], &sub[j]);
            proof {
                assert(group[j as int] == seq![s@[i as int]] + vv(sub@)[j as int]);
                assert(vv(sub@)[j as int] == sub@[j as int]@);
                assert(q@ == group[j as int]);
            }
            let ghost pre_out = out@;
            out.push(q);
            proof {
                let rhs = base + group.take(j + 1);
                assert(out@.len() == pre_out.len() + 1);
                assert(vv(pre_out) == base + group.take(j as int));
                assert(vv(pre_out).len() == pre_out.len());
                assert(group.take(j as int).len() == j);
                assert(pre_out.len() == base.len() + j);
                assert forall|k: int| 0 <= k < vv(out@).len() implies vv(out@)[k] == rhs[k] by {
                    if k < pre_out.len() {
                        assert(out@[k] == pre_out[k]);
                        assert(vv(pre_out)[k] == (base + group.take(j as int))[k]);
                        if k < base.len() {
                            assert(rhs[k] == base[k]);
                        } else {
                            assert(rhs[k] == group.take(j + 1)[k - base.len()]);
                            assert((base + group.take(j as int))[k] == group.take(j as int)[k
                                - base.len()]);
                        }
                    } else {
                        assert(out@[k] == q);
                        assert(rhs[k] == group[j as int]);
                    }
                }
                assert(vv(out@) =~= base + group.take(j + 1));
            }
        }
        proof {
            assert(group.take(group.len() as int) =~= group);
            assert(vv(out@) == base + group);
            assert(perms_from(s@, i as int) == group + perms_from(s@, i + 1));
            assert((base + group) + perms_from(s@, i + 1) =~= base + (group + perms_from(
                s@,
                i + 1,
            )));
        }
    }
    proof {
        assert(perms_from(s@, s@.len() as int) =~= Seq::<Seq<usize>>::empty());
        assert(vv(out@) + Seq::<Seq<usize>>::empty() =~= vv(out@));
    }
    out
}

/// Every enumerated ordering has the length of `s` and draws its entries
/// from `s`.
pub proof fn lemma_perms_of_shape(s: Seq<usize>)
    ensures
        forall|pi: int| 0 <= pi < perms_of(s).len() ==> (#[trigger] perms_of(s)[pi]).len()
            == s.len(),
        forall|pi: int, t: int|
            0 <= pi < perms_of(s).len() && 0 <= t < perms_of(s)[pi].len() ==> s.contains(
                #[trigger] perms_of(s)[pi][t],
            ),
    decreases s.len(), s.len() + 1,
{
    if s.len() == 0 {
        assert(perms_of(s) == seq![Seq::<usize>::empty()]);
        assert forall|pi: int| 0 <= pi < perms_of(s).len() implies (#[trigger] perms_of(
            s,
        )[pi]).len() == s.len() by {
            assert(pi == 0);
            assert(perms_of(s)[0] == Seq::<usize>::empty());
        }
    } else {
        lemma_perms_from_shape(s, 0);
        assert(perms_of(s) == perms_from(s, 0));
    }
}

/// As `lemma_perms_of_shape`, for the tail of the enumeration.
pub proof fn lemma_perms_from_shape(s: Seq<usize>, i: int)
    ensures
        forall|pi: int| 0 <= pi < perms_from(s, i).len() ==> (#[trigger] perms_from(s, i)[pi]).len()
            == s.len(),
        forall|pi: int, t: int|
            0 <= pi < perms_from(s, i).len() && 0 <= t < perms_from(s, i)[pi].len() ==> s.contains(
                #[trigger] perms_from(s, i)[pi][t],
            ),
    decreases s.len(), s.len() - i,
{
    if s.len() == 0 || i < 0 || i >= s.len() {
    } else {
        let rest = s.remove(i);
        lemma_perms_of_shape(rest);
        lemma_perms_from_shape(s, i + 1);
        let group = prepend_all(s[i], perms_of(rest));
        assert forall|pi: int| 0 <= pi < group.len() implies (#[trigger] group[pi]).len()
            == s.len() by {
            assert(group[pi] == seq![s[i]] + perms_of(rest)[pi]);
        }
        assert forall|pi: int, t: int|
            0 <= pi < group.len() && 0 <= t < group[pi].len() implies s.contains(
            #[trigger] group[pi][t],
        ) by {
            assert(group[pi] == seq![s[i]] + perms_of(rest)[pi]);
            if t == 0 {
                assert(group[pi][t] == s[i]);
            } else {
                let x = perms_of(rest)[pi][t - 1];
                assert(group[pi][t] == x);
                assert(rest.contains(x));
                let k = choose|k: int| 0 <= k < rest.len() && rest[k] == x;
                if k < i {
                    assert(s[k] == x);
                } else {
                    assert(s[k + 1] == x);
                }
            }
        }
        assert forall|pi: int| 0 <= pi < perms_from(s, i).len() implies (#[trigger] perms_from(
            s,
            i,
        )[pi]).len() == s.len() by {
            if pi < group.len() {
                assert(perms_from(s, i)[pi] == group[pi]);
            } else {
                assert(perms_from(s, i)[pi] == perms_from(s, i + 1)[pi - group.len()]);
            }
        }
        assert forall|pi: int, t: int|
            0 <= pi < perms_from(s, i).len() && 0 <= t < perms_from(s, i)[pi].len() implies s
            .contains(#[trigger] perms_from(s, i)[pi][t]) by {
            if pi < group.len() {
                assert(perms_from(s, i)[pi] == group[pi]);
            } else {
                assert(perms_from(s, i)[pi] == perms_from(s, i + 1)[pi - group.len()]);
            }
        }
    }
}

} // verus!
