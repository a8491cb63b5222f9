//! Substitutions: a mapping from variables to token sequences, built
//! incrementally during unification and applied to formulas by in-place
//! token expansion.

use vstd::prelude::*;

use crate::types::Formula;
use crate::types::FormulaS;
use crate::types::ContextS;
use crate::types::Token;
use crate::types::tok_sym;

verus! {

/// Mathematical content of an association list, later entries winning.
pub open spec fn map_of(s: Seq<(u64, Seq<Token>)>) -> Map<u64, Seq<Token>>
    decreases s.len(),
{
    if s.len() == 0 {
        Map::empty()
    } else {
        map_of(s.drop_last()).insert(s.last().0, s.last().1)
    }
}

/// A key is in the map exactly when some entry carries it.
pub proof fn lemma_map_of_contains(s: Seq<(u64, Seq<Token>)>, v: u64)
    ensures
        map_of(s).dom().contains(v) <==> exists|i: int| 0 <= i < s.len() && (#[trigger] s[i]).0 == v,
    decreases s.len(),
{
    if s.len() > 0 {
        lemma_map_of_contains(s.drop_last(), v);
        if s.last().0 == v {
            assert(s[s.len() - 1].0 == v);
        } else {
            if exists|i: int| 0 <= i < s.len() && (#[trigger] s[i]).0 == v {
                let i = choose|i: int| 0 <= i < s.len() && (#[trigger] s[i]).0 == v;
                assert(s.drop_last()[i] == s[i]);
            }
        }
    }
}

/// Entries whose key differs from `v` do not change what `v` maps to.
pub proof fn lemma_map_of_suffix_irrelevant(s: Seq<(u64, Seq<Token>)>, idx: int, v: u64)
    requires
        0 <= idx <= s.len(),
        forall|j: int| idx <= j < s.len() ==> (#[trigger] s[j]).0 != v,
    ensures
        map_of(s).dom().contains(v) <==> map_of(s.take(idx)).dom().contains(v),
        map_of(s).dom().contains(v) ==> map_of(s)[v] == map_of(s.take(idx))[v],
    decreases s.len() - idx,
{
    if idx < s.len() {
        lemma_map_of_suffix_irrelevant(s.drop_last(), idx, v);
        assert(s.drop_last().take(idx) =~= s.take(idx));
    } else {
        assert(s.take(idx) =~= s);
    }
}

/// The abstract content of a list of binding entries.
pub open spec fn pairs_view(s: Seq<(u64, Vec<Token>)>) -> Seq<(u64, Seq<Token>)> {
    s.map_values(|p: (u64, Vec<Token>)| (p.0, p.1@))
}

/// A variable-to-tokens substitution. The abstract value is the `Map` the
/// entries denote; entries added later shadow earlier ones with the same
/// key (callers below never add a key twice).
pub struct Subst {
    pub pairs: Vec<(u64, Vec<Token>)>,
}

impl View for Subst {
    type V = Map<u64, Seq<Token>>;

    open spec fn view(&self) -> Map<u64, Seq<Token>> {
        map_of(pairs_view(self.pairs@))
    }
}

impl Subst {
    pub fn new() -> (r: Subst)
        ensures
            r@ == Map::<u64, Seq<Token>>::empty(),
    {
        Subst { pairs: Vec::new() }
    }

    /// What `v` is bound to, if anything.
    pub fn get(&self, v: u64) -> (r: Option<&Vec<Token>>)
        ensures
            match r {
                Some(t) => self@.dom().contains(v) && t@ == self@[v],
                None => !self@.dom().contains(v),
            },
    {
        let ghost s = pairs_view(self.pairs@);
        let mut idx = self.pairs.len();
        while idx > 0
            invariant
                0 <= idx <= self.pairs.len(),
                s == pairs_view(self.pairs@),
                s.len() == self.pairs.len(),
                forall|j: int| idx <= j < s.len() ==> (#[trigger] s[j]).0 != v,
            decreases idx,
        {
            idx = idx - 1;
            if self.pairs[idx].0 == v {
                proof {
                    lemma_map_of_suffix_irrelevant(s, idx + 1, v);
                    assert(s.take(idx + 1).drop_last() =~= s.take(idx as int));
                    assert(s.take(idx + 1).last() == s[idx as int]);
                }
                return Some(&self.pairs[idx].1);
            }
        }
        proof {
            lemma_map_of_suffix_irrelevant(s, 0, v);
            assert(s.take(0) =~= Seq::<(u64, Seq<Token>)>::empty());
        }
        None
    }

    /// Bind `v` to `toks`.
    pub fn set(&mut self, v: u64, toks: Vec<Token>)
        ensures
            final(self)@ == old(self)@.insert(v, toks@),
    {
        let ghost s = pairs_view(self.pairs@);
        self.pairs.push((v, toks));
        proof {
            let s2 = pairs_view(self.pairs@);
            assert(s2.drop_last() =~= s);
            assert(s2.last() == (v, toks@));
        }
    }
}

/// Does some token among the first `n` of `toks` mention the variable `v`?
pub open spec fn has_var_prefix(toks: Seq<Token>, n: int, v: u64) -> bool {
    exists|k: int| 0 <= k < n && toks[k] == Token::Var(v)
}

/// Does some token of `toks` mention the variable `v`?
pub open spec fn has_var(toks: Seq<Token>, v: u64) -> bool {
    has_var_prefix(toks, toks.len() as int, v)
}

/// The variables a token sequence mentions, possibly with repeats.
pub fn vars_of(toks: &Vec<Token>) -> (r: Vec<u64>)
    ensures
        forall|v: u64| r@.contains(v) <==> has_var(toks@, v),
{
    let mut out: Vec<u64> = Vec::new();
    for i in 0..toks.len()
        invariant
            forall|v: u64| out@.contains(v) <==> has_var_prefix(toks@, i as int, v),
    {
        let ghost pre = out@;
        match toks[i] {
            Token::Var(x) => {
                out.push(x);
                proof {
                    assert forall|v: u64| out@.contains(v) implies has_var_prefix(
                        toks@,
                        i + 1,
                        v,
                    ) by {
                        if v == x {
                            assert(toks@[i as int] == Token::Var(v));
                        } else {
                            let j = choose|j: int| 0 <= j < out@.len() && out@[j] == v;
                            assert(pre[j] == v);
                            assert(pre.contains(v));
                            let k = choose|k: int| 0 <= k < i && toks@[k] == Token::Var(v);
                            assert(toks@[k] == Token::Var(v));
                        }
                    }
                    assert forall|v: u64| has_var_prefix(toks@, i + 1, v) implies out@.contains(
                        v,
                    ) by {
                        let k = choose|k: int| 0 <= k < i + 1 && toks@[k] == Token::Var(v);
                        if k == i {
                            assert(out@[out@.len() - 1] == v);
                        } else {
                            assert(has_var_prefix(toks@, i as int, v));
                            assert(pre.contains(v));
                            let j = choose|j: int| 0 <= j < pre.len() && pre[j] == v;
                            assert(out@[j] == pre[j]);
                            assert(out@[j] == v);
                        }
                    }
                }
            },
            Token::Con(_) => {
                proof {
                    assert forall|v: u64| has_var_prefix(toks@, i + 1, v) implies has_var_prefix(
                        toks@,
                        i as int,
                        v,
                    ) by {
                        let k = choose|k: int| 0 <= k < i + 1 && toks@[k] == Token::Var(v);
                        assert(k != i);
                    }
                }
            },
        }
    }
    out
}

/// What one token expands to under a substitution.
pub open spec fn expand_token(m: Map<u64, Seq<Token>>, t: Token) -> Seq<Token> {
    match t {
        Token::Var(v) => if m.dom().contains(v) {
            m[v]
        } else {
            seq![t]
        },
        Token::Con(_) => seq![t],
    }
}

/// A token sequence after substitution: each bound variable is replaced by
/// the sequence it is bound to, everything else stays.
pub open spec fn apply_map(m: Map<u64, Seq<Token>>, toks: Seq<Token>) -> Seq<Token>
    decreases toks.len(),
{
    if toks.len() == 0 {
        Seq::empty()
    } else {
        expand_token(m, toks[0]) + apply_map(m, toks.skip(1))
    }
}

/// Substitution distributes over concatenation.
pub proof fn lemma_apply_map_append(m: Map<u64, Seq<Token>>, a: Seq<Token>, b: Seq<Token>)
    ensures
        apply_map(m, a + b) == apply_map(m, a) + apply_map(m, b),
    decreases a.len(),
{
    if a.len() == 0 {
        assert(a + b =~= b);
        assert(apply_map(m, a) + apply_map(m, b) =~= apply_map(m, b));
    } else {
        lemma_apply_map_append(m, a.skip(1), b);
        assert((a + b).skip(1) =~= a.skip(1) + b);
        assert((a + b)[0] == a[0]);
        assert(apply_map(m, a + b) == expand_token(m, a[0]) + (apply_map(m, a.skip(1)) + apply_map(
            m,
            b,
        )));
        assert(expand_token(m, a[0]) + (apply_map(m, a.skip(1)) + apply_map(m, b)) =~= (
        expand_token(m, a[0]) + apply_map(m, a.skip(1))) + apply_map(m, b));
    }
}

/// A formula after substitution: the typecode stays, the tokens expand.
pub open spec fn apply_map_formula(m: Map<u64, Seq<Token>>, f: FormulaS) -> FormulaS {
    FormulaS { typecode: f.typecode, tokens: apply_map(m, f.tokens) }
}

/// Every value of the substitution only mentions symbols the knowledge
/// base names.
pub open spec fn map_values_wf(c: ContextS, m: Map<u64, Seq<Token>>) -> bool {
    forall|v: u64| #[trigger] m.dom().contains(v) ==> forall|i: int|
        0 <= i < m[v].len() ==> tok_sym(#[trigger] m[v][i]) < c.sym_names.len()
}

/// Substitution keeps tokens inside the symbol table.
pub proof fn lemma_apply_map_wf(c: ContextS, m: Map<u64, Seq<Token>>, toks: Seq<Token>)
    requires
        map_values_wf(c, m),
        forall|i: int| 0 <= i < toks.len() ==> tok_sym(#[trigger] toks[i]) < c.sym_names.len(),
    ensures
        forall|i: int| 0 <= i < apply_map(m, toks).len() ==> tok_sym(
            #[trigger] apply_map(m, toks)[i],
        ) < c.sym_names.len(),
    decreases toks.len(),
{
    if toks.len() > 0 {
        assert(forall|i: int| 0 <= i < toks.skip(1).len() ==> tok_sym(#[trigger] toks.skip(1)[i])
            < c.sym_names.len());
        lemma_apply_map_wf(c, m, toks.skip(1));
        let head = expand_token(m, toks[0]);
        assert forall|i: int| 0 <= i < head.len() implies tok_sym(#[trigger] head[i])
            < c.sym_names.len() by {
            match toks[0] {
                Token::Var(v) => {
                    if m.dom().contains(v) {
                        assert(tok_sym(m[v][i]) < c.sym_names.len());
                    } else {
                        assert(head[i] == toks[0]);
                    }
                },
                Token::Con(_) => {
                    assert(head[i] == toks[0]);
                },
            }
        }
        assert forall|i: int| 0 <= i < apply_map(m, toks).len() implies tok_sym(
            #[trigger] apply_map(m, toks)[i],
        ) < c.sym_names.len() by {
            if i < head.len() {
                assert(apply_map(m, toks)[i] == head[i]);
            } else {
                assert(apply_map(m, toks)[i] == apply_map(m, toks.skip(1))[i - head.len()]);
            }
        }
    }
}

/// Apply a substitution to a token sequence.
pub fn apply_subst_tokens(s: &Subst, toks: &Vec<Token>) -> (r: Vec<Token>)
    ensures
        r@ == apply_map(s@, toks@),
{
    let mut out: Vec<Token> = Vec::new();
    for i in 0..toks.len()
        invariant
            out@ == apply_map(s@, toks@.take(i as int)),
    {
        proof {
            let single = seq![toks@[i as int]];
            assert(toks@.take(i + 1) =~= toks@.take(i as int) + single);
            lemma_apply_map_append(s@, toks@.take(i as int), single);
            assert(single.skip(1) =~= Seq::<Token>::empty());
            assert(apply_map(s@, single) == expand_token(s@, single[0]) + apply_map(
                s@,
                single.skip(1),
            ));
            assert(expand_token(s@, single[0]) + apply_map(s@, single.skip(1)) =~= expand_token(
                s@,
                toks@[i as int],
            ));
        }
        match toks[i] {
            Token::Var(x) => {
                match s.get(x) {
                    Some(t) => {
                        let ghost pre = out@;
                        for j in 0..t.len()
                            invariant
                                out@ == pre + t@.take(j as int),
                            {
                            out.push(t[j]);
                            proof {
                                assert(pre + t@.take(j + 1) =~= (pre + t@.take(j as int)).push(
                                    t@[j as int],
                                ));
                            }
                        }
                        proof {
                            assert(t@.take(t@.len() as int) =~= t@);
                        }
                    },
                    None => {
                        out.push(Token::Var(x));
                        proof {
                            assert(out@ =~= apply_map(s@, toks@.take(i as int)) + expand_token(
                                s@,
                                toks@[i as int],
                            ));
                        }
                    },
                }
            },
            Token::Con(x) => {
                out.push(Token::Con(x));
                proof {
                    assert(out@ =~= apply_map(s@, toks@.take(i as int)) + expand_token(
                        s@,
                        toks@[i as int],
                    ));
                }
            },
        }
    }
    proof {
        assert(toks@.take(toks@.len() as int) =~= toks@);
    }
    out
}

/// Apply a substitution to a formula.
pub fn apply_subst(s: &Subst, f: &Formula) -> (r: Formula)
    ensures
        r@ == apply_map_formula(s@, f@),
{
    Formula { typecode: f.typecode, tokens: apply_subst_tokens(s, &f.tokens) }
}

} // verus!
