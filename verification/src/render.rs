//! Rendering to the presentation layer: display strings for formulas,
//! inferences and the stack, statement labels, and the byte-to-string
//! conversion used when corpus text reaches the library as bytes.

use vstd::prelude::*;
use vstd::string::StringExecFns;
use vstd::utf8::decode_utf8;
use vstd::utf8::valid_utf8;

use crate::types::Context;
use crate::types::ContextS;
use crate::types::Formula;
use crate::types::FormulaS;
use crate::types::Hypothesis;
use crate::types::HypothesisS;
use crate::types::State;
use crate::types::StatementAddress;
use crate::types::Token;
use crate::types::tok_sym;

verus! {

/// The display text of a token sequence: each symbol's name, concatenated.
pub open spec fn render_tokens_spec(c: ContextS, toks: Seq<Token>) -> Seq<char>
    decreases toks.len(),
{
    if toks.len() == 0 {
        Seq::empty()
    } else {
        c.sym_names[tok_sym(toks[0]) as int] + render_tokens_spec(c, toks.skip(1))
    }
}

/// Token rendering distributes over concatenation.
proof fn lemma_render_tokens_append(c: ContextS, a: Seq<Token>, b: Seq<Token>)
    ensures
        render_tokens_spec(c, a + b) == render_tokens_spec(c, a) + render_tokens_spec(c, b),
    decreases a.len(),
{
    if a.len() == 0 {
        assert(a + b =~= b);
        assert(render_tokens_spec(c, a) + render_tokens_spec(c, b) =~= render_tokens_spec(c, b));
    } else {
        lemma_render_tokens_append(c, a.skip(1), b);
        assert((a + b).skip(1) =~= a.skip(1) + b);
        assert((a + b)[0] == a[0]);
        assert(c.sym_names[tok_sym(a[0]) as int] + (render_tokens_spec(c, a.skip(1))
            + render_tokens_spec(c, b)) =~= (c.sym_names[tok_sym(a[0]) as int]
            + render_tokens_spec(c, a.skip(1))) + render_tokens_spec(c, b));
    }
}

/// The display text of a formula: its typecode's name, then its tokens'.
pub open spec fn render_formula_spec(c: ContextS, f: FormulaS) -> Seq<char> {
    c.sym_names[f.typecode as int] + render_tokens_spec(c, f.tokens)
}

/// The display text of a hypothesis: a floating hypothesis shows its
/// typecode and variable, an essential one its formula.
pub open spec fn render_hyp_spec(c: ContextS, h: HypothesisS) -> Seq<char> {
    match h {
        HypothesisS::Floating { var, typecode } => c.sym_names[typecode as int] + c.sym_names[var as int],
        HypothesisS::Essential { formula } => render_formula_spec(c, formula),
    }
}

/// Relies on std::str::from_utf8, which succeeds exactly on valid UTF-8
/// and yields its decoding, and on str::to_owned for the owned copy.
#[verifier::external_body]
fn decode_bytes(bytes: &[u8]) -> (r: Option<String>)
    ensures
        match r {
            Some(s) => valid_utf8(bytes@) && s@ == decode_utf8(bytes@),
            None => !valid_utf8(bytes@),
        },
{
    match std::str::from_utf8(bytes) {
        Ok(s) => Some(s.to_owned()),
        Err(_) => None,
    }
}

/// The string a byte sequence decodes to, when it is valid UTF-8.
pub fn from_utf8(bytes: &[u8]) -> (r: Option<String>)
    ensures
        match r {
            Some(s) => valid_utf8(bytes@) && s@ == decode_utf8(bytes@),
            None => !valid_utf8(bytes@),
        },
{
    decode_bytes(bytes)
}

/// Check a formula against the symbol table.
#[verifier::loop_isolation(false)]
fn formula_wf_exec(ctx: &Context, f: &Formula) -> (r: bool)
    ensures
        r == f@.wf(ctx@),
{
    let nsyms = ctx.sym_names.len();
    proof {
        assert(ctx@.sym_names.len() == ctx.sym_names@.len());
    }
    if f.typecode >= nsyms as u64 {
        return false;
    }
    for i in 0..f.tokens.len()
        invariant
            forall|t: int| 0 <= t < i ==> tok_sym(#[trigger] f.tokens@[t]) < ctx@.sym_names.len(),
    {
        let sym = match f.tokens[i] {
            Token::Con(s) => s,
            Token::Var(s) => s,
        };
        if sym >= nsyms as u64 {
            proof {
                assert(tok_sym(f@.tokens[i as int]) == sym);
                assert(!f@.wf(ctx@));
            }
            return false;
        }
    }
    proof {
        assert(forall|t: int| 0 <= t < f@.tokens.len() ==> tok_sym(#[trigger] f@.tokens[t])
            < ctx@.sym_names.len());
    }
    true
}

impl Context {
    /// The display name of one symbol.
    fn render_token(&self, sym: u64) -> (r: String)
        requires
            sym < self@.sym_names.len(),
        ensures
            r@ == self@.sym_names[sym as int],
    {
        proof {
            assert(self@.sym_names.len() == self.sym_names@.len());
            assert(self@.sym_names[sym as int] == self.sym_names@[sym as int]@);
        }
        let n = self.sym_names.len();
        proof {
            assert(sym < n as u64);
        }
        let idx = sym as usize;
        proof {
            assert(idx as int == sym as int);
        }
        self.sym_names[idx].clone()
    }

    /// The display text of a formula: typecode name, then each token's
    /// name, concatenated.
    #[verifier::loop_isolation(false)]
    pub fn render_formula(&self, f: &Formula) -> (r: String)
        requires
            f@.wf(self@),
        ensures
            r@ == render_formula_spec(self@, f@),
    {
        let mut out = self.render_token(f.typecode);
        for i in 0..f.tokens.len()
            invariant
                out@ == self@.sym_names[f@.typecode as int] + render_tokens_spec(
                    self@,
                    f@.tokens.take(i as int),
                ),
        {
            proof {
                let pre = f@.tokens.take(i as int);
                let single = seq![f@.tokens[i as int]];
                assert(f@.tokens.take(i + 1) =~= pre + single);
                lemma_render_tokens_append(self@, pre, single);
                assert(single.skip(1) =~= Seq::<Token>::empty());
                assert(render_tokens_spec(self@, single) == self@.sym_names[tok_sym(
                    single[0],
                ) as int] + render_tokens_spec(self@, single.skip(1)));
                assert(self@.sym_names[tok_sym(single[0]) as int] + render_tokens_spec(
                    self@,
                    single.skip(1),
                ) =~= self@.sym_names[tok_sym(f@.tokens[i as int]) as int]);
            }
            let sym = match f.tokens[i] {
                Token::Con(s) => s,
                Token::Var(s) => s,
            };
            let name = self.render_token(sym);
            out.append(name.as_str());
            proof {
                assert(out@ =~= self@.sym_names[f@.typecode as int] + render_tokens_spec(
                    self@,
                    f@.tokens.take(i + 1),
                ));
            }
        }
        proof {
            assert(f@.tokens.take(f@.tokens.len() as int) =~= f@.tokens);
        }
        out
    }

    /// The label of the statement at `stmt`.
    pub fn label(&self, stmt: StatementAddress) -> (r: String)
        requires
            stmt < self.statements@.len(),
        ensures
            r@ == self@.statements[stmt as int].label,
    {
        proof {
            assert(self@.statements[stmt as int] == self.statements@[stmt as int]@);
        }
        self.statements[stmt].label.clone()
    }

    /// The rendered hypotheses and conclusion of the statement at
    /// `stmt_addr`, for display as an inference.
    #[verifier::loop_isolation(false)]
    pub fn render_inference(&self, stmt_addr: StatementAddress) -> (r: (Vec<String>, String))
        requires
            self@.wf(),
            stmt_addr < self.statements@.len(),
        ensures
            ({
                let stmt = self@.statements[stmt_addr as int];
                &&& r.1@ == render_formula_spec(self@, stmt.formula)
                &&& r.0@.len() == stmt.frame.hypotheses.len()
                &&& forall|t: int| 0 <= t < stmt.frame.hypotheses.len() ==> (#[trigger] r.0@[t])@
                    == render_hyp_spec(self@, stmt.frame.hypotheses[t])
            }),
    {
        proof {
            assert(self@.statements[stmt_addr as int] == self.statements@[stmt_addr as int]@);
            assert(self@.statements[stmt_addr as int].wf(self@));
        }
        let stmt = &self.statements[stmt_addr];
        let ghost stmt_s = self@.statements[stmt_addr as int];
        let conclusion = self.render_formula(&stmt.formula);
        let mut hyps: Vec<String> = Vec::new();
        for t in 0..stmt.frame.hypotheses.len()
            invariant
                hyps@.len() == t,
                forall|u: int| 0 <= u < t ==> (#[trigger] hyps@[u])@ == render_hyp_spec(
                    self@,
                    stmt_s.frame.hypotheses[u],
                ),
        {
            proof {
                assert(stmt_s.frame.hypotheses[t as int] == stmt.frame.hypotheses@[t as int]@);
                assert(stmt_s.frame.hypotheses[t as int].wf(self@));
            }
            let rendered = match &stmt.frame.hypotheses[t] {
                Hypothesis::Floating { var, typecode } => {
                    let mut s = self.render_token(*typecode);
                    let vn = self.render_token(*var);
                    s.append(vn.as_str());
                    s
                },
                Hypothesis::Essential { formula } => self.render_formula(formula),
            };
            hyps.push(rendered);
        }
        (hyps, conclusion)
    }

    /// Does the whole knowledge base pass the well-formedness invariant?
    /// Callers that build a `Context` from outside data can test it once
    /// and refuse the corpus instead of running on a broken table.
    #[verifier::loop_isolation(false)]
    pub fn wf_check(&self) -> (r: bool)
        ensures
            r == self@.wf(),
    {
        let nstmts = self.statements.len();
        let nsyms = self.sym_names.len();
        proof {
            assert(self@.statements.len() == self.statements@.len());
            assert(self@.sym_names.len() == self.sym_names@.len());
        }
        for i in 0..nstmts
            invariant
                forall|t: int| 0 <= t < i ==> (#[trigger] self@.statements[t]).wf(self@),
        {
            proof {
                assert(self@.statements[i as int] == self.statements@[i as int]@);
            }
            let stmt = &self.statements[i];
            let ghost stmt_s = self@.statements[i as int];
            if !formula_wf_exec(self, &stmt.formula) {
                proof {
                    assert(!stmt_s.wf(self@));
                }
                return false;
            }
            for h in 0..stmt.frame.hypotheses.len()
                invariant
                    forall|u: int| 0 <= u < h ==> (#[trigger] stmt_s.frame.hypotheses[u]).wf(
                        self@,
                    ),
                    stmt_s == self@.statements[i as int],
                    stmt_s.formula.wf(self@),
            {
                proof {
                    assert(stmt_s.frame.hypotheses[h as int] == stmt.frame.hypotheses@[h as int]@);
                }
                let ok = match &stmt.frame.hypotheses[h] {
                    Hypothesis::Floating { var, typecode } => *var < nsyms as u64 && *typecode
                        < nsyms as u64,
                    Hypothesis::Essential { formula } => formula_wf_exec(self, formula),
                };
                if !ok {
                    proof {
                        assert(!stmt_s.frame.hypotheses[h as int].wf(self@));
                        assert(!stmt_s.wf(self@));
                    }
                    return false;
                }
            }
            for d in 0..stmt.deps.len()
                invariant
                    forall|u: int| 0 <= u < d ==> #[trigger] stmt_s.deps[u]
                        < self@.statements.len(),
                    stmt_s == self@.statements[i as int],
                    stmt_s.formula.wf(self@),
                    forall|u: int| 0 <= u < stmt_s.frame.hypotheses.len() ==> (
                    #[trigger] stmt_s.frame.hypotheses[u]).wf(self@),
            {
                if stmt.deps[d] >= nstmts {
                    proof {
                        assert(stmt_s.deps[d as int] == stmt.deps@[d as int]);
                        assert(!stmt_s.wf(self@));
                    }
                    return false;
                }
            }
            proof {
                assert(stmt_s.wf(self@));
            }
        }
        true
    }
}

impl State {
    /// The display text of every stack entry, bottom first.
    #[verifier::loop_isolation(false)]
    pub fn render_stack(&self, ctx: &Context) -> (r: Vec<String>)
        requires
            ctx@.wf(),
            self@.wf(ctx@),
        ensures
            r@.len() == self@.proof_stack.len(),
            forall|t: int| 0 <= t < self@.proof_stack.len() ==> (#[trigger] r@[t])@
                == render_formula_spec(ctx@, self@.proof_stack[t]),
    {
        let mut out: Vec<String> = Vec::new();
        for t in 0..self.proof_stack.len()
            invariant
                out@.len() == t,
                forall|u: int| 0 <= u < t ==> (#[trigger] out@[u])@ == render_formula_spec(
                    ctx@,
                    self@.proof_stack[u],
                ),
        {
            proof {
                assert(self@.proof_stack[t as int] == self.proof_stack@[t as int]@);
            }
            out.push(ctx.render_formula(&self.proof_stack[t]));
        }
        out
    }
}

} // verus!
