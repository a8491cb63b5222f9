//! Data model: tokens, formulas, hypotheses, frames, statements, the
//! knowledge base (`Context`) and the game state (`State`).

use vstd::prelude::*;

verus! {

/// Address of a statement: its index in the corpus, which is also its
/// position in corpus order.
pub type StatementAddress = usize;

/// One symbol of a formula. The payload indexes the `Context`'s symbol
/// table; the variant says whether a substitution may replace the symbol.
#[derive(Clone, Copy, PartialEq, Eq, Structural, Debug)]
pub enum Token {
    /// A constant symbol: substitution leaves it alone.
    Con(u64),
    /// A variable symbol: substitution may expand it to a token sequence.
    Var(u64),
}

/// Symbol table index of a token, whichever variant it is.
pub open spec fn tok_sym(t: Token) -> u64 {
    match t {
        Token::Con(s) => s,
        Token::Var(s) => s,
    }
}

/// A typed formula: a typecode (the sort it belongs to, a symbol table
/// index) followed by its tokens. Equality is syntactic.
#[derive(Clone, Debug, PartialEq, Eq)]
pub struct Formula {
    pub typecode: u64,
    pub tokens: Vec<Token>,
}

/// Mathematical value of a `Formula`.
#[verifier::ext_equal]
pub struct FormulaS {
    pub typecode: u64,
    pub tokens: Seq<Token>,
}

impl View for Formula {
    type V = FormulaS;

    open spec fn view(&self) -> FormulaS {
        FormulaS { typecode: self.typecode, tokens: self.tokens@ }
    }
}

/// Token-sequence equality with an exact contract.
pub fn tokens_eq(a: &Vec<Token>, b: &Vec<Token>) -> (r: bool)
    ensures
        r == (a@ == b@),
{
    if a.len() != b.len() {
        return false;
    }
    for i in 0..a.len()
        invariant
            a@.len() == b@.len(),
            forall|j: int| 0 <= j < i ==> a@[j] == b@[j],
    {
        if a[i] != b[i] {
            return false;
        }
    }
    proof {
        assert(a@ =~= b@);
    }
    true
}

/// Syntactic formula equality: same typecode and same token sequence.
pub fn formula_eq(a: &Formula, b: &Formula) -> (r: bool)
    ensures
        r == (a@ == b@),
{
    if a.typecode != b.typecode {
        return false;
    }
    let r = tokens_eq(&a.tokens, &b.tokens);
    proof {
        if a.tokens@ == b.tokens@ {
            assert(a@ =~= b@);
        }
    }
    r
}

/// Copy of a token vector with an exact contract, for use in verified code.
pub fn copy_tokens(v: &Vec<Token>) -> (r: Vec<Token>)
    ensures
        r@ == v@,
{
    let mut out: Vec<Token> = Vec::new();
    for i in 0..v.len()
        invariant
            out@ == v@.take(i as int),
    {
        out.push(v[i]);
        proof {
            assert(out@ =~= v@.take(i + 1));
        }
    }
    proof {
        assert(v@.take(v@.len() as int) =~= v@);
    }
    out
}

/// Copy of a formula with an exact contract, for use in verified code.
pub fn copy_formula(f: &Formula) -> (r: Formula)
    ensures
        r@ == f@,
{
    Formula { typecode: f.typecode, tokens: copy_tokens(&f.tokens) }
}

/// Copy of a formula vector with an exact contract.
pub fn copy_formulas(v: &Vec<Formula>) -> (r: Vec<Formula>)
    ensures
        fmls(r@) == fmls(v@),
        r@.len() == v@.len(),
{
    let mut out: Vec<Formula> = Vec::new();
    for i in 0..v.len()
        invariant
            out@.len() == i,
            fmls(out@) == fmls(v@).take(i as int),
    {
        out.push(copy_formula(&v[i]));
        proof {
            assert(fmls(out@) =~= fmls(v@).take(i + 1));
        }
    }
    proof {
        assert(fmls(v@).take(v@.len() as int) =~= fmls(v@));
    }
    out
}

/// One hypothesis of a frame.
#[derive(Clone, Debug, PartialEq, Eq)]
pub enum Hypothesis {
    /// Binds `var` to the tokens of whatever stack formula fills this slot,
    /// provided that formula's typecode equals `typecode`.
    Floating { var: u64, typecode: u64 },
    /// Requires the slot's formula to equal `formula` after the substitution
    /// gathered so far has been applied to it.
    Essential { formula: Formula },
}

/// Mathematical value of a `Hypothesis`.
#[verifier::ext_equal]
pub enum HypothesisS {
    Floating { var: u64, typecode: u64 },
    Essential { formula: FormulaS },
}

impl View for Hypothesis {
    type V = HypothesisS;

    open spec fn view(&self) -> HypothesisS {
        match self {
            Hypothesis::Floating { var, typecode } => HypothesisS::Floating {
                var: *var,
                typecode: *typecode,
            },
            Hypothesis::Essential { formula } => HypothesisS::Essential { formula: formula@ },
        }
    }
}

/// The hypothesis list and disjoint-variable requirements of a statement.
/// `disjoint` holds unordered pairs of variables that may never be
/// instantiated with overlapping variable content; `var_list` is the full
/// set of variables the statement mentions.
#[derive(Clone, Debug, PartialEq, Eq)]
pub struct Frame {
    pub hypotheses: Vec<Hypothesis>,
    pub disjoint: Vec<(u64, u64)>,
    pub var_list: Vec<u64>,
}

/// Mathematical value of a `Frame`.
#[verifier::ext_equal]
pub struct FrameS {
    pub hypotheses: Seq<HypothesisS>,
    pub disjoint: Seq<(u64, u64)>,
    pub var_list: Seq<u64>,
}

/// The abstract content of a formula vector.
pub open spec fn fmls(s: Seq<Formula>) -> Seq<FormulaS> {
    s.map_values(|f: Formula| f@)
}

/// The abstract content of a hypothesis vector.
pub open spec fn hyps_view(s: Seq<Hypothesis>) -> Seq<HypothesisS> {
    s.map_values(|h: Hypothesis| h@)
}

impl View for Frame {
    type V = FrameS;

    open spec fn view(&self) -> FrameS {
        FrameS {
            hypotheses: hyps_view(self.hypotheses@),
            disjoint: self.disjoint@,
            var_list: self.var_list@,
        }
    }
}

/// What role a statement plays in the corpus.
#[derive(Clone, Copy, PartialEq, Eq, Structural, Debug)]
pub enum StatementKind {
    Axiom,
    Provable,
    EssentialHyp,
    FloatingHyp,
}

/// One corpus entry: label, kind, typed formula, frame, and the ordered
/// list of statement addresses its own proof references (empty unless the
/// statement is provable and its proof is known).
#[derive(Clone, Debug, PartialEq, Eq)]
pub struct Statement {
    pub label: String,
    pub kind: StatementKind,
    pub formula: Formula,
    pub frame: Frame,
    pub deps: Vec<StatementAddress>,
}

/// Mathematical value of a `Statement`.
#[verifier::ext_equal]
pub struct StatementS {
    pub label: Seq<char>,
    pub kind: StatementKind,
    pub formula: FormulaS,
    pub frame: FrameS,
    pub deps: Seq<StatementAddress>,
}

impl View for Statement {
    type V = StatementS;

    open spec fn view(&self) -> StatementS {
        StatementS {
            label: self.label@,
            kind: self.kind,
            formula: self.formula@,
            frame: self.frame@,
            deps: self.deps@,
        }
    }
}

/// Immutable knowledge base: the corpus in address order, plus the display
/// name of each symbol (tokens and typecodes index into `sym_names`).
pub struct Context {
    pub statements: Vec<Statement>,
    pub sym_names: Vec<String>,
}

/// Mathematical value of a `Context`.
#[verifier::ext_equal]
pub struct ContextS {
    pub statements: Seq<StatementS>,
    pub sym_names: Seq<Seq<char>>,
}

/// The abstract content of a statement vector.
pub open spec fn stmts_view(s: Seq<Statement>) -> Seq<StatementS> {
    s.map_values(|t: Statement| t@)
}

/// The abstract content of a vector of names.
pub open spec fn strs_view(s: Seq<String>) -> Seq<Seq<char>> {
    s.map_values(|x: String| x@)
}

impl View for Context {
    type V = ContextS;

    open spec fn view(&self) -> ContextS {
        ContextS { statements: stmts_view(self.statements@), sym_names: strs_view(self.sym_names@) }
    }
}

/// The game state: the statement picked as the current goal, and the
/// working stack of formulas. Every operation returns a new value.
#[derive(Clone, Debug, PartialEq, Eq)]
pub struct State {
    /// Address of the statement representing the current level.
    pub current_level_stmt_addr: StatementAddress,
    pub proof_stack: Vec<Formula>,
}

/// Mathematical value of a `State`.
#[verifier::ext_equal]
pub struct StateS {
    pub current_level_stmt_addr: StatementAddress,
    pub proof_stack: Seq<FormulaS>,
}

impl View for State {
    type V = StateS;

    open spec fn view(&self) -> StateS {
        StateS {
            current_level_stmt_addr: self.current_level_stmt_addr,
            proof_stack: fmls(self.proof_stack@),
        }
    }
}

impl FormulaS {
    /// Every symbol the formula mentions has a name in the symbol table.
    pub open spec fn wf(self, c: ContextS) -> bool {
        &&& self.typecode < c.sym_names.len()
        &&& forall|i: int| 0 <= i < self.tokens.len() ==> tok_sym(#[trigger] self.tokens[i]) < c.sym_names.len()
    }
}

impl HypothesisS {
    pub open spec fn wf(self, c: ContextS) -> bool {
        match self {
            HypothesisS::Floating { var, typecode } => var < c.sym_names.len() && typecode < c.sym_names.len(),
            HypothesisS::Essential { formula } => formula.wf(c),
        }
    }
}

impl StatementS {
    pub open spec fn wf(self, c: ContextS) -> bool {
        &&& self.formula.wf(c)
        &&& forall|i: int| 0 <= i < self.frame.hypotheses.len() ==> (#[trigger] self.frame.hypotheses[i]).wf(c)
        &&& forall|i: int| 0 <= i < self.deps.len() ==> #[trigger] self.deps[i] < c.statements.len()
    }
}

impl ContextS {
    /// Well-formedness of the knowledge base: every statement's formula,
    /// hypotheses and dependencies stay inside the tables.
    pub open spec fn wf(self) -> bool {
        forall|i: int| 0 <= i < self.statements.len() ==> (#[trigger] self.statements[i]).wf(self)
    }
}

impl StateS {
    /// The goal address is a corpus address and every stack entry only
    /// mentions symbols the knowledge base names.
    pub open spec fn wf(self, c: ContextS) -> bool {
        &&& self.current_level_stmt_addr < c.statements.len()
        &&& forall|i: int| 0 <= i < self.proof_stack.len() ==> (#[trigger] self.proof_stack[i]).wf(c)
    }
}

} // verus!
