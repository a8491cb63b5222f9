use proof_stack::Context;
use proof_stack::Formula;
use proof_stack::Frame;
use proof_stack::Hypothesis;
use proof_stack::State;
use proof_stack::Statement;
use proof_stack::StatementKind;
use proof_stack::Token;

// Symbol table used throughout: 0 "|-", 1 "truth", 2 "ok", 3 "other",
// 4 "wff", 5 "set", 6 "ph", 7 "ps", 8 "u", 9 "v"
fn names() -> Vec<String> {
    ["|-", "truth", "ok", "other", "wff", "set", "ph", "ps", "u", "v"]
        .iter()
        .map(|s| s.to_string())
        .collect()
}

fn fml(tc: u64, toks: Vec<Token>) -> Formula {
    Formula { typecode: tc, tokens: toks }
}

fn empty_frame() -> Frame {
    Frame { hypotheses: vec![], disjoint: vec![], var_list: vec![] }
}

fn stmt(label: &str, kind: StatementKind, formula: Formula, frame: Frame) -> Statement {
    Statement { label: label.to_string(), kind, formula, frame, deps: vec![] }
}

fn state(addr: usize, stack: Vec<Formula>) -> State {
    State { current_level_stmt_addr: addr, proof_stack: stack }
}

#[test]
fn axiom_without_hypotheses_pushes_conclusion() {
    // Scenario: axiom A with no hypotheses and conclusion "|- truth";
    // level = A, stack = []; push(A) puts "|- truth" on the stack and
    // finishes the level, since the goal is that same formula.
    let a = stmt(
        "a.truth",
        StatementKind::Axiom,
        fml(0, vec![Token::Con(1)]),
        empty_frame(),
    );
    let ctx = Context { statements: vec![a], sym_names: names() };
    assert!(ctx.wf_check());
    let st = state(0, vec![]);
    let st2 = st.push(&ctx, 0).expect("a step without hypotheses applies");
    assert_eq!(st2.proof_stack, vec![fml(0, vec![Token::Con(1)])]);
    assert!(st2.level_finished(&ctx));
}

#[test]
fn essential_hypothesis_mismatch_fails() {
    // Scenario: theorem T requires "|- truth" but the stack holds
    // "|- other"; push(T) fails.
    let t = stmt(
        "t.ok",
        StatementKind::Provable,
        fml(0, vec![Token::Con(2)]),
        Frame {
            hypotheses: vec![Hypothesis::Essential { formula: fml(0, vec![Token::Con(1)]) }],
            disjoint: vec![],
            var_list: vec![],
        },
    );
    let ctx = Context { statements: vec![t], sym_names: names() };
    assert!(ctx.wf_check());
    let st = state(0, vec![fml(0, vec![Token::Con(3)])]);
    assert!(st.push(&ctx, 0).is_none());
}

#[test]
fn floating_typecode_mismatch_fails_without_mutation() {
    // Scenario: a floating hypothesis requires typecode "wff" but the
    // stack top's typecode is "set"; push fails and the stack stays as
    // it was.
    let a = stmt(
        "a.id",
        StatementKind::Axiom,
        fml(0, vec![Token::Var(6)]),
        Frame {
            hypotheses: vec![Hypothesis::Floating { var: 6, typecode: 4 }],
            disjoint: vec![],
            var_list: vec![6],
        },
    );
    let ctx = Context { statements: vec![a], sym_names: names() };
    assert!(ctx.wf_check());
    let st = state(0, vec![fml(5, vec![Token::Con(1)])]);
    let before = st.clone();
    assert!(st.push(&ctx, 0).is_none());
    assert_eq!(st, before);
}

#[test]
fn hypothesis_statement_is_appended_as_is() {
    // Pushing an essential-hypothesis statement appends its formula
    // unconditionally.
    let h = stmt(
        "h.given",
        StatementKind::EssentialHyp,
        fml(0, vec![Token::Con(1)]),
        empty_frame(),
    );
    let ctx = Context { statements: vec![h], sym_names: names() };
    assert!(ctx.wf_check());
    let st = state(0, vec![fml(0, vec![Token::Con(3)])]);
    let st2 = st.push(&ctx, 0).expect("a hypothesis statement always applies");
    assert_eq!(
        st2.proof_stack,
        vec![fml(0, vec![Token::Con(3)]), fml(0, vec![Token::Con(1)])]
    );
}

#[test]
fn substitution_is_computed_and_applied() {
    // A step with one floating and one essential hypothesis: "wff ph"
    // and "|- ph", concluding "|- ph ok". With "|- truth" under
    // "wff truth" on the stack, ph is bound to "truth" and the
    // conclusion becomes "|- truth ok", replacing both entries.
    let s = stmt(
        "s.step",
        StatementKind::Axiom,
        fml(0, vec![Token::Var(6), Token::Con(2)]),
        Frame {
            hypotheses: vec![
                Hypothesis::Floating { var: 6, typecode: 4 },
                Hypothesis::Essential { formula: fml(0, vec![Token::Var(6)]) },
            ],
            disjoint: vec![],
            var_list: vec![6],
        },
    );
    let ctx = Context { statements: vec![s], sym_names: names() };
    assert!(ctx.wf_check());
    let st = state(
        0,
        vec![fml(0, vec![Token::Con(1)]), fml(4, vec![Token::Con(1)])],
    );
    let st2 = st.push(&ctx, 0).expect("the step unifies against the stack");
    assert_eq!(st2.proof_stack, vec![fml(0, vec![Token::Con(1), Token::Con(2)])]);
}

#[test]
fn unbound_step_variable_fails() {
    // The step mentions ps in its variable list but nothing binds it:
    // the candidate is rejected.
    let s = stmt(
        "s.step",
        StatementKind::Axiom,
        fml(0, vec![Token::Var(6), Token::Var(7)]),
        Frame {
            hypotheses: vec![Hypothesis::Floating { var: 6, typecode: 4 }],
            disjoint: vec![],
            var_list: vec![6, 7],
        },
    );
    let ctx = Context { statements: vec![s], sym_names: names() };
    assert!(ctx.wf_check());
    let st = state(0, vec![fml(4, vec![Token::Con(1)])]);
    assert!(st.push(&ctx, 0).is_none());
}

#[test]
fn push_is_deterministic() {
    let s = stmt(
        "s.step",
        StatementKind::Axiom,
        fml(0, vec![Token::Var(6), Token::Con(2)]),
        Frame {
            hypotheses: vec![
                Hypothesis::Floating { var: 6, typecode: 4 },
                Hypothesis::Essential { formula: fml(0, vec![Token::Var(6)]) },
            ],
            disjoint: vec![],
            var_list: vec![6],
        },
    );
    let ctx = Context { statements: vec![s], sym_names: names() };
    let st = state(
        0,
        vec![fml(0, vec![Token::Con(1)]), fml(4, vec![Token::Con(1)])],
    );
    let first = st.push(&ctx, 0);
    let second = st.push(&ctx, 0);
    assert_eq!(first, second);
}

#[test]
fn disjoint_violation_same_variable_fails() {
    // Both step variables end up holding the same variable "u": the
    // step's disjointness pair (ph, ps) rejects the candidate.
    let s = stmt(
        "s.two",
        StatementKind::Axiom,
        fml(0, vec![Token::Var(6), Token::Var(7)]),
        Frame {
            hypotheses: vec![
                Hypothesis::Floating { var: 6, typecode: 4 },
                Hypothesis::Floating { var: 7, typecode: 4 },
            ],
            disjoint: vec![(6, 7)],
            var_list: vec![6, 7],
        },
    );
    let level = stmt(
        "lvl",
        StatementKind::Provable,
        fml(0, vec![Token::Con(1)]),
        Frame { hypotheses: vec![], disjoint: vec![(8, 9)], var_list: vec![] },
    );
    let ctx = Context { statements: vec![s, level], sym_names: names() };
    assert!(ctx.wf_check());
    let st = state(
        1,
        vec![fml(4, vec![Token::Var(8)]), fml(4, vec![Token::Var(8)])],
    );
    assert!(st.push(&ctx, 0).is_none());
}

#[test]
fn disjoint_pair_honoured_when_level_declares_it() {
    // Distinct variables "u" and "v", declared disjoint by the level's
    // own context: the candidate is accepted.
    let s = stmt(
        "s.two",
        StatementKind::Axiom,
        fml(0, vec![Token::Var(6), Token::Var(7)]),
        Frame {
            hypotheses: vec![
                Hypothesis::Floating { var: 6, typecode: 4 },
                Hypothesis::Floating { var: 7, typecode: 4 },
            ],
            disjoint: vec![(6, 7)],
            var_list: vec![6, 7],
        },
    );
    let level = stmt(
        "lvl",
        StatementKind::Provable,
        fml(0, vec![Token::Con(1)]),
        Frame { hypotheses: vec![], disjoint: vec![(9, 8)], var_list: vec![] },
    );
    let ctx = Context { statements: vec![s, level], sym_names: names() };
    assert!(ctx.wf_check());
    let st = state(
        1,
        vec![fml(4, vec![Token::Var(8)]), fml(4, vec![Token::Var(9)])],
    );
    let st2 = st.push(&ctx, 0).expect("the level declares the pair disjoint");
    assert_eq!(st2.proof_stack.len(), 1);
    // ph was bound against the lower entry, ps against the top one
    assert_eq!(
        st2.proof_stack[0],
        fml(0, vec![Token::Var(8), Token::Var(9)])
    );
}

#[test]
fn disjoint_pair_missing_from_level_fails() {
    // The same distinct variables, but the level declares no pairs:
    // rejected.
    let s = stmt(
        "s.two",
        StatementKind::Axiom,
        fml(0, vec![Token::Var(6), Token::Var(7)]),
        Frame {
            hypotheses: vec![
                Hypothesis::Floating { var: 6, typecode: 4 },
                Hypothesis::Floating { var: 7, typecode: 4 },
            ],
            disjoint: vec![(6, 7)],
            var_list: vec![6, 7],
        },
    );
    let level = stmt(
        "lvl",
        StatementKind::Provable,
        fml(0, vec![Token::Con(1)]),
        empty_frame(),
    );
    let ctx = Context { statements: vec![s, level], sym_names: names() };
    let st = state(
        1,
        vec![fml(4, vec![Token::Var(8)]), fml(4, vec![Token::Var(9)])],
    );
    assert!(st.push(&ctx, 0).is_none());
}

#[test]
fn first_candidate_in_enumeration_order_wins() {
    // Two floating hypotheses of the same typecode are both valid
    // alignments; the declared hypothesis order is tried first, so ph
    // is bound against the lower entry and the conclusion shows it.
    let s = stmt(
        "s.amb",
        StatementKind::Axiom,
        fml(0, vec![Token::Var(6)]),
        Frame {
            hypotheses: vec![
                Hypothesis::Floating { var: 6, typecode: 4 },
                Hypothesis::Floating { var: 7, typecode: 4 },
            ],
            disjoint: vec![],
            var_list: vec![6, 7],
        },
    );
    let ctx = Context { statements: vec![s], sym_names: names() };
    let st = state(
        0,
        vec![fml(4, vec![Token::Con(1)]), fml(4, vec![Token::Con(2)])],
    );
    let st2 = st.push(&ctx, 0).expect("both orderings align; the first wins");
    assert_eq!(st2.proof_stack, vec![fml(0, vec![Token::Con(1)])]);
}

#[test]
fn pop_count_stays_within_stack_depth() {
    // A two-hypothesis step over a one-entry stack can pop at most one
    // entry; with an essential hypothesis left unmatched it must fail
    // rather than pop more than the stack holds.
    let s = stmt(
        "s.step",
        StatementKind::Axiom,
        fml(0, vec![Token::Con(2)]),
        Frame {
            hypotheses: vec![
                Hypothesis::Essential { formula: fml(0, vec![Token::Con(1)]) },
                Hypothesis::Essential { formula: fml(0, vec![Token::Con(3)]) },
            ],
            disjoint: vec![],
            var_list: vec![],
        },
    );
    let ctx = Context { statements: vec![s], sym_names: names() };
    let st = state(0, vec![fml(0, vec![Token::Con(1)])]);
    assert!(st.push(&ctx, 0).is_none());
}

#[test]
fn empty_stack_fails_steps_with_hypotheses() {
    let s = stmt(
        "s.step",
        StatementKind::Axiom,
        fml(0, vec![Token::Con(2)]),
        Frame {
            hypotheses: vec![Hypothesis::Essential { formula: fml(0, vec![Token::Con(1)]) }],
            disjoint: vec![],
            var_list: vec![],
        },
    );
    let ctx = Context { statements: vec![s], sym_names: names() };
    let st = state(0, vec![]);
    assert!(st.push(&ctx, 0).is_none());
}
