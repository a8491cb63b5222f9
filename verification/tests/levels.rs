use proof_stack::Context;
use proof_stack::Formula;
use proof_stack::Frame;
use proof_stack::State;
use proof_stack::Statement;
use proof_stack::StatementKind;
use proof_stack::Token;

fn names() -> Vec<String> {
    ["|-", "truth", "ok", "other", "wff"].iter().map(|s| s.to_string()).collect()
}

fn fml(tc: u64, toks: Vec<Token>) -> Formula {
    Formula { typecode: tc, tokens: toks }
}

fn empty_frame() -> Frame {
    Frame { hypotheses: vec![], disjoint: vec![], var_list: vec![] }
}

fn stmt(label: &str, kind: StatementKind, formula: Formula) -> Statement {
    Statement { label: label.to_string(), kind, formula, frame: empty_frame(), deps: vec![] }
}

// Corpus: axiom "a.truth", provable "t.one" (goal "|- truth"),
// provable "t.two" (goal "|- ok").
fn corpus() -> Context {
    let mut a = stmt("a.truth", StatementKind::Axiom, fml(0, vec![Token::Con(1)]));
    a.deps = vec![];
    let mut t1 = stmt("t.one", StatementKind::Provable, fml(0, vec![Token::Con(1)]));
    t1.deps = vec![0, 0];
    let t2 = stmt("t.two", StatementKind::Provable, fml(0, vec![Token::Con(2)]));
    Context { statements: vec![a, t1, t2], sym_names: names() }
}

#[test]
fn level_finished_requires_matching_top() {
    let ctx = corpus();
    assert!(ctx.wf_check());
    let empty = State { current_level_stmt_addr: 1, proof_stack: vec![] };
    assert!(!empty.level_finished(&ctx));
    let wrong = State {
        current_level_stmt_addr: 1,
        proof_stack: vec![fml(0, vec![Token::Con(2)])],
    };
    assert!(!wrong.level_finished(&ctx));
    let right = State {
        current_level_stmt_addr: 1,
        proof_stack: vec![fml(0, vec![Token::Con(2)]), fml(0, vec![Token::Con(1)])],
    };
    assert!(right.level_finished(&ctx));
}

#[test]
fn level_finished_compares_typecode_too() {
    let ctx = corpus();
    let st = State {
        current_level_stmt_addr: 1,
        proof_stack: vec![fml(4, vec![Token::Con(1)])],
    };
    assert!(!st.level_finished(&ctx));
}

#[test]
fn next_level_advances_to_next_provable_with_empty_stack() {
    let ctx = corpus();
    let st = State {
        current_level_stmt_addr: 1,
        proof_stack: vec![fml(0, vec![Token::Con(1)])],
    };
    let st2 = st.next_level(&ctx).expect("the level is finished");
    assert_eq!(st2.current_level_stmt_addr, 2);
    assert!(st2.proof_stack.is_empty());
    // repeating before re-finishing fails
    assert!(st2.next_level(&ctx).is_none());
}

#[test]
fn next_level_fails_before_the_level_is_finished() {
    let ctx = corpus();
    let st = State { current_level_stmt_addr: 1, proof_stack: vec![] };
    assert!(st.next_level(&ctx).is_none());
}

#[test]
fn initial_state_finds_first_provable() {
    let ctx = corpus();
    let st = ctx.initial_state(None).expect("the corpus has provable statements");
    assert_eq!(st.current_level_stmt_addr, 1);
    assert!(st.proof_stack.is_empty());
}

#[test]
fn initial_state_finds_a_named_level() {
    let ctx = corpus();
    let st = ctx.initial_state(Some("t.two")).expect("the label exists");
    assert_eq!(st.current_level_stmt_addr, 2);
    assert!(st.proof_stack.is_empty());
}

#[test]
fn initial_state_fails_on_absent_label() {
    let ctx = corpus();
    assert!(ctx.initial_state(Some("no.such")).is_none());
}

#[test]
fn initial_state_fails_without_provable_statements() {
    let a = stmt("a.truth", StatementKind::Axiom, fml(0, vec![Token::Con(1)]));
    let ctx = Context { statements: vec![a], sym_names: names() };
    assert!(ctx.initial_state(None).is_none());
}

#[test]
fn deps_are_ordered_and_duplicate_free() {
    let mut ctx = corpus();
    ctx.statements[1].deps = vec![2, 0, 2, 0, 1];
    assert_eq!(ctx.deps(1), vec![2, 0, 1]);
}

#[test]
fn buttons_pair_each_dependency_with_its_push_result() {
    let ctx = corpus();
    let st = State { current_level_stmt_addr: 1, proof_stack: vec![] };
    let buttons = st.buttons(&ctx);
    // t.one's proof references the axiom twice: one button, and its
    // result is the axiom pushed onto the empty stack.
    assert_eq!(buttons.len(), 1);
    assert_eq!(buttons[0].0, 0);
    let pushed = buttons[0].1.as_ref().expect("the axiom applies to the empty stack");
    assert_eq!(pushed.proof_stack, vec![fml(0, vec![Token::Con(1)])]);
    // an inapplicable step is kept as a failure, never hidden
    let mut ctx2 = corpus();
    let needs = Statement {
        label: "t.need".to_string(),
        kind: StatementKind::Provable,
        formula: fml(0, vec![Token::Con(2)]),
        frame: Frame {
            hypotheses: vec![proof_stack::Hypothesis::Essential {
                formula: fml(0, vec![Token::Con(3)]),
            }],
            disjoint: vec![],
            var_list: vec![],
        },
        deps: vec![],
    };
    ctx2.statements.push(needs);
    ctx2.statements[1].deps = vec![3];
    let buttons2 = st.buttons(&ctx2);
    assert_eq!(buttons2.len(), 1);
    assert_eq!(buttons2[0].0, 3);
    assert!(buttons2[0].1.is_none());
}
