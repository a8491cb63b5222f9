use proof_stack::Context;
use proof_stack::Formula;
use proof_stack::Frame;
use proof_stack::Hypothesis;
use proof_stack::State;
use proof_stack::Statement;
use proof_stack::StatementKind;
use proof_stack::Token;
use proof_stack::from_utf8;

fn names() -> Vec<String> {
    ["|- ", "truth ", "ok ", "wff ", "ph "].iter().map(|s| s.to_string()).collect()
}

fn fml(tc: u64, toks: Vec<Token>) -> Formula {
    Formula { typecode: tc, tokens: toks }
}

fn corpus() -> Context {
    let a = Statement {
        label: "a.step".to_string(),
        kind: StatementKind::Axiom,
        formula: fml(0, vec![Token::Var(4), Token::Con(2)]),
        frame: Frame {
            hypotheses: vec![
                Hypothesis::Floating { var: 4, typecode: 3 },
                Hypothesis::Essential { formula: fml(0, vec![Token::Var(4)]) },
            ],
            disjoint: vec![],
            var_list: vec![4],
        },
        deps: vec![],
    };
    Context { statements: vec![a], sym_names: names() }
}

#[test]
fn label_returns_the_statement_label() {
    let ctx = corpus();
    assert_eq!(ctx.label(0), "a.step");
}

#[test]
fn render_inference_shows_hypotheses_and_conclusion() {
    let ctx = corpus();
    assert!(ctx.wf_check());
    let (hyps, conclusion) = ctx.render_inference(0);
    assert_eq!(conclusion, "|- ph ok ");
    assert_eq!(hyps, vec!["wff ph ".to_string(), "|- ph ".to_string()]);
}

#[test]
fn render_stack_renders_each_entry_in_order() {
    let ctx = corpus();
    let st = State {
        current_level_stmt_addr: 0,
        proof_stack: vec![fml(3, vec![Token::Con(1)]), fml(0, vec![Token::Con(1)])],
    };
    assert_eq!(
        st.render_stack(&ctx),
        vec!["wff truth ".to_string(), "|- truth ".to_string()]
    );
}

#[test]
fn render_formula_concatenates_symbol_names() {
    let ctx = corpus();
    let f = fml(0, vec![Token::Con(1), Token::Con(2)]);
    assert_eq!(ctx.render_formula(&f), "|- truth ok ");
}

#[test]
fn from_utf8_decodes_valid_bytes() {
    assert_eq!(from_utf8(b"a.step"), Some("a.step".to_string()));
    let turnstile = "\u{22a2} truth";
    assert_eq!(from_utf8(turnstile.as_bytes()), Some(turnstile.to_string()));
}

#[test]
fn from_utf8_rejects_invalid_bytes() {
    assert_eq!(from_utf8(&[0xff, 0xfe]), None);
    assert_eq!(from_utf8(&[0xe2, 0x8a]), None);
}

#[test]
fn from_utf8_of_empty_input_is_empty() {
    assert_eq!(from_utf8(&[]), Some(String::new()));
}

#[test]
fn wf_check_rejects_a_broken_symbol_reference() {
    let mut ctx = corpus();
    assert!(ctx.wf_check());
    ctx.statements[0].formula.tokens.push(Token::Con(99));
    assert!(!ctx.wf_check());
}
