use proof_stack::Formula;
use proof_stack::State;
use proof_stack::Token;

fn fml(tc: u64, toks: Vec<Token>) -> Formula {
    Formula { typecode: tc, tokens: toks }
}

fn two_stack() -> State {
    State {
        current_level_stmt_addr: 0,
        proof_stack: vec![fml(0, vec![Token::Con(1)]), fml(0, vec![Token::Con(2)])],
    }
}

#[test]
fn delete_out_of_range_leaves_stack_unchanged() {
    // Scenario: a 2-element stack; delete(5) fails and the state is
    // unchanged by identity comparison.
    let st = two_stack();
    let before = st.clone();
    assert!(st.stack_delete(5).is_none());
    assert_eq!(st.proof_stack.len(), 2);
    assert_eq!(st, before);
}

#[test]
fn delete_removes_the_entry() {
    let st = two_stack();
    let st2 = st.stack_delete(0).unwrap();
    assert_eq!(st2.proof_stack, vec![fml(0, vec![Token::Con(2)])]);
}

#[test]
fn swap_exchanges_entries() {
    let st = two_stack();
    let st2 = st.stack_swap(0, 1).unwrap();
    assert_eq!(
        st2.proof_stack,
        vec![fml(0, vec![Token::Con(2)]), fml(0, vec![Token::Con(1)])]
    );
}

#[test]
fn swap_is_its_own_inverse() {
    let st = two_stack();
    let st2 = st.stack_swap(0, 1).unwrap().stack_swap(0, 1).unwrap();
    assert_eq!(st2, st);
}

#[test]
fn swap_out_of_range_fails() {
    let st = two_stack();
    assert!(st.stack_swap(0, 2).is_none());
    assert!(st.stack_swap(7, 0).is_none());
}

#[test]
fn copy_duplicates_before_the_entry() {
    let st = two_stack();
    let st2 = st.stack_copy(1).unwrap();
    assert_eq!(
        st2.proof_stack,
        vec![
            fml(0, vec![Token::Con(1)]),
            fml(0, vec![Token::Con(2)]),
            fml(0, vec![Token::Con(2)])
        ]
    );
}

#[test]
fn copy_then_delete_restores_the_stack() {
    let st = two_stack();
    for i in 0..2 {
        let st2 = st.stack_copy(i).unwrap().stack_delete(i).unwrap();
        assert_eq!(st2, st);
    }
}

#[test]
fn copy_out_of_range_fails() {
    let st = two_stack();
    assert!(st.stack_copy(2).is_none());
}

#[test]
fn move_reorders_entries() {
    let st = two_stack();
    let st2 = st.stack_move(0, 1).unwrap();
    assert_eq!(
        st2.proof_stack,
        vec![fml(0, vec![Token::Con(2)]), fml(0, vec![Token::Con(1)])]
    );
}

#[test]
fn move_out_of_range_fails() {
    let st = two_stack();
    assert!(st.stack_move(2, 0).is_none());
    assert!(st.stack_move(0, 2).is_none());
}

#[test]
fn edits_do_not_touch_the_original() {
    let st = two_stack();
    let before = st.clone();
    let _ = st.stack_swap(0, 1);
    let _ = st.stack_copy(0);
    let _ = st.stack_delete(1);
    let _ = st.stack_move(1, 0);
    assert_eq!(st, before);
}
