use storehouse_core::parser::needs_continuation;

#[test]
fn trailing_commas_and_open_brackets_continue() {
    assert!(needs_continuation("attribute :name, "));
    assert!(needs_continuation("command \"Add\", given: ["));
    assert!(needs_continuation("f(a, (b)"));
    assert!(!needs_continuation("f(a)"));
    assert!(!needs_continuation("x = \"(\""));
    assert!(needs_continuation("x = \"\\\"(\" + ("));
    assert!(!needs_continuation("plain line"));
}
