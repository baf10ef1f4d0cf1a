use ledger_core::text::same_text;

#[test]
fn texts_are_the_same_character_by_character() {
    assert!(same_text("", ""));
    assert!(same_text("asset", "asset"));
    assert!(!same_text("asset", "assets"));
    assert!(!same_text("asset", "asseT"));
    assert!(!same_text("", "a"));
    assert!(same_text("gr\u{fc}n", "gr\u{fc}n"));
    assert!(!same_text("gr\u{fc}n", "grun"));
}
