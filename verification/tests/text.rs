use bot_mc::text::lex_le_exec;

#[test]
fn lexicographic_order() {
    assert!(lex_le_exec("abc", "abd"));
    assert!(!lex_le_exec("abd", "abc"));
    assert!(lex_le_exec("abc", "abc"));
    assert!(lex_le_exec("ab", "abc"));
    assert!(!lex_le_exec("abc", "ab"));
    assert!(lex_le_exec("", "a"));
    assert!(lex_le_exec("Z", "a"));
}
