use rusty_cleaner::text::{compare_text, same_text, TextOrder};

#[test]
fn text_order_is_byte_order() {
    assert_eq!(compare_text("Java (Gradle)", "Java (Maven)"), TextOrder::Less);
    assert_eq!(compare_text("Rust", "Python"), TextOrder::Greater);
    assert_eq!(compare_text("Rust", "Rust"), TextOrder::Equal);
    assert_eq!(compare_text("", "a"), TextOrder::Less);
    assert_eq!(compare_text("ab", "a"), TextOrder::Greater);
    assert_eq!(compare_text("Z", "a"), TextOrder::Less);
    assert_eq!(compare_text(".env", "_build"), TextOrder::Less);
    assert_eq!(compare_text("é", "z"), TextOrder::Greater);
    let mut names = vec!["vendor", "Rust", ".env", "JavaScript", "Java (Maven)", "dist", "é"];
    names.sort();
    for w in names.windows(2) {
        assert_eq!(compare_text(w[0], w[1]), TextOrder::Less);
    }
}

#[test]
fn same_text_is_equality() {
    assert!(same_text("deps", "deps"));
    assert!(!same_text("deps", "dep"));
    assert!(!same_text("Deps", "deps"));
}
