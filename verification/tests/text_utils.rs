use nexus::text_utils::truncate;

#[test]
fn test_truncate_short() {
    assert_eq!(truncate("hello", 10), "hello");
}

#[test]
fn test_truncate_exact() {
    assert_eq!(truncate("hello", 5), "hello");
}

#[test]
fn test_truncate_long() {
    let result = truncate("hello world", 5);
    assert_eq!(result, "hello...");
}

#[test]
fn test_truncate_multibyte() {
    let s = "Hello \u{1F600} world";
    let result = truncate(s, 8);
    assert!(result.ends_with("..."));
    assert_eq!(result, "Hello ...");
}

#[test]
fn test_truncate_empty() {
    assert_eq!(truncate("", 5), "");
}

#[test]
fn test_truncate_zero_max() {
    assert_eq!(truncate("hello", 0), "...");
}

#[test]
fn truncate_never_splits_a_character() {
    // "é" takes two bytes: a budget of 2 keeps "a" only.
    assert_eq!(truncate("aéb", 2), "a...");
    assert_eq!(truncate("aéb", 3), "aé...");
}
