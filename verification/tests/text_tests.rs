use kiro_rs::text::{chars_of, text_contains, text_eq, text_starts_with, u64_to_decimal};

#[test]
fn contains_finds_substrings() {
    assert!(text_contains("image/png", "image"));
    assert!(text_contains("abc", ""));
    assert!(!text_contains("ab", "abc"));
    assert!(text_contains("héllo wörld", "ö"));
}

#[test]
fn starts_with_and_eq() {
    assert!(text_starts_with("Bearer x", "Bearer "));
    assert!(!text_starts_with("Bear", "Bearer "));
    assert!(text_eq("a", "a"));
    assert!(!text_eq("a", "b"));
}

#[test]
fn decimal_text_of_integers() {
    assert_eq!(u64_to_decimal(0), "0");
    assert_eq!(u64_to_decimal(42), "42");
    assert_eq!(u64_to_decimal(u64::MAX), u64::MAX.to_string());
}

#[test]
fn chars_in_order() {
    assert_eq!(chars_of("añb"), vec!['a', 'ñ', 'b']);
}
