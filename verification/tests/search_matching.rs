use tagged_store::search::{lower_char, matches_ci};

#[test]
fn empty_needle_matches_anything() {
    assert!(matches_ci("", ""));
    assert!(matches_ci("", "anything"));
}

#[test]
fn needle_longer_than_hay_never_matches() {
    assert!(!matches_ci("abc", "ab"));
}

#[test]
fn folding_covers_both_sides() {
    assert!(matches_ci("hello", "Hello World"));
    assert!(matches_ci("HELLO", "hello world"));
    assert!(matches_ci("WoRlD", "hello world"));
}

#[test]
fn substring_may_cross_a_word_boundary() {
    assert!(matches_ci("lo wo", "Hello World"));
    assert!(!matches_ci("low", "Hello World"));
}

#[test]
fn non_ascii_characters_compare_exactly() {
    assert!(matches_ci("naïve", "a naïve idea"));
    assert!(!matches_ci("xyz", "Hello"));
}

#[test]
fn lower_char_folds_only_ascii_uppercase() {
    assert_eq!(lower_char('A'), 'a');
    assert_eq!(lower_char('Z'), 'z');
    assert_eq!(lower_char('a'), 'a');
    assert_eq!(lower_char('0'), '0');
    assert_eq!(lower_char('é'), 'é');
}
