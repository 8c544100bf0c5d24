use grocery_list::text::{
    chars_of, concat2, concat3, contains_text, lowercase_chars, str_eq, str_eq_ignore_ascii_case,
    str_is_blank, str_starts_with, str_strip_prefix,
};

#[test]
fn prefix_tests() {
    assert!(str_starts_with("/open Dairy", "/open "));
    assert!(str_starts_with("abc", ""));
    assert!(!str_starts_with("ab", "abc"));
    assert_eq!(str_strip_prefix("/open Dairy", "/open "), Some("Dairy"));
    assert_eq!(str_strip_prefix("/opened", "/open "), None);
}

#[test]
fn equality_tests() {
    assert!(str_eq("Milk", "Milk"));
    assert!(!str_eq("Milk", "milk"));
    assert!(str_eq_ignore_ascii_case("MiLk", "mIlK"));
    assert!(!str_eq_ignore_ascii_case("Milk", "Milks"));
    // only ASCII letters fold
    assert!(!str_eq_ignore_ascii_case("É", "é"));
    assert!(!str_eq_ignore_ascii_case("[", "{"));
}

#[test]
fn blank_and_case_tests() {
    assert!(str_is_blank(""));
    assert!(str_is_blank(" \t\n\u{a0}\u{2003}"));
    assert!(!str_is_blank(" x "));
    assert_eq!(lowercase_chars("ÄbC"), vec!['ä', 'b', 'c']);
    assert_eq!(chars_of("hé"), vec!['h', 'é']);
}

#[test]
fn concat_and_contains_tests() {
    assert_eq!(concat2("ab", "cd"), "abcd");
    assert_eq!(concat3("a", "", "c"), "ac");
    let v = vec!["x".to_string(), "y".to_string()];
    assert!(contains_text(&v, "y"));
    assert!(!contains_text(&v, "Y"));
}
