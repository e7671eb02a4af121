use forgepulse_server::text::{
    ascii_lower_chars, concat_str, contains_chars, decimal_string, split_chars, str_compare, str_equal,
    string_of, trim_chars,
};

fn chars(s: &str) -> Vec<char> {
    s.chars().collect()
}

#[test]
fn strings_are_rebuilt_from_their_characters() {
    assert_eq!(string_of(&chars("carlok/ałpha")), "carlok/ałpha");
    assert_eq!(string_of(&[]), "");
}

#[test]
fn comparison_follows_code_points() {
    assert_eq!(str_compare("a", "b"), -1);
    assert_eq!(str_compare("b", "a"), 1);
    assert_eq!(str_compare("ab", "a"), 1);
    assert_eq!(str_compare("", ""), 0);
    assert_eq!(str_compare("Z", "a"), -1);
    assert!(str_equal("carlok/a", "carlok/a"));
    assert!(!str_equal("carlok/a", "carlok/b"));
}

#[test]
fn trimming_removes_unicode_white_space_at_both_ends() {
    assert_eq!(trim_chars(&chars("\t alpha beta \u{3000}\n")), chars("alpha beta"));
    assert!(trim_chars(&chars("   ")).is_empty());
}

#[test]
fn splitting_keeps_empty_pieces() {
    let pieces = split_chars(&chars("a,,b,"), ',');
    assert_eq!(pieces, vec![chars("a"), chars(""), chars("b"), chars("")]);
}

#[test]
fn lowering_and_searching() {
    assert_eq!(ascii_lower_chars(&chars("Actions/Checkout@V4")), chars("actions/checkout@v4"));
    assert!(contains_chars(&chars("uses actions/checkout@v4"), &chars("actions/checkout")));
    assert!(!contains_chars(&chars("actions/cache"), &chars("actions/checkout")));
    assert!(contains_chars(&chars("x"), &chars("")));
}

#[test]
fn integers_are_written_as_display_writes_them() {
    for n in [0, 7, 10, 99, 100, 1234567890, -1, -10, -305, i64::MAX, i64::MIN] {
        assert_eq!(decimal_string(n), n.to_string());
    }
}

#[test]
fn strings_are_joined_in_order() {
    assert_eq!(concat_str("carlok", "/alpha"), "carlok/alpha");
    assert_eq!(concat_str("", ""), "");
}
