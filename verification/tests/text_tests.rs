use codevault::text::{contains_str, parse_u32, spaces, split_and_trim, trim_spaces, u32_to_string};

#[test]
fn splitting_trims_each_piece() {
    assert_eq!(split_and_trim("a, b ,c"), vec!["a", "b", "c"]);
    assert_eq!(split_and_trim("one"), vec!["one"]);
    assert_eq!(split_and_trim(""), vec![""]);
    assert_eq!(split_and_trim("a,,b"), vec!["a", "", "b"]);
    assert_eq!(split_and_trim(" spaced out , x"), vec!["spaced out", "x"]);
}

#[test]
fn trimming_strips_both_ends_only() {
    assert_eq!(trim_spaces("  a b  "), "a b");
    assert_eq!(trim_spaces("\t\nx\r\n"), "x");
    assert_eq!(trim_spaces("   "), "");
    assert_eq!(trim_spaces(""), "");
    assert_eq!(trim_spaces("plain"), "plain");
}

#[test]
fn numbers_render_in_decimal() {
    assert_eq!(u32_to_string(0), "0");
    assert_eq!(u32_to_string(7), "7");
    assert_eq!(u32_to_string(305), "305");
    assert_eq!(u32_to_string(u32::MAX), "4294967295");
}

#[test]
fn parsing_accepts_exactly_in_range_decimals() {
    assert_eq!(parse_u32("0"), Some(0));
    assert_eq!(parse_u32("305"), Some(305));
    assert_eq!(parse_u32("+12"), Some(12));
    assert_eq!(parse_u32("4294967295"), Some(u32::MAX));
    assert_eq!(parse_u32("4294967296"), None);
    assert_eq!(parse_u32(""), None);
    assert_eq!(parse_u32("+"), None);
    assert_eq!(parse_u32("-1"), None);
    assert_eq!(parse_u32("1 2"), None);
    assert_eq!(parse_u32("0x10"), None);
}

#[test]
fn substring_search_finds_inner_pieces() {
    assert!(contains_str("hello world", "lo wo"));
    assert!(contains_str("abc", ""));
    assert!(contains_str("abc", "abc"));
    assert!(!contains_str("abc", "abcd"));
    assert!(!contains_str("abc", "ac"));
    assert!(contains_str("na\u{ef}ve", "\u{ef}v"));
}

#[test]
fn spaces_make_a_run_of_blanks() {
    assert_eq!(spaces(0), "");
    assert_eq!(spaces(3), "   ");
}
