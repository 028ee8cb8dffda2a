use codevault::ansi::{strip_ansi_codes, visible_width};

#[test]
fn visible_width_of_colored_pair() {
    assert_eq!(visible_width("\x1b[31mhi\x1b[0m"), 2);
}

#[test]
fn plain_text_keeps_its_length() {
    assert_eq!(strip_ansi_codes("hello"), "hello");
    assert_eq!(visible_width("hello"), 5);
    assert_eq!(visible_width(""), 0);
}

#[test]
fn adjacent_escapes_are_both_removed() {
    assert_eq!(strip_ansi_codes("\x1b[31m\x1b[1mhi"), "hi");
    assert_eq!(visible_width("\x1b[31m\x1b[1mhi"), 2);
}

#[test]
fn multibyte_characters_count_once() {
    assert_eq!(visible_width("h\u{e9}llo w\u{f6}rld"), 11);
    assert_eq!(visible_width("\x1b[35;1m\u{e9}\u{e9}\x1b[0m"), 2);
}

#[test]
fn incomplete_sequence_is_kept() {
    assert_eq!(strip_ansi_codes("\x1b[31"), "\x1b[31");
    assert_eq!(visible_width("\x1b[31"), 4);
    assert_eq!(visible_width("\x1b"), 1);
    assert_eq!(visible_width("\x1b["), 2);
}

#[test]
fn escape_without_bracket_is_kept() {
    assert_eq!(strip_ansi_codes("\x1bxm"), "\x1bxm");
}

#[test]
fn parameters_with_semicolons_are_removed() {
    assert_eq!(strip_ansi_codes("\x1b[38;5;201;1mX\x1b[0m"), "X");
}

#[test]
fn agrees_with_the_usual_pattern() {
    let re = regex::Regex::new(r"\x1B\[[0-9;]*[a-zA-Z]").unwrap();
    let cases = [
        "",
        "plain",
        "\x1b[31mhi\x1b[0m",
        "\x1b[31",
        "\x1b[\x1b[31m",
        "a\x1b[1;33mb\x1b[0mc",
        "\x1b\x1b[31m",
        "\x1b[m",
        "tail\x1b",
        "\x1b[38;2;10;20;30mrgb\x1b[0m",
    ];
    for case in cases {
        assert_eq!(
            strip_ansi_codes(case),
            re.replace_all(case, "").to_string(),
            "mismatch on {:?}",
            case
        );
    }
}
