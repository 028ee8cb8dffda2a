use codevault::ansi::{strip_ansi_codes, visible_width};
use codevault::render::{format_with_border, render_snippet, render_snippet_summary, split_lines};
use codevault::snippet::Snippet;

fn sample(language: Option<&str>) -> Snippet {
    Snippet {
        tag: "demo".to_string(),
        description: Some("a short description".to_string()),
        code: "fn main() {\n    println!(\"hello\");\n}".to_string(),
        timestamp: "2024-01-01 00:00:00".to_string(),
        language: language.map(|l| l.to_string()),
        id: 7,
    }
}

#[test]
fn bordered_content_is_padded_to_the_width() {
    let line = format_with_border("abc", 5);
    assert_eq!(strip_ansi_codes(&line), "\u{2551}abc  \u{2551}");
}

#[test]
fn bordered_content_wider_than_the_width_is_kept() {
    let line = format_with_border("abcdef", 3);
    assert_eq!(strip_ansi_codes(&line), "\u{2551}abcdef\u{2551}");
}

#[test]
fn border_padding_ignores_embedded_escapes() {
    let colored = format_with_border("\x1b[31mab\x1b[0m", 4);
    let plain = format_with_border("ab", 4);
    assert_eq!(visible_width(&colored), visible_width(&plain));
}

#[test]
fn every_line_of_a_full_block_has_the_same_width() {
    let lines = render_snippet(&sample(None));
    assert!(lines.len() >= 7);
    let w = visible_width(&lines[0]);
    for line in &lines {
        assert_eq!(visible_width(line), w, "line {:?}", strip_ansi_codes(line));
    }
}

#[test]
fn a_highlighted_block_stays_aligned() {
    let lines = render_snippet(&sample(Some("Rust")));
    let w = visible_width(&lines[0]);
    for line in &lines {
        assert_eq!(visible_width(line), w, "line {:?}", strip_ansi_codes(line));
    }
    // the highlighter really recoloured the code: its truecolor escapes
    // appear nowhere else in the block
    assert!(lines.iter().any(|l| l.contains("\x1b[38;2;")));
}

#[test]
fn the_full_block_shows_the_fields_and_the_code() {
    let lines = render_snippet(&sample(None));
    let visible: Vec<String> = lines.iter().map(|l| strip_ansi_codes(l)).collect();
    assert!(visible[1].contains("ID: 7"));
    assert!(visible[2].contains("Snippet's Tag: demo"));
    assert!(visible[3].contains("Created: 2024-01-01 00:00:00"));
    assert!(visible[4].contains("Description: a short description"));
    assert!(visible[6].contains("Code:"));
    assert!(visible.iter().any(|l| l.contains("fn main() {")));
    assert!(visible.iter().any(|l| l.contains("    println!(\"hello\");")));
}

#[test]
fn the_summary_block_omits_the_code() {
    let lines = render_snippet_summary(&sample(None));
    assert_eq!(lines.len(), 6);
    let visible: Vec<String> = lines.iter().map(|l| strip_ansi_codes(l)).collect();
    assert!(visible[1].contains("ID: 7"));
    assert!(visible[2].contains("Tag: demo"));
    assert!(!visible.iter().any(|l| l.contains("Code:")));
    assert!(!visible.iter().any(|l| l.contains("fn main")));
    let w = visible_width(&lines[0]);
    for line in &lines {
        assert_eq!(visible_width(line), w);
    }
}

#[test]
fn a_snippet_without_description_drops_that_line() {
    let mut s = sample(None);
    s.description = None;
    let lines = render_snippet_summary(&s);
    assert_eq!(lines.len(), 5);
}

#[test]
fn split_lines_matches_the_usual_line_rules() {
    let cases = [
        "",
        "one",
        "one\n",
        "one\ntwo",
        "one\r\ntwo\r\n",
        "\n",
        "a\n\nb",
        "trailing\r",
    ];
    for case in cases {
        let got = split_lines(case);
        let expected: Vec<String> = case.lines().map(|l| l.to_string()).collect();
        assert_eq!(got, expected, "mismatch on {:?}", case);
    }
}
