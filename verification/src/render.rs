//! Rendering a snippet into a bordered, fixed-width block of display
//! lines.
//!
//! Every line of one block has the same visible width: the width is
//! computed from the visible (escape-stripped) form of each label and
//! code line, and the padding is computed the same way, so embedded
//! colour escapes never desynchronise the alignment.

use crate::ansi::{dangling_escape, esc_free, lemma_strip_append, lemma_strip_esc_free, safe_head,
    strip_ansi, strip_ansi_codes, visible_width, visible_width_of};
use crate::snippet::Snippet;
use crate::text::{dec_rep, push_char, spaces, u32_to_string};
use vstd::prelude::*;
use vstd::string::{StrSliceExecFns, StringExecFns};

verus! {

/// What the highlighter returns for a code body and a language hint; it
/// depends on the two strings alone.
pub uninterp spec fn highlight_of(code: Seq<char>, language: Seq<char>) -> Seq<char>;

/// Relies on syntect: `SyntaxSet::load_defaults_newlines`,
/// `ThemeSet::load_defaults`, the `find_syntax_by_token` /
/// `find_syntax_by_name` / `find_syntax_plain_text` lookup and
/// `HighlightLines::highlight_line` re-render the code with embedded
/// colour escapes, falling back to a plain rendering for an unrecognised
/// hint; the result is computed from the embedded default syntax and
/// theme dumps, so it depends on the code and the hint alone.
#[verifier::external_body]
fn highlight(code: &str, language: &str) -> (r: String)
    ensures
        r@ == highlight_of(code@, language@),
{
    let ps = syntect::parsing::SyntaxSet::load_defaults_newlines();
    let ts = syntect::highlighting::ThemeSet::load_defaults();
    let syntax = ps.find_syntax_by_token(language).or_else(|| ps.find_syntax_by_name(language)).unwrap_or(ps.find_syntax_plain_text());
    let mut out = String::new();
    for line in syntect::util::LinesWithEndings::from(code) {
        let mut hl = syntect::easy::HighlightLines::new(syntax, &ts.themes["base16-ocean.dark"]);
        match hl.highlight_line(line, &ps) {
            Ok(ranges) => for (st, txt) in ranges {
                out.push_str(&format!("\x1b[38;2;{};{};{}m{}", st.foreground.r, st.foreground.g, st.foreground.b, txt));
            },
            Err(_) => out.push_str(line),
        }
        out.push_str("\x1b[0m");
    }
    out
}

/// First index at or after `i` that holds a line feed (or the end of the
/// string).
pub open spec fn line_end(s: Seq<char>, i: int) -> int
    decreases s.len() - i,
{
    if 0 <= i && i < s.len() && s[i] != '\n' {
        line_end(s, i + 1)
    } else {
        i
    }
}

proof fn lemma_line_end_is(s: Seq<char>, i: int, e: int)
    requires
        0 <= i <= e <= s.len(),
        forall|k: int| i <= k < e ==> #[trigger] s[k] != '\n',
        e == s.len() || s[e] == '\n',
    ensures
        line_end(s, i) == e,
    decreases e - i,
{
    if i < e {
        lemma_line_end_is(s, i + 1, e);
    }
}

proof fn lemma_line_end_bounds(s: Seq<char>, i: int)
    requires
        0 <= i <= s.len(),
    ensures
        i <= line_end(s, i) <= s.len(),
    decreases s.len() - i,
{
    if i < s.len() && s[i] != '\n' {
        lemma_line_end_bounds(s, i + 1);
    }
}

/// A line piece with one trailing carriage return removed.
pub open spec fn chomp_cr(l: Seq<char>) -> Seq<char> {
    if l.len() > 0 && l.last() == '\r' {
        l.drop_last()
    } else {
        l
    }
}

/// The lines of `s`: pieces split at line feeds, each with one carriage
/// return before the line feed removed; a trailing line feed ends the
/// last line rather than opening an empty one, and the empty string has
/// no lines.
pub open spec fn lines_of(s: Seq<char>) -> Seq<Seq<char>>
    decreases s.len(),
    via lines_of_decreases
{
    if s.len() == 0 {
        Seq::empty()
    } else {
        let e = line_end(s, 0);
        if e >= s.len() {
            seq![s.take(e)]
        } else {
            seq![chomp_cr(s.take(e))] + lines_of(s.skip(e + 1))
        }
    }
}

#[via_fn]
proof fn lines_of_decreases(s: Seq<char>) {
    lemma_line_end_bounds(s, 0);
}

/// Splits a text into its lines, as `lines_of` describes.
pub fn split_lines(s: &str) -> (r: Vec<String>)
    ensures
        r@.len() == lines_of(s@).len(),
        forall|i: int| 0 <= i < r@.len() ==> #[trigger] r@[i]@ == lines_of(s@)[i],
{
    let n = s.unicode_len();
    let mut out: Vec<String> = Vec::new();
    let mut start: usize = 0;
    let ghost mut done: Seq<Seq<char>> = Seq::empty();
    proof {
        assert(s@.skip(0) =~= s@);
        assert(done + lines_of(s@) =~= lines_of(s@));
    }
    loop
        invariant_except_break
            lines_of(s@) == done + lines_of(s@.skip(start as int)),
        invariant
            n == s@.len(),
            start <= n,
            out@.len() == done.len(),
            forall|i: int| 0 <= i < done.len() ==> #[trigger] out@[i]@ == done[i],
        ensures
            done == lines_of(s@),
            out@.len() == done.len(),
            forall|i: int| 0 <= i < done.len() ==> #[trigger] out@[i]@ == done[i],
        decreases n - start,
    {
        if start == n {
            proof {
                assert(s@.skip(n as int) =~= Seq::<char>::empty());
                assert(done + Seq::<Seq<char>>::empty() =~= done);
            }
            break ;
        }
        let ghost t = s@.skip(start as int);
        proof {
            assert(forall|k: int| 0 <= k < t.len() ==> t[k] == s@[start + k]);
        }
        let mut j: usize = start;
        while j < n && s.get_char(j) != '\n'
            invariant
                n == s@.len(),
                start <= j <= n,
                forall|k: int| start <= k < j ==> #[trigger] s@[k] != '\n',
            decreases n - j,
        {
            j += 1;
        }
        proof {
            lemma_line_end_is(t, 0, j - start);
        }
        if j == n {
            let piece = s.substring_char(start, j);
            let line = piece.to_owned();
            out.push(line);
            proof {
                assert(piece@ =~= t.take(j - start));
                assert(lines_of(t) =~= seq![t.take(j - start)]);
                assert(lines_of(s@) =~= done + seq![t.take(j - start)]);
                done = done + seq![t.take(j - start)];
            }
            break ;
        }
        let end = if j > start && s.get_char(j - 1) == '\r' {
            j - 1
        } else {
            j
        };
        let piece = s.substring_char(start, end);
        let line = piece.to_owned();
        out.push(line);
        proof {
            assert(piece@ =~= chomp_cr(t.take(j - start))) by {
                if j > start && s@[j - 1] == '\r' {
                    assert(t.take(j - start).last() == s@[j - 1]);
                    assert(t.take(j - start).drop_last() =~= s@.subrange(
                        start as int,
                        j - 1,
                    ));
                } else {
                    if t.take(j - start).len() > 0 && t.take(j - start).last() == '\r' {
                        assert(s@[j - 1] == '\r');
                    }
                    assert(t.take(j - start) =~= s@.subrange(start as int, j as int));
                }
            }
            assert(lines_of(t) == seq![chomp_cr(t.take(j - start))] + lines_of(t.skip(j - start
                + 1)));
            assert(t.skip(j - start + 1) =~= s@.skip(j + 1));
            assert(done + (seq![chomp_cr(t.take(j - start))] + lines_of(s@.skip(j + 1))) =~= (done
                + seq![chomp_cr(t.take(j - start))]) + lines_of(s@.skip(j + 1)));
            done = done + seq![chomp_cr(t.take(j - start))];
        }
        start = j + 1;
    }
    out
}

proof fn lemma_closed_append(a: Seq<char>, b: Seq<char>)
    requires
        !dangling_escape(a),
        !dangling_escape(b),
    ensures
        !dangling_escape(a + b),
{
    let ab = a + b;
    assert forall|i: int|
        0 <= i < ab.len() && #[trigger] ab[i] == '\u{1b}' implies !(i + 1 == ab.len() || (ab[i + 1]
        == '[' && crate::ansi::param_end(ab, i + 2) >= ab.len())) by {
        if i < a.len() {
            assert(a[i] == '\u{1b}');
            if i + 1 == ab.len() {
                assert(i + 1 == a.len());
                assert(dangling_escape(a));
            } else if ab[i + 1] == '[' && crate::ansi::param_end(ab, i + 2) >= ab.len() {
                if i + 1 == a.len() {
                    assert(dangling_escape(a));
                } else {
                    assert(a[i + 1] == '[');
                    crate::ansi::lemma_param_end_bounds(a, i + 2);
                    let e = crate::ansi::param_end(a, i + 2);
                    if e < a.len() {
                        crate::ansi::lemma_param_end_prefix(a, b, i + 2);
                        assert(crate::ansi::param_end(ab, i + 2) == e);
                    } else {
                        assert(dangling_escape(a));
                    }
                }
            }
        } else {
            let k = i - a.len();
            assert(b[k] == '\u{1b}');
            if i + 1 == ab.len() {
                assert(k + 1 == b.len());
                assert(dangling_escape(b));
            } else if ab[i + 1] == '[' && crate::ansi::param_end(ab, i + 2) >= ab.len() {
                assert(b[k + 1] == '[');
                crate::ansi::lemma_param_end_bounds(b, k + 2);
                let e = crate::ansi::param_end(b, k + 2);
                assert(ab.skip(a.len() as int) =~= b);
                crate::ansi::lemma_param_end_skip(ab, a.len() as int, k + 2);
                assert(crate::ansi::param_end(ab, a.len() + k + 2) == a.len() + e);
                if e < b.len() {
                } else {
                    assert(dangling_escape(b));
                }
            }
        }
    }
}

proof fn lemma_blue_open()
    ensures
        strip_ansi("\u{1b}[34m"@) == Seq::<char>::empty(),
        !dangling_escape("\u{1b}[34m"@),
        safe_head("\u{1b}[34m"@),
        "\u{1b}[34m"@.len() == 5,
{
    reveal_strlit("\u{1b}[34m");
    let s = "\u{1b}[34m"@;
    reveal_with_fuel(crate::ansi::param_end, 5);
    assert(crate::ansi::param_end(s, 2) == 4);
    reveal_with_fuel(strip_ansi, 2);
    assert(s.skip(5) =~= Seq::<char>::empty());
    assert(strip_ansi(s) =~= Seq::<char>::empty());
    assert forall|i: int| 0 <= i < s.len() && #[trigger] s[i] == '\u{1b}' implies !(i + 1 == s.len()
        || (s[i + 1] == '[' && crate::ansi::param_end(s, i + 2) >= s.len())) by {
        assert(i == 0);
    }
}

proof fn lemma_reset()
    ensures
        strip_ansi("\u{1b}[0m"@) == Seq::<char>::empty(),
        !dangling_escape("\u{1b}[0m"@),
        safe_head("\u{1b}[0m"@),
        "\u{1b}[0m"@.len() == 4,
{
    reveal_strlit("\u{1b}[0m");
    let s = "\u{1b}[0m"@;
    reveal_with_fuel(crate::ansi::param_end, 4);
    assert(crate::ansi::param_end(s, 2) == 3);
    reveal_with_fuel(strip_ansi, 2);
    assert(s.skip(4) =~= Seq::<char>::empty());
    assert(strip_ansi(s) =~= Seq::<char>::empty());
    assert forall|i: int| 0 <= i < s.len() && #[trigger] s[i] == '\u{1b}' implies !(i + 1 == s.len()
        || (s[i + 1] == '[' && crate::ansi::param_end(s, i + 2) >= s.len())) by {
        assert(i == 0);
    }
}

proof fn lemma_label_open()
    ensures
        strip_ansi("  \u{1b}[33;1m"@) == "  "@,
        !dangling_escape("  \u{1b}[33;1m"@),
        "  \u{1b}[33;1m"@.len() == 9,
{
    reveal_strlit("  \u{1b}[33;1m");
    reveal_strlit("  ");
    let s = "  \u{1b}[33;1m"@;
    reveal_with_fuel(crate::ansi::param_end, 7);
    assert(crate::ansi::param_end(s, 4) == 8);
    reveal_with_fuel(strip_ansi, 4);
    assert(s.skip(1)[0] == ' ');
    assert(crate::ansi::csi_match_len(s.skip(1).skip(1)) == 7) by {
        assert(s.skip(1).skip(1) =~= s.skip(2));
        assert(crate::ansi::param_end(s.skip(2), 2) == 6) by {
            crate::ansi::lemma_param_end_skip(s, 2, 2);
        }
    }
    assert(s.skip(1).skip(1).skip(7) =~= Seq::<char>::empty());
    assert(strip_ansi(s) =~= "  "@);
    assert forall|i: int| 0 <= i < s.len() && #[trigger] s[i] == '\u{1b}' implies !(i + 1 == s.len()
        || (s[i + 1] == '[' && crate::ansi::param_end(s, i + 2) >= s.len())) by {
        assert(i == 2);
        assert(crate::ansi::param_end(s, 4) == 8);
    }
}

proof fn lemma_label_mid()
    ensures
        strip_ansi("\u{1b}[0m \u{1b}[35;1m"@) == " "@,
        !dangling_escape("\u{1b}[0m \u{1b}[35;1m"@),
        safe_head("\u{1b}[0m \u{1b}[35;1m"@),
        "\u{1b}[0m \u{1b}[35;1m"@.len() == 12,
{
    reveal_strlit("\u{1b}[0m \u{1b}[35;1m");
    reveal_strlit(" ");
    let s = "\u{1b}[0m \u{1b}[35;1m"@;
    reveal_with_fuel(crate::ansi::param_end, 7);
    assert(crate::ansi::param_end(s, 2) == 3);
    assert(crate::ansi::param_end(s, 7) == 11);
    reveal_with_fuel(strip_ansi, 4);
    assert(crate::ansi::csi_match_len(s) == 4);
    assert(s.skip(4)[0] == ' ');
    assert(crate::ansi::csi_match_len(s.skip(4).skip(1)) == 7) by {
        assert(s.skip(4).skip(1) =~= s.skip(5));
        assert(crate::ansi::param_end(s.skip(5), 2) == 6) by {
            crate::ansi::lemma_param_end_skip(s, 5, 2);
        }
    }
    assert(s.skip(4).skip(1).skip(7) =~= Seq::<char>::empty());
    assert(strip_ansi(s) =~= " "@);
    assert forall|i: int| 0 <= i < s.len() && #[trigger] s[i] == '\u{1b}' implies !(i + 1 == s.len()
        || (s[i + 1] == '[' && crate::ansi::param_end(s, i + 2) >= s.len())) by {
        assert(i == 0 || i == 5);
    }
}

/// The visible form of a bordered content line: the left bar, the
/// content, spaces up to the width, and the right bar.
pub open spec fn boxed_visible(visible: Seq<char>, w: int) -> Seq<char> {
    let pad = if w >= visible.len() {
        w - visible.len()
    } else {
        0
    };
    seq!['\u{2551}'] + visible + Seq::new(pad as nat, |i: int| ' ') + seq!['\u{2551}']
}

/// The visible form of a horizontal border line: a corner, `w` fill
/// characters, a corner.
pub open spec fn rule_visible(left: char, fill: char, right: char, w: int) -> Seq<char> {
    seq![left] + Seq::new(w as nat, |i: int| fill) + seq![right]
}

fn blue_piece(c: char) -> (r: String)
    requires
        c != '\u{1b}',
    ensures
        strip_ansi(r@) == seq![c],
        !dangling_escape(r@),
        safe_head(r@),
        r@.len() > 0,
{
    let mut r = String::new();
    r.append("\u{1b}[34m");
    push_char(&mut r, c);
    r.append("\u{1b}[0m");
    proof {
        lemma_blue_open();
        lemma_reset();
        let p1 = "\u{1b}[34m"@;
        let p3 = "\u{1b}[0m"@;
        assert(esc_free(seq![c]));
        lemma_strip_esc_free(seq![c]);
        lemma_strip_append(p1, seq![c]);
        assert(p1.push(c) =~= p1 + seq![c]);
        lemma_closed_append(p1, seq![c]);
        lemma_strip_append(p1 + seq![c], p3);
        lemma_closed_append(p1 + seq![c], p3);
        assert(r@ == (p1 + seq![c]) + p3);
        assert(strip_ansi(r@) =~= seq![c]);
        assert(r@[0] == '\u{1b}');
    }
    r
}

/// Returns one horizontal border line: a corner, `w` fill characters and
/// a corner, each dressed in colour escapes that strip away.
fn rule_line(w: usize, left: char, fill: char, right: char) -> (r: String)
    requires
        left != '\u{1b}',
        fill != '\u{1b}',
        right != '\u{1b}',
    ensures
        strip_ansi(r@) == rule_visible(left, fill, right, w as int),
{
    let mut r = blue_piece(left);
    let mut i: usize = 0;
    proof {
        assert(strip_ansi(r@) =~= seq![left] + Seq::new(0, |k: int| fill));
    }
    while i < w
        invariant
            i <= w,
            strip_ansi(r@) == seq![left] + Seq::new(i as nat, |k: int| fill),
            !dangling_escape(r@),
            fill != '\u{1b}',
            left != '\u{1b}',
        decreases w - i,
    {
        let p = blue_piece(fill);
        proof {
            lemma_strip_append(r@, p@);
            lemma_closed_append(r@, p@);
            assert((seq![left] + Seq::new(i as nat, |k: int| fill)) + seq![fill] =~= seq![left]
                + Seq::new((i + 1) as nat, |k: int| fill));
        }
        r.append(p.as_str());
        i += 1;
    }
    let p = blue_piece(right);
    proof {
        lemma_strip_append(r@, p@);
        assert((seq![left] + Seq::new(w as nat, |k: int| fill)) + seq![right] =~= rule_visible(
            left,
            fill,
            right,
            w as int,
        ));
    }
    r.append(p.as_str());
    r
}

/// Returns one label line of a block: two spaces, the label, a space and
/// the value, dressed in colour escapes that strip away.
fn label_line(label: &str, value: &str) -> (r: String)
    requires
        esc_free(label@),
    ensures
        strip_ansi(r@) == "  "@ + label@ + " "@ + strip_ansi(value@),
{
    let mut r = String::new();
    r.append("  \u{1b}[33;1m");
    proof {
        lemma_label_open();
        lemma_label_mid();
        lemma_reset();
        lemma_strip_esc_free(label@);
        lemma_strip_append("  \u{1b}[33;1m"@, label@);
        lemma_closed_append("  \u{1b}[33;1m"@, label@);
    }
    r.append(label);
    let ghost r1 = "  \u{1b}[33;1m"@ + label@;
    proof {
        lemma_strip_append(r1, "\u{1b}[0m \u{1b}[35;1m"@);
        lemma_closed_append(r1, "\u{1b}[0m \u{1b}[35;1m"@);
    }
    r.append("\u{1b}[0m \u{1b}[35;1m");
    let ghost r2 = r1 + "\u{1b}[0m \u{1b}[35;1m"@;
    proof {
        lemma_strip_append(r2, value@);
    }
    r.append(value);
    let ghost r3 = r2 + value@;
    proof {
        lemma_reset();
        lemma_strip_append(r3, "\u{1b}[0m"@);
        assert(r3 + "\u{1b}[0m"@ == (("  \u{1b}[33;1m"@ + label@) + "\u{1b}[0m \u{1b}[35;1m"@)
            + value@ + "\u{1b}[0m"@);
        assert(strip_ansi(r3 + "\u{1b}[0m"@) =~= "  "@ + label@ + " "@ + strip_ansi(value@));
    }
    r.append("\u{1b}[0m");
    r
}

/// Lays `content` between two vertical bars, padded with spaces so that
/// the line shows exactly `width` visible columns between the bars (more
/// when the content alone is wider); the padding is computed from the
/// visible form of the content, so embedded escapes do not disturb it.
pub fn format_with_border(content: &str, width: usize) -> (r: String)
    ensures
        strip_ansi(r@) == boxed_visible(strip_ansi(content@), width as int),
{
    let stripped = strip_ansi_codes(content);
    let visible_len = stripped.as_str().unicode_len();
    let padding: usize = if width > visible_len {
        width - visible_len
    } else {
        0
    };
    let pad = spaces(padding);
    let mut r = blue_piece('\u{2551}');
    proof {
        lemma_strip_append(r@, content@);
    }
    r.append(content);
    let ghost r1 = strip_ansi(content@);
    let ghost bar = seq!['\u{2551}'];
    let ghost before_pad = r@;
    proof {
        assert(forall|i: int| 0 <= i < pad@.len() ==> pad@[i] == ' ');
        assert(safe_head(pad@));
        assert(strip_ansi(before_pad) == bar + r1);
        lemma_strip_append(before_pad, pad@);
        lemma_strip_esc_free(pad@);
    }
    r.append(pad.as_str());
    let bar2 = blue_piece('\u{2551}');
    proof {
        lemma_strip_append(r@, bar2@);
        assert(pad@ =~= Seq::new(padding as nat, |i: int| ' '));
        assert((bar + r1 + pad@) + bar =~= boxed_visible(strip_ansi(content@), width as int));
    }
    r.append(bar2.as_str());
    r
}

/// The visible form of one label line: two spaces, the label, one space,
/// the value.
pub open spec fn labeled_visible(label: Seq<char>, value_visible: Seq<char>) -> Seq<char> {
    "  "@ + label + " "@ + value_visible
}

/// The tag label of a block: the full view spells it out, the summary
/// abbreviates it.
pub open spec fn tag_label_of(full: bool) -> Seq<char> {
    if full {
        "Snippet's Tag:"@
    } else {
        "Tag:"@
    }
}

/// The visible forms of the label lines of a block: identifier, tag,
/// creation time, and the description when there is one.
pub open spec fn block_label_visibles(s: Snippet, tag_label: Seq<char>) -> Seq<Seq<char>> {
    let base = seq![
        labeled_visible("ID:"@, dec_rep(s.id as int)),
        labeled_visible(tag_label, strip_ansi(s.tag@)),
        labeled_visible("Created:"@, strip_ansi(s.timestamp@)),
    ];
    match s.description {
        Some(d) => base.push(labeled_visible("Description:"@, strip_ansi(d@))),
        None => base,
    }
}

/// The greatest length among a list of visible lines, 0 for none.
pub open spec fn max_len_of(ls: Seq<Seq<char>>) -> int
    decreases ls.len(),
{
    if ls.len() == 0 {
        0
    } else {
        let m = max_len_of(ls.drop_last());
        if ls.last().len() > m {
            ls.last().len() as int
        } else {
            m
        }
    }
}

proof fn lemma_boxed_len(content: Seq<char>, w: int)
    requires
        0 <= content.len() <= w,
    ensures
        boxed_visible(content, w).len() == w + 2,
{
}

proof fn lemma_rule_len(left: char, fill: char, right: char, w: int)
    requires
        w >= 0,
    ensures
        rule_visible(left, fill, right, w).len() == w + 2,
{
}

proof fn lemma_max_len_ge(ls: Seq<Seq<char>>, i: int)
    requires
        0 <= i < ls.len(),
    ensures
        max_len_of(ls) >= ls[i].len(),
    decreases ls.len(),
{
    if i < ls.len() - 1 {
        lemma_max_len_ge(ls.drop_last(), i);
    }
}

/// Lays one snippet out as a bordered block of display lines: a top
/// border, the label lines, in the full view a separator, a code heading
/// and every line of `body`, and a bottom border.  The width is four
/// columns more than the widest visible label or body line, every content
/// line is padded to it, and every line of the block shows the same
/// visible width.  (A block too wide for the machine's sizes comes back
/// empty.)
#[verifier::rlimit(100)]
/// The whole contract of one rendered block: the line count, the visible
/// form of every line, and the constant visible width.
pub open spec fn block_ok(s: Snippet, body: Seq<char>, full: bool, r: Seq<String>) -> bool {
    let labels = block_label_visibles(s, tag_label_of(full));
    let code_visibles = lines_of(body).map_values(|l: Seq<char>| strip_ansi(l));
    let measured = if full {
        labels + code_visibles
    } else {
        labels
    };
    let w = 4 + max_len_of(measured);
    let nd: int = if s.description is Some {
        1
    } else {
        0
    };
    if w + 2 <= usize::MAX {
        &&& r.len() == (if full {
            7 + nd + code_visibles.len()
        } else {
            5 + nd
        })
        &&& strip_ansi(r[0]@) == rule_visible('\u{2554}', '\u{2550}', '\u{2557}', w)
        &&& forall|i: int|
            0 <= i < labels.len() ==> strip_ansi(r[1 + i]@) == boxed_visible(
                #[trigger] labels[i],
                w,
            )
        &&& full ==> strip_ansi(r[4 + nd]@) == rule_visible(
            '\u{255f}',
            '\u{2500}',
            '\u{2562}',
            w,
        )
        &&& full ==> strip_ansi(r[5 + nd]@) == boxed_visible("  Code:"@, w)
        &&& full ==> forall|j: int|
            0 <= j < code_visibles.len() ==> strip_ansi(r[6 + nd + j]@) == boxed_visible(
                "  "@ + #[trigger] code_visibles[j],
                w,
            )
        &&& strip_ansi(r[r.len() - 1]@) == rule_visible(
            '\u{255a}',
            '\u{2550}',
            '\u{255d}',
            w,
        )
        &&& forall|i: int|
            0 <= i < r.len() ==> visible_width_of(#[trigger] r[i]@) == w + 2
    } else {
        r.len() == 0
    }
}

spec fn block_facts(s: Snippet, body: Seq<char>, full: bool, out: Seq<String>, maxlen: int) -> bool {
    let labels = block_label_visibles(s, tag_label_of(full));
    let code_visibles = lines_of(body).map_values(|l: Seq<char>| strip_ansi(l));
    let measured = if full {
        labels + code_visibles
    } else {
        labels
    };
    let w = maxlen + 4;
    let nd: int = if s.description is Some {
        1
    } else {
        0
    };
    &&& maxlen == max_len_of(measured)
    &&& maxlen + 6 <= usize::MAX
    &&& out.len() == (if full {
        7 + nd + code_visibles.len()
    } else {
        5 + nd
    })
    &&& strip_ansi(out[0]@) == rule_visible('\u{2554}', '\u{2550}', '\u{2557}', w)
    &&& forall|i: int|
        0 <= i < labels.len() ==> strip_ansi(out[1 + i]@) == boxed_visible(#[trigger] labels[i], w)
    &&& full ==> strip_ansi(out[4 + nd]@) == rule_visible('\u{255f}', '\u{2500}', '\u{2562}', w)
    &&& full ==> strip_ansi(out[5 + nd]@) == boxed_visible("  Code:"@, w)
    &&& full ==> forall|j: int|
        0 <= j < code_visibles.len() ==> strip_ansi(out[6 + nd + j]@) == boxed_visible(
            "  "@ + #[trigger] code_visibles[j],
            w,
        )
    &&& strip_ansi(out[out.len() - 1]@) == rule_visible('\u{255a}', '\u{2550}', '\u{255d}', w)
}

proof fn lemma_block_assemble(s: Snippet, body: Seq<char>, full: bool, out: Seq<String>, maxlen: int)
    requires
        block_facts(s, body, full, out, maxlen),
        block_label_visibles(s, tag_label_of(full))[0].len() >= 7,
    ensures
        block_ok(s, body, full, out),
{
    let labels = block_label_visibles(s, tag_label_of(full));
    let code_visibles = lines_of(body).map_values(|l: Seq<char>| strip_ansi(l));
    let measured = if full {
        labels + code_visibles
    } else {
        labels
    };
    let w = maxlen + 4;
    let nd: int = if s.description is Some {
        1
    } else {
        0
    };
    assert(labels.len() == 3 + nd);
    assert forall|k: int| 0 <= k < measured.len() implies (#[trigger] measured[k]).len()
        <= maxlen by {
        lemma_max_len_ge(measured, k);
    }
    assert(measured[0] == labels[0]);
    assert(maxlen >= 7);
    assert forall|i: int| 0 <= i < out.len() implies visible_width_of(#[trigger] out[i]@) == w
        + 2 by {
        assert(visible_width_of(out[i]@) == strip_ansi(out[i]@).len());
        if i == 0 {
            lemma_rule_len('\u{2554}', '\u{2550}', '\u{2557}', w);
            assert(visible_width_of(out[i]@) == w + 2);
        } else if i == out.len() - 1 {
            lemma_rule_len('\u{255a}', '\u{2550}', '\u{255d}', w);
            assert(visible_width_of(out[i]@) == w + 2);
        } else if 1 <= i && i < 1 + labels.len() {
            assert(measured[i - 1] == labels[i - 1]);
            assert(labels[i - 1].len() <= maxlen);
            assert(strip_ansi(out[i]@) == boxed_visible(labels[i - 1], w));
            lemma_boxed_len(labels[i - 1], w);
            assert(visible_width_of(out[i]@) == w + 2);
        } else if full && i == 4 + nd {
            lemma_rule_len('\u{255f}', '\u{2500}', '\u{2562}', w);
            assert(visible_width_of(out[i]@) == w + 2);
        } else if full && i == 5 + nd {
            assert("  Code:"@.len() == 7) by {
                reveal_strlit("  Code:");
            }
            lemma_boxed_len("  Code:"@, w);
            assert(visible_width_of(out[i]@) == w + 2);
        } else {
            assert(full && 6 + nd <= i < 6 + nd + code_visibles.len());
            let k = i - 6 - nd;
            assert(measured[labels.len() + k] == code_visibles[k]);
            assert(code_visibles[k].len() <= maxlen);
            assert("  "@.len() == 2) by {
                reveal_strlit("  ");
            }
            assert(("  "@ + code_visibles[k]).len() <= maxlen + 2);
            assert(strip_ansi(out[6 + nd + k]@) == boxed_visible("  "@ + code_visibles[k], w));
            assert(strip_ansi(out[i]@) == boxed_visible("  "@ + code_visibles[k], w));
            lemma_boxed_len("  "@ + code_visibles[k], w);
            assert(visible_width_of(out[i]@) == w + 2);
        }
    }
}

pub fn render_block(s: &Snippet, body: &str, full: bool) -> (r: Vec<String>)
    ensures
        block_ok(*s, body@, full, r@),
{
    let ghost labels = block_label_visibles(*s, tag_label_of(full));
    let ghost code_visibles = lines_of(body@).map_values(|l: Seq<char>| strip_ansi(l));
    let ghost measured: Seq<Seq<char>> = if full {
        labels + code_visibles
    } else {
        labels
    };
    proof {
        reveal_strlit("ID:");
        reveal_strlit("Tag:");
        reveal_strlit("Snippet's Tag:");
        reveal_strlit("Created:");
        reveal_strlit("Description:");
        reveal_strlit("  Code:");
        reveal_strlit("  ");
        reveal_strlit(" ");
        crate::text::lemma_dec_rep_digits(s.id as int);
    }
    let tag_label: &str = if full {
        "Snippet's Tag:"
    } else {
        "Tag:"
    };
    let id_str = u32_to_string(s.id);
    proof {
        lemma_strip_esc_free(id_str@);
    }
    let idl = label_line("ID:", id_str.as_str());
    let tagl = label_line(tag_label, s.tag.as_str());
    let createdl = label_line("Created:", s.timestamp.as_str());
    let descl: Option<String> = match &s.description {
        Some(d) => Some(label_line("Description:", d.as_str())),
        None => None,
    };
    proof {
        assert(strip_ansi(idl@) == labels[0]);
        assert(strip_ansi(tagl@) == labels[1]);
        assert(strip_ansi(createdl@) == labels[2]);
    }
    // the widest visible line decides the width
    let mut maxlen: usize = visible_width(idl.as_str());
    let ghost mut ms: Seq<Seq<char>> = seq![labels[0]];
    proof {
        assert(max_len_of(Seq::<Seq<char>>::empty()) == 0);
        assert(ms.drop_last() =~= Seq::<Seq<char>>::empty());
        assert(ms.last() == labels[0]);
        assert(maxlen as int == max_len_of(ms));
    }
    let v = visible_width(tagl.as_str());
    proof {
        assert((ms + seq![labels[1]]).drop_last() =~= ms);
        assert((ms + seq![labels[1]]).last() == labels[1]);
    }
    if v > maxlen {
        maxlen = v;
    }
    proof {
        ms = ms + seq![labels[1]];
        assert(maxlen as int == max_len_of(ms));
    }
    let v = visible_width(createdl.as_str());
    proof {
        assert((ms + seq![labels[2]]).drop_last() =~= ms);
        assert((ms + seq![labels[2]]).last() == labels[2]);
    }
    if v > maxlen {
        maxlen = v;
    }
    proof {
        ms = ms + seq![labels[2]];
        assert(maxlen as int == max_len_of(ms));
    }
    if let Some(dl) = &descl {
        let v = visible_width(dl.as_str());
        proof {
            assert(strip_ansi(dl@) == labels[3]);
            assert((ms + seq![labels[3]]).drop_last() =~= ms);
            assert((ms + seq![labels[3]]).last() == labels[3]);
        }
        if v > maxlen {
            maxlen = v;
        }
        proof {
            ms = ms + seq![labels[3]];
            assert(maxlen as int == max_len_of(ms));
        }
    }
    proof {
        assert(ms =~= labels);
    }
    let code_lines: Vec<String> = if full {
        split_lines(body)
    } else {
        Vec::new()
    };
    if full {
        let mut j: usize = 0;
        #[verifier::loop_isolation(false)]
        while j < code_lines.len()
            invariant
                j <= code_lines@.len(),
                ms == labels + code_visibles.take(j as int),
                maxlen as int == max_len_of(ms),
            decreases code_lines@.len() - j,
        {
            let v = visible_width(code_lines[j].as_str());
            proof {
                assert(code_visibles[j as int] == strip_ansi(code_lines@[j as int]@));
                assert((ms + seq![code_visibles[j as int]]).drop_last() =~= ms);
                assert(labels + code_visibles.take(j + 1) =~= ms + seq![code_visibles[j as int]]);
                ms = ms + seq![code_visibles[j as int]];
            }
            if v > maxlen {
                maxlen = v;
            }
            j += 1;
        }
        proof {
            assert(code_visibles.take(code_visibles.len() as int) =~= code_visibles);
        }
    }
    proof {
        assert(ms =~= measured);
    }
    if maxlen > usize::MAX - 6 {
        return Vec::new();
    }
    let w: usize = maxlen + 4;
    let ghost nd: int = if s.description is Some {
        1
    } else {
        0
    };
    let mut out: Vec<String> = Vec::new();
    out.push(rule_line(w, '\u{2554}', '\u{2550}', '\u{2557}'));
    proof {
        assert(strip_ansi(out@[0]@) == rule_visible('\u{2554}', '\u{2550}', '\u{2557}', w as int));
    }
    out.push(format_with_border(idl.as_str(), w));
    proof {
        assert(strip_ansi(out@[1]@) == boxed_visible(labels[0], w as int));
    }
    out.push(format_with_border(tagl.as_str(), w));
    proof {
        assert(strip_ansi(out@[2]@) == boxed_visible(labels[1], w as int));
    }
    out.push(format_with_border(createdl.as_str(), w));
    proof {
        assert(strip_ansi(out@[3]@) == boxed_visible(labels[2], w as int));
    }
    if let Some(dl) = &descl {
        out.push(format_with_border(dl.as_str(), w));
        proof {
            assert(strip_ansi(out@[4]@) == boxed_visible(labels[3], w as int));
        }
    }
    proof {
        assert(out@.len() == 4 + nd);
        assert(strip_ansi(out@[0]@) == rule_visible('\u{2554}', '\u{2550}', '\u{2557}', w as int));
        assert(forall|i: int|
            0 <= i < labels.len() ==> strip_ansi(#[trigger] out@[1 + i]@) == boxed_visible(
                labels[i],
                w as int,
            ));
    }
    if full {
        out.push(rule_line(w, '\u{255f}', '\u{2500}', '\u{2562}'));
        proof {
            assert(strip_ansi(out@[4 + nd]@) == rule_visible(
                '\u{255f}',
                '\u{2500}',
                '\u{2562}',
                w as int,
            ));
        }
        let code_header = label_header();
        out.push(format_with_border(code_header.as_str(), w));
        proof {
            assert(strip_ansi(out@[5 + nd]@) == boxed_visible("  Code:"@, w as int));
        }
        let ghost prefix = out@;
        proof {
            assert(out@.take(6 + nd) =~= prefix);
        }
        let mut j: usize = 0;
        #[verifier::loop_isolation(false)]
        while j < code_lines.len()
            invariant
                j <= code_lines@.len(),
                out@.len() == 6 + nd + j,
                out@.take(6 + nd) == prefix,
                forall|k: int|
                    0 <= k < j ==> strip_ansi(#[trigger] out@[6 + nd + k]@) == boxed_visible(
                        "  "@ + code_visibles[k],
                        w as int,
                    ),
            decreases code_lines@.len() - j,
        {
            let mut cl = String::new();
            cl.append("  ");
            proof {
                lemma_strip_esc_free("  "@);
                lemma_strip_append("  "@, code_lines@[j as int]@);
            }
            cl.append(code_lines[j].as_str());
            out.push(format_with_border(cl.as_str(), w));
            proof {
                assert(out@.take(6 + nd) =~= prefix);
            }
            j += 1;
        }
        proof {
            assert(forall|k: int| 0 <= k < 6 + nd ==> out@[k] == prefix[k]);
            assert(strip_ansi(prefix[0]@) == rule_visible(
                '\u{2554}',
                '\u{2550}',
                '\u{2557}',
                w as int,
            ));
            assert(strip_ansi(prefix[1]@) == boxed_visible(labels[0], w as int));
            assert(strip_ansi(prefix[2]@) == boxed_visible(labels[1], w as int));
            assert(strip_ansi(prefix[3]@) == boxed_visible(labels[2], w as int));
            if s.description is Some {
                assert(strip_ansi(prefix[4]@) == boxed_visible(labels[3], w as int));
            }
            assert(strip_ansi(prefix[4 + nd]@) == rule_visible(
                '\u{255f}',
                '\u{2500}',
                '\u{2562}',
                w as int,
            ));
            assert(strip_ansi(prefix[5 + nd]@) == boxed_visible("  Code:"@, w as int));
            assert(out@[0] == prefix[0]);
            assert(out@[1] == prefix[1]);
            assert(out@[2] == prefix[2]);
            assert(out@[3] == prefix[3]);
            assert(out@[4 + nd] == prefix[4 + nd]);
            assert(out@[5 + nd] == prefix[5 + nd]);
        }
    }
    out.push(rule_line(w, '\u{255a}', '\u{2550}', '\u{255d}'));
    proof {
        assert(labels.len() == 3 + nd);
        assert(labels[0].len() >= 7);
        assert(strip_ansi(out@[0]@) == rule_visible('\u{2554}', '\u{2550}', '\u{2557}', w as int));
        assert(strip_ansi(out@[1]@) == boxed_visible(labels[0], w as int));
        assert(strip_ansi(out@[2]@) == boxed_visible(labels[1], w as int));
        assert(strip_ansi(out@[3]@) == boxed_visible(labels[2], w as int));
        if s.description is Some {
            assert(strip_ansi(out@[4]@) == boxed_visible(labels[3], w as int));
        }
        assert forall|i: int|
            0 <= i < labels.len() implies strip_ansi(out@[1 + i]@) == boxed_visible(
            #[trigger] labels[i],
            w as int,
        ) by {
            assert(i == 0 || i == 1 || i == 2 || i == 3);
        }
        assert(strip_ansi(out@[(out@.len() - 1) as int]@) == rule_visible(
            '\u{255a}',
            '\u{2550}',
            '\u{255d}',
            w as int,
        ));
        if full {
            assert(strip_ansi(out@[4 + nd]@) == rule_visible(
                '\u{255f}',
                '\u{2500}',
                '\u{2562}',
                w as int,
            ));
            assert(strip_ansi(out@[5 + nd]@) == boxed_visible("  Code:"@, w as int));
            assert(forall|j: int|
                0 <= j < code_visibles.len() ==> strip_ansi(#[trigger] out@[6 + nd + j]@)
                    == boxed_visible("  "@ + code_visibles[j], w as int));
        }
        assert(block_facts(*s, body@, full, out@, maxlen as int));
        lemma_block_assemble(*s, body@, full, out@, maxlen as int);
    }
    out
}

/// The code body as the full view shows it: run through the highlighter
/// when a language hint is set, untouched otherwise.
pub open spec fn highlighted_code_of(s: Snippet) -> Seq<char> {
    match s.language {
        Some(l) => highlight_of(s.code@, l@),
        None => s.code@,
    }
}

/// Renders the full view of one snippet: its labels and its whole code
/// body, highlighted when a language hint is set, in one bordered block
/// of constant visible width.
pub fn render_snippet(s: &Snippet) -> (r: Vec<String>)
    ensures
        block_ok(*s, highlighted_code_of(*s), true, r@),
{
    let body = match &s.language {
        Some(l) => highlight(s.code.as_str(), l.as_str()),
        None => s.code.clone(),
    };
    render_block(s, body.as_str(), true)
}

/// Renders the summary view of one snippet: its labels alone, without
/// the code body, in one bordered block of constant visible width.
pub fn render_snippet_summary(s: &Snippet) -> (r: Vec<String>)
    ensures
        block_ok(*s, Seq::empty(), false, r@),
{
    let r = render_block(s, "", false);
    proof {
        reveal_strlit("");
        assert(""@ =~= Seq::<char>::empty());
    }
    r
}

fn label_header() -> (r: String)
    ensures
        strip_ansi(r@) == "  Code:"@,
{
    let mut r = String::new();
    r.append("\u{1b}[33;1m");
    proof {
        lemma_code_open();
        reveal_strlit("  Code:");
        lemma_strip_esc_free("  Code:"@);
        lemma_strip_append("\u{1b}[33;1m"@, "  Code:"@);
        lemma_closed_append("\u{1b}[33;1m"@, "  Code:"@);
    }
    r.append("  Code:");
    let ghost r1 = "\u{1b}[33;1m"@ + "  Code:"@;
    proof {
        lemma_reset();
        lemma_strip_append(r1, "\u{1b}[0m"@);
        assert(strip_ansi(r1 + "\u{1b}[0m"@) =~= "  Code:"@);
    }
    r.append("\u{1b}[0m");
    r
}

proof fn lemma_code_open()
    ensures
        strip_ansi("\u{1b}[33;1m"@) == Seq::<char>::empty(),
        !dangling_escape("\u{1b}[33;1m"@),
        "\u{1b}[33;1m"@.len() == 7,
{
    reveal_strlit("\u{1b}[33;1m");
    let s = "\u{1b}[33;1m"@;
    reveal_with_fuel(crate::ansi::param_end, 6);
    assert(crate::ansi::param_end(s, 2) == 6);
    reveal_with_fuel(strip_ansi, 2);
    assert(s.skip(7) =~= Seq::<char>::empty());
    assert(strip_ansi(s) =~= Seq::<char>::empty());
    assert forall|i: int| 0 <= i < s.len() && #[trigger] s[i] == '\u{1b}' implies !(i + 1 == s.len()
        || (s[i + 1] == '[' && crate::ansi::param_end(s, i + 2) >= s.len())) by {
        assert(i == 0);
    }
}

} // verus!
