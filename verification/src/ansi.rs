//! Visible-width computation for strings that may hold ANSI CSI colour
//! escape sequences.
//!
//! A CSI sequence is `ESC '[' <params> <final>`, where `<params>` is a run
//! of digits and semicolons and `<final>` is one ASCII letter.  The visible
//! form of a string is the string with every complete CSI sequence removed;
//! an incomplete sequence (no final letter before the string ends) is kept
//! as ordinary text.

use crate::text::push_char;
use vstd::prelude::*;
use vstd::string::StrSliceExecFns;

verus! {

/// A parameter character of a CSI sequence: a digit or a semicolon.
pub open spec fn is_csi_param(c: char) -> bool {
    ('0' <= c && c <= '9') || c == ';'
}

/// A final character of a CSI sequence: one ASCII letter.
pub open spec fn is_csi_final(c: char) -> bool {
    ('a' <= c && c <= 'z') || ('A' <= c && c <= 'Z')
}

/// First index at or after `i` that does not hold a parameter character
/// (or the end of the string).
pub open spec fn param_end(s: Seq<char>, i: int) -> int
    decreases s.len() - i,
{
    if 0 <= i && i < s.len() && is_csi_param(s[i]) {
        param_end(s, i + 1)
    } else {
        i
    }
}

/// Length of the CSI sequence at the start of `s`, or 0 when none starts
/// there.  A sequence needs the two-character introducer, a (possibly
/// empty) parameter run, and a final letter.
pub open spec fn csi_match_len(s: Seq<char>) -> int {
    if s.len() >= 2 && s[0] == '\u{1b}' && s[1] == '[' {
        let e = param_end(s, 2);
        if e < s.len() && is_csi_final(s[e]) {
            e + 1
        } else {
            0
        }
    } else {
        0
    }
}

pub proof fn lemma_param_end_bounds(s: Seq<char>, i: int)
    requires
        0 <= i <= s.len(),
    ensures
        i <= param_end(s, i) <= s.len(),
        forall|j: int| i <= j < param_end(s, i) ==> is_csi_param(s[j]),
        param_end(s, i) < s.len() ==> !is_csi_param(s[param_end(s, i)]),
    decreases s.len() - i,
{
    if i < s.len() && is_csi_param(s[i]) {
        lemma_param_end_bounds(s, i + 1);
    }
}

/// The string with every complete CSI sequence removed, scanning left to
/// right; at a position where no sequence starts, the character is kept.
pub open spec fn strip_ansi(s: Seq<char>) -> Seq<char>
    decreases s.len(),
    via strip_ansi_decreases
{
    if s.len() == 0 {
        Seq::empty()
    } else if csi_match_len(s) > 0 {
        strip_ansi(s.skip(csi_match_len(s)))
    } else {
        seq![s[0]] + strip_ansi(s.skip(1))
    }
}

#[via_fn]
proof fn strip_ansi_decreases(s: Seq<char>) {
    if s.len() != 0 && csi_match_len(s) > 0 {
        lemma_param_end_bounds(s, 2);
    }
}

/// The number of characters that remain visible once every complete CSI
/// sequence is removed.
pub open spec fn visible_width_of(s: Seq<char>) -> nat {
    strip_ansi(s).len()
}

proof fn lemma_param_end_is(s: Seq<char>, i: int, e: int)
    requires
        0 <= i <= e <= s.len(),
        forall|k: int| i <= k < e ==> is_csi_param(s[k]),
        e == s.len() || !is_csi_param(s[e]),
    ensures
        param_end(s, i) == e,
    decreases e - i,
{
    if i < e {
        lemma_param_end_is(s, i + 1, e);
    }
}

/// Holds when no character of `s` is the escape character, so that `s` is
/// kept whole by `strip_ansi`.
pub open spec fn esc_free(s: Seq<char>) -> bool {
    forall|i: int| 0 <= i < s.len() ==> s[i] != '\u{1b}'
}

/// Holds when `s` ends in an unfinished CSI sequence: an escape character
/// whose sequence could still be completed by further characters.
pub open spec fn dangling_escape(s: Seq<char>) -> bool {
    exists|i: int|
        0 <= i < s.len() && #[trigger] s[i] == '\u{1b}' && (i + 1 == s.len() || (s[i + 1] == '['
            && param_end(s, i + 2) >= s.len()))
}

/// Holds when prepending `s` with any text cannot complete an unfinished
/// CSI sequence of that text: the first character of `s` neither opens nor
/// continues nor closes one.
pub open spec fn safe_head(s: Seq<char>) -> bool {
    s.len() == 0 || !(s[0] == '[' || is_csi_param(s[0]) || is_csi_final(s[0]))
}

pub proof fn lemma_param_end_prefix(a: Seq<char>, b: Seq<char>, i: int)
    requires
        0 <= i <= a.len(),
        param_end(a, i) < a.len(),
    ensures
        param_end(a + b, i) == param_end(a, i),
{
    let e = param_end(a, i);
    lemma_param_end_bounds(a, i);
    assert(forall|k: int| i <= k < e ==> (a + b)[k] == a[k]);
    lemma_param_end_is(a + b, i, e);
}

pub proof fn lemma_param_end_skip(s: Seq<char>, m: int, j: int)
    requires
        0 <= m,
        0 <= j,
        m + j <= s.len(),
    ensures
        param_end(s.skip(m), j) == param_end(s, m + j) - m,
{
    let t = s.skip(m);
    lemma_param_end_bounds(s, m + j);
    let e = param_end(s, m + j);
    assert(forall|k: int| 0 <= k < t.len() ==> t[k] == s[m + k]);
    lemma_param_end_is(t, j, e - m);
}

proof fn lemma_dangling_skip(s: Seq<char>, m: int)
    requires
        0 <= m <= s.len(),
        dangling_escape(s.skip(m)),
    ensures
        dangling_escape(s),
{
    let t = s.skip(m);
    let i = choose|i: int|
        0 <= i < t.len() && #[trigger] t[i] == '\u{1b}' && (i + 1 == t.len() || (t[i + 1] == '['
            && param_end(t, i + 2) >= t.len()));
    assert(s[m + i] == '\u{1b}');
    if i + 1 == t.len() {
        assert(m + i + 1 == s.len());
    } else {
        assert(s[m + i + 1] == '[');
        lemma_param_end_skip(s, m, i + 2);
        assert(param_end(s, m + i + 2) >= s.len());
    }
    assert(0 <= m + i < s.len() && s[m + i] == '\u{1b}' && (m + i + 1 == s.len() || (s[m + i + 1]
        == '[' && param_end(s, m + i + 2) >= s.len())));
}

/// Stripping distributes over concatenation as long as no CSI sequence can
/// straddle the boundary: either `a` ends with no unfinished sequence, or
/// `b` starts with a character that cannot continue one.
pub proof fn lemma_strip_append(a: Seq<char>, b: Seq<char>)
    requires
        !dangling_escape(a) || safe_head(b),
    ensures
        strip_ansi(a + b) == strip_ansi(a) + strip_ansi(b),
    decreases a.len(),
{
    let ab = a + b;
    if a.len() == 0 {
        assert(ab =~= b);
        assert(strip_ansi(a) + strip_ansi(b) =~= strip_ansi(b));
    } else {
        let m = csi_match_len(a);
        if m > 0 {
            let e = param_end(a, 2);
            lemma_param_end_prefix(a, b, 2);
            assert(csi_match_len(ab) == m);
            assert(ab.skip(m) =~= a.skip(m) + b);
            if !dangling_escape(a) {
                if dangling_escape(a.skip(m)) {
                    lemma_dangling_skip(a, m);
                }
            }
            lemma_param_end_bounds(a, 2);
            lemma_strip_append(a.skip(m), b);
            assert(strip_ansi(a) == strip_ansi(a.skip(m)));
            assert(strip_ansi(ab) == strip_ansi(ab.skip(m)));
        } else {
            // no sequence starts at the head of `a`, nor of `a + b`
            if a[0] == '\u{1b}' {
                if a.len() == 1 {
                    assert(dangling_escape(a)) by {
                        assert(0 < a.len() && a[0] == '\u{1b}' && 0 + 1 == a.len());
                    }
                    if b.len() > 0 {
                        assert(ab[1] == b[0]);
                        assert(csi_match_len(ab) == 0);
                    } else {
                        assert(ab.len() == 1);
                        assert(csi_match_len(ab) == 0);
                    }
                } else if a[1] != '[' {
                    assert(ab[1] == a[1]);
                    assert(csi_match_len(ab) == 0);
                } else {
                    let e = param_end(a, 2);
                    lemma_param_end_bounds(a, 2);
                    if e < a.len() {
                        assert(!is_csi_final(a[e]));
                        lemma_param_end_prefix(a, b, 2);
                        assert(ab[e] == a[e]);
                        assert(csi_match_len(ab) == 0);
                    } else {
                        assert(e == a.len());
                        assert(dangling_escape(a)) by {
                            assert(0 < a.len() && a[0] == '\u{1b}' && a[1] == '[' && param_end(
                                a,
                                2,
                            ) >= a.len());
                        }
                        assert(safe_head(b));
                        assert(forall|k: int| 2 <= k < e ==> is_csi_param(ab[k]));
                        if b.len() == 0 {
                            assert(ab =~= a);
                            lemma_param_end_is(ab, 2, e);
                            assert(csi_match_len(ab) == 0);
                        } else {
                            assert(ab[e] == b[0]);
                            assert(!is_csi_param(ab[e]));
                            lemma_param_end_is(ab, 2, e);
                            assert(!is_csi_final(ab[e]));
                            assert(csi_match_len(ab) == 0);
                        }
                    }
                }
            } else {
                assert(ab[0] == a[0]);
                assert(csi_match_len(ab) == 0);
            }
            assert(ab.skip(1) =~= a.skip(1) + b);
            if !dangling_escape(a) {
                if dangling_escape(a.skip(1)) {
                    lemma_dangling_skip(a, 1);
                }
            }
            lemma_strip_append(a.skip(1), b);
            assert(strip_ansi(ab) == seq![a[0]] + (strip_ansi(a.skip(1)) + strip_ansi(b)));
            assert(seq![a[0]] + (strip_ansi(a.skip(1)) + strip_ansi(b)) =~= (seq![a[0]]
                + strip_ansi(a.skip(1))) + strip_ansi(b));
        }
    }
}

/// A string without escape characters is kept whole by `strip_ansi`, and
/// ends with no unfinished CSI sequence.
pub proof fn lemma_strip_esc_free(s: Seq<char>)
    requires
        esc_free(s),
    ensures
        strip_ansi(s) == s,
        !dangling_escape(s),
    decreases s.len(),
{
    if s.len() > 0 {
        assert(csi_match_len(s) == 0);
        assert(esc_free(s.skip(1)));
        lemma_strip_esc_free(s.skip(1));
        assert(seq![s[0]] + s.skip(1) =~= s);
    }
}

/// Returns the visible form of `input`: every complete CSI escape sequence
/// removed, all other characters kept in order.
pub fn strip_ansi_codes(input: &str) -> (r: String)
    ensures
        r@ == strip_ansi(input@),
{
    let n = input.unicode_len();
    let mut out = String::new();
    let mut i: usize = 0;
    proof {
        assert(input@.skip(0) =~= input@);
        assert(out@ + strip_ansi(input@) =~= strip_ansi(input@));
    }
    while i < n
        invariant
            n == input@.len(),
            i <= n,
            strip_ansi(input@) == out@ + strip_ansi(input@.skip(i as int)),
        decreases n - i,
    {
        let ghost rest = input@.skip(i as int);
        proof {
            assert(rest.len() == n - i);
            assert(forall|k: int| 0 <= k < rest.len() ==> rest[k] == input@[i + k]);
        }
        let c = input.get_char(i);
        let mut matched: bool = false;
        if c == '\u{1b}' && i + 1 < n && input.get_char(i + 1) == '[' {
            let mut j: usize = i + 2;
            while j < n && is_param_char(input.get_char(j))
                invariant
                    n == input@.len(),
                    i + 2 <= j <= n,
                    forall|k: int| i + 2 <= k < j ==> is_csi_param(input@[k]),
                decreases n - j,
            {
                j += 1;
            }
            proof {
                lemma_param_end_is(rest, 2, j - i);
            }
            if j < n && is_final_char(input.get_char(j)) {
                proof {
                    assert(csi_match_len(rest) == j - i + 1);
                    assert(rest.skip(j - i + 1) =~= input@.skip(j + 1));
                    assert(strip_ansi(rest) == strip_ansi(input@.skip(j + 1)));
                }
                i = j + 1;
                matched = true;
            } else {
                proof {
                    assert(csi_match_len(rest) == 0);
                }
            }
        } else {
            proof {
                if c == '\u{1b}' {
                    assert(rest.len() == 1 || rest[1] != '[');
                }
                assert(csi_match_len(rest) == 0);
            }
        }
        if !matched {
            proof {
                assert(strip_ansi(rest) == seq![rest[0]] + strip_ansi(rest.skip(1)));
                assert(rest.skip(1) =~= input@.skip(i + 1));
            }
            push_char(&mut out, c);
            i += 1;
        }
    }
    proof {
        assert(input@.skip(n as int) =~= Seq::<char>::empty());
        assert(out@ + Seq::<char>::empty() =~= out@);
    }
    out
}

/// Executable test for a CSI parameter character.
fn is_param_char(c: char) -> (r: bool)
    ensures
        r == is_csi_param(c),
{
    ('0' <= c && c <= '9') || c == ';'
}

/// Executable test for a CSI final character.
fn is_final_char(c: char) -> (r: bool)
    ensures
        r == is_csi_final(c),
{
    ('a' <= c && c <= 'z') || ('A' <= c && c <= 'Z')
}

/// Returns the number of visibly printed characters of `input`: its length
/// once every complete CSI escape sequence is removed.
pub fn visible_width(input: &str) -> (r: usize)
    ensures
        r == visible_width_of(input@),
{
    let stripped = strip_ansi_codes(input);
    stripped.as_str().unicode_len()
}

} // verus!
