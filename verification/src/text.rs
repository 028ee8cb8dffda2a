//! Small string utilities shared by the filter, render and store modules.

use vstd::prelude::*;

verus! {

/// Relies on std's `String::push`: appends the given character at the end
/// of the string.
#[verifier::external_body]
pub fn push_char(s: &mut String, c: char)
    ensures
        final(s)@ == old(s)@.push(c),
{
    s.push(c)
}

/// The lowercase form of a string, as std's Unicode case mapping produces
/// it; it depends on the characters of the string alone.
pub uninterp spec fn lower_of(s: Seq<char>) -> Seq<char>;

/// Relies on std's `str::to_lowercase`: the result is the Unicode
/// lowercase form of the string, a function of its characters alone.
#[verifier::external_body]
pub fn to_lowercase(s: &str) -> (r: String)
    ensures
        r@ == lower_of(s@),
{
    s.to_lowercase()
}

/// Holds when `needle` occurs contiguously somewhere in `hay`.
pub open spec fn contains_seq(hay: Seq<char>, needle: Seq<char>) -> bool {
    exists|i: int|
        0 <= i && i + needle.len() <= hay.len() && #[trigger] hay.subrange(i, i + needle.len())
            == needle
}

fn match_at(hay: &str, needle: &str, i: usize, n: usize, m: usize) -> (r: bool)
    requires
        n == hay@.len(),
        m == needle@.len(),
        i + m <= n,
    ensures
        r == (hay@.subrange(i as int, i + m) == needle@),
{
    let mut j: usize = 0;
    while j < m
        invariant
            n == hay@.len(),
            m == needle@.len(),
            i + m <= n,
            j <= m,
            forall|k: int| 0 <= k < j ==> hay@[i + k] == needle@[k],
        decreases m - j,
    {
        if hay.get_char(i + j) != needle.get_char(j) {
            proof {
                assert(hay@.subrange(i as int, i + m)[j as int] != needle@[j as int]);
            }
            return false;
        }
        j += 1;
    }
    proof {
        assert(hay@.subrange(i as int, i + m) =~= needle@);
    }
    true
}

/// Returns whether `needle` occurs contiguously in `hay`.
pub fn contains_str(hay: &str, needle: &str) -> (r: bool)
    ensures
        r == contains_seq(hay@, needle@),
{
    let n = hay.unicode_len();
    let m = needle.unicode_len();
    if m > n {
        return false;
    }
    let mut i: usize = 0;
    loop
        invariant
            n == hay@.len(),
            m == needle@.len(),
            m <= n,
            i <= n - m,
            forall|k: int|
                0 <= k < i ==> #[trigger] hay@.subrange(k, k + needle@.len()) != needle@,
        ensures
            !contains_seq(hay@, needle@),
        decreases n - m - i,
    {
        if match_at(hay, needle, i, n, m) {
            return true;
        }
        if i == n - m {
            proof {
                assert(forall|k: int|
                    0 <= k && k + needle@.len() <= hay@.len() ==> #[trigger] hay@.subrange(
                        k,
                        k + needle@.len(),
                    ) != needle@);
            }
            break ;
        }
        i += 1;
    }
    false
}

pub open spec fn is_dec_digit(c: char) -> bool {
    '0' <= c && c <= '9'
}

pub open spec fn digit_char(d: int) -> char {
    ((48 + d) as u8) as char
}

/// The numeric value of a string of decimal digits.
pub open spec fn dec_val(s: Seq<char>) -> int
    decreases s.len(),
{
    if s.len() == 0 {
        0
    } else {
        dec_val(s.drop_last()) * 10 + (s.last() as int - 48)
    }
}

/// The decimal representation of a non-negative integer, most significant
/// digit first, with no leading zeros (a lone zero for 0).
pub open spec fn dec_rep(n: int) -> Seq<char>
    decreases n,
{
    if n <= 9 {
        seq![digit_char(if n < 0 { 0 } else { n })]
    } else {
        dec_rep(n / 10).push(digit_char(n % 10))
    }
}

/// Renders an integer in decimal.
pub fn u32_to_string(n: u32) -> (r: String)
    ensures
        r@ == dec_rep(n as int),
    decreases n,
{
    let mut r = if n >= 10 {
        u32_to_string(n / 10)
    } else {
        String::new()
    };
    let d: u8 = 48 + (n % 10) as u8;
    push_char(&mut r, d as char);
    proof {
        if n <= 9 {
            assert(r@ =~= seq![digit_char(n as int)]);
        }
    }
    r
}

/// Every character of a decimal representation is a digit; in particular
/// none is the escape character, and the representation is never empty.
pub proof fn lemma_dec_rep_digits(n: int)
    ensures
        dec_rep(n).len() >= 1,
        forall|i: int| 0 <= i < dec_rep(n).len() ==> is_dec_digit(#[trigger] dec_rep(n)[i]),
    decreases n,
{
    if n > 9 {
        lemma_dec_rep_digits(n / 10);
        assert(dec_rep(n) == dec_rep(n / 10).push(digit_char(n % 10)));
        assert(is_dec_digit(digit_char(n % 10)));
    } else {
        let d: int = if n < 0 {
            0
        } else {
            n
        };
        assert(is_dec_digit(digit_char(d)));
    }
}

proof fn lemma_dec_val_nonneg(s: Seq<char>)
    requires
        forall|i: int| 0 <= i < s.len() ==> is_dec_digit(#[trigger] s[i]),
    ensures
        dec_val(s) >= 0,
    decreases s.len(),
{
    if s.len() > 0 {
        lemma_dec_val_nonneg(s.drop_last());
        assert(s.last() as int >= '0' as int);
    }
}

proof fn lemma_dec_val_prefix_le(s: Seq<char>, j: int)
    requires
        forall|i: int| 0 <= i < s.len() ==> is_dec_digit(#[trigger] s[i]),
        0 <= j <= s.len(),
    ensures
        dec_val(s.take(j)) <= dec_val(s),
    decreases s.len(),
{
    if j == s.len() {
        assert(s.take(j) =~= s);
    } else {
        assert(s.drop_last() =~= s.take(s.len() - 1));
        assert(s.take(j) =~= s.drop_last().take(j));
        lemma_dec_val_prefix_le(s.drop_last(), j);
        lemma_dec_val_nonneg(s.drop_last());
        assert(s.last() as int >= '0' as int);
    }
}

/// The digits of a numeric literal: an optional leading plus sign is not
/// part of them.
pub open spec fn digits_part(s: Seq<char>) -> Seq<char> {
    if s.len() > 0 && s[0] == '+' {
        s.skip(1)
    } else {
        s
    }
}

/// Holds when `s` is a decimal literal (optionally signed `+`) whose value
/// fits in a `u32`.
pub open spec fn valid_u32_literal(s: Seq<char>) -> bool {
    let d = digits_part(s);
    d.len() > 0 && (forall|i: int| 0 <= i < d.len() ==> is_dec_digit(#[trigger] d[i])) && dec_val(
        d,
    ) <= u32::MAX as int
}

/// Parses a decimal `u32`, accepting an optional leading plus sign;
/// returns `None` exactly on inputs that are not in-range decimal
/// literals.
pub fn parse_u32(s: &str) -> (r: Option<u32>)
    ensures
        r is Some <==> valid_u32_literal(s@),
        r is Some ==> r.unwrap() as int == dec_val(digits_part(s@)),
{
    let n = s.unicode_len();
    let start: usize = if n > 0 && s.get_char(0) == '+' {
        1
    } else {
        0
    };
    let ghost d = digits_part(s@);
    proof {
        assert(d =~= s@.skip(start as int));
    }
    if n == start {
        return None;
    }
    let mut acc: u64 = 0;
    let mut i: usize = start;
    while i < n
        invariant
            n == s@.len(),
            start <= i <= n,
            d == digits_part(s@),
            d == s@.skip(start as int),
            forall|k: int| 0 <= k < i - start ==> is_dec_digit(#[trigger] d[k]),
            acc as int == dec_val(d.take(i - start)),
            acc <= u32::MAX as u64,
        decreases n - i,
    {
        let c = s.get_char(i);
        proof {
            assert(d[i - start] == s@[i as int]);
        }
        if !('0' <= c && c <= '9') {
            proof {
                assert(!is_dec_digit(d[i - start]));
                assert(!valid_u32_literal(s@));
            }
            return None;
        }
        let v: u64 = c as u64 - 48;
        proof {
            assert(d.take(i + 1 - start).drop_last() =~= d.take(i - start));
            assert(d.take(i + 1 - start).last() == d[i - start]);
        }
        let next: u64 = acc * 10 + v;
        if next > u32::MAX as u64 {
            proof {
                assert(dec_val(d.take(i + 1 - start)) > u32::MAX as int);
                assert(!valid_u32_literal(s@)) by {
                    if valid_u32_literal(s@) {
                        assert(forall|k: int|
                            0 <= k < d.len() ==> is_dec_digit(#[trigger] d[k]));
                        lemma_dec_val_prefix_le(d, i + 1 - start);
                        assert(dec_val(d) >= dec_val(d.take(i + 1 - start)));
                    }
                }
            }
            return None;
        }
        acc = next;
        i += 1;
    }
    proof {
        assert(d.take(n - start) =~= d);
    }
    Some(acc as u32)
}

/// A whitespace character as far as term lists are concerned.
pub open spec fn is_term_space(c: char) -> bool {
    c == ' ' || c == '\t' || c == '\n' || c == '\r'
}

/// `s` with leading whitespace removed.
pub open spec fn trim_front(s: Seq<char>) -> Seq<char>
    decreases s.len(),
{
    if s.len() > 0 && is_term_space(s[0]) {
        trim_front(s.skip(1))
    } else {
        s
    }
}

/// `s` with trailing whitespace removed.
pub open spec fn trim_back(s: Seq<char>) -> Seq<char>
    decreases s.len(),
{
    if s.len() > 0 && is_term_space(s.last()) {
        trim_back(s.drop_last())
    } else {
        s
    }
}

/// `s` with leading and trailing whitespace removed.
pub open spec fn trimmed(s: Seq<char>) -> Seq<char> {
    trim_back(trim_front(s))
}

proof fn lemma_trim_front_is(s: Seq<char>, a: int)
    requires
        0 <= a <= s.len(),
        forall|k: int| 0 <= k < a ==> is_term_space(#[trigger] s[k]),
        a == s.len() || !is_term_space(s[a]),
    ensures
        trim_front(s) == s.skip(a),
    decreases a,
{
    if a == 0 {
        assert(s.skip(0) =~= s);
    } else {
        let t = s.skip(1);
        assert(forall|k: int| 0 <= k < a - 1 ==> is_term_space(#[trigger] t[k]));
        lemma_trim_front_is(t, a - 1);
        assert(t.skip(a - 1) =~= s.skip(a));
    }
}

proof fn lemma_trim_back_is(s: Seq<char>, b: int)
    requires
        0 <= b <= s.len(),
        forall|k: int| b <= k < s.len() ==> is_term_space(#[trigger] s[k]),
        b == 0 || !is_term_space(s[b - 1]),
    ensures
        trim_back(s) == s.take(b),
    decreases s.len(),
{
    if b == s.len() {
        if s.len() > 0 && is_term_space(s.last()) {
            assert(false);
        }
        assert(s.take(b) =~= s);
    } else {
        let t = s.drop_last();
        assert(is_term_space(s.last()));
        lemma_trim_back_is(t, b);
        assert(t.take(b) =~= s.take(b));
    }
}

fn is_space_char(c: char) -> (r: bool)
    ensures
        r == is_term_space(c),
{
    c == ' ' || c == '\t' || c == '\n' || c == '\r'
}

/// Returns `s` with leading and trailing whitespace removed.
pub fn trim_spaces(s: &str) -> (r: String)
    ensures
        r@ == trimmed(s@),
{
    let n = s.unicode_len();
    let mut a: usize = 0;
    while a < n && is_space_char(s.get_char(a))
        invariant
            n == s@.len(),
            a <= n,
            forall|k: int| 0 <= k < a ==> is_term_space(#[trigger] s@[k]),
        decreases n - a,
    {
        a += 1;
    }
    proof {
        lemma_trim_front_is(s@, a as int);
    }
    if a == n {
        proof {
            assert(s@.skip(a as int) =~= Seq::<char>::empty());
        }
        return String::new();
    }
    let mut b: usize = n;
    while b > a + 1 && is_space_char(s.get_char(b - 1))
        invariant
            n == s@.len(),
            a < b <= n,
            !is_term_space(s@[a as int]),
            forall|k: int| b <= k < n ==> is_term_space(#[trigger] s@[k]),
        decreases b,
    {
        b -= 1;
    }
    let ghost t = s@.skip(a as int);
    proof {
        assert(forall|k: int| 0 <= k < t.len() ==> t[k] == s@[a + k]);
        assert(b - a == 0 || !is_term_space(t[b - a - 1]));
        lemma_trim_back_is(t, b - a);
    }
    let mut r = String::new();
    let mut i: usize = a;
    while i < b
        invariant
            n == s@.len(),
            a <= i <= b <= n,
            r@ == s@.subrange(a as int, i as int),
        decreases b - i,
    {
        push_char(&mut r, s.get_char(i));
        proof {
            assert(s@.subrange(a as int, i as int).push(s@[i as int]) =~= s@.subrange(
                a as int,
                i + 1,
            ));
        }
        i += 1;
    }
    proof {
        assert(t.take(b - a) =~= s@.subrange(a as int, b as int));
    }
    r
}

/// First index at or after `i` that holds a comma (or the end of the
/// string).
pub open spec fn comma_end(s: Seq<char>, i: int) -> int
    decreases s.len() - i,
{
    if 0 <= i && i < s.len() && s[i] != ',' {
        comma_end(s, i + 1)
    } else {
        i
    }
}

proof fn lemma_comma_end_is(s: Seq<char>, i: int, e: int)
    requires
        0 <= i <= e <= s.len(),
        forall|k: int| i <= k < e ==> #[trigger] s[k] != ',',
        e == s.len() || s[e] == ',',
    ensures
        comma_end(s, i) == e,
    decreases e - i,
{
    if i < e {
        lemma_comma_end_is(s, i + 1, e);
    }
}

/// The pieces of `s` between commas, in order; a string without commas is
/// one piece, and the empty string is one empty piece.
pub open spec fn split_commas(s: Seq<char>) -> Seq<Seq<char>>
    decreases s.len(),
    via split_commas_decreases
{
    let e = comma_end(s, 0);
    if e >= s.len() {
        seq![s]
    } else {
        seq![s.take(e)] + split_commas(s.skip(e + 1))
    }
}

#[via_fn]
proof fn split_commas_decreases(s: Seq<char>) {
    lemma_comma_end_bounds(s, 0);
}

proof fn lemma_comma_end_bounds(s: Seq<char>, i: int)
    requires
        0 <= i <= s.len(),
    ensures
        i <= comma_end(s, i) <= s.len(),
    decreases s.len() - i,
{
    if i < s.len() && s[i] != ',' {
        lemma_comma_end_bounds(s, i + 1);
    }
}

/// The comma-separated terms of `s`: each piece with its surrounding
/// whitespace removed.
pub open spec fn terms_of(s: Seq<char>) -> Seq<Seq<char>> {
    split_commas(s).map_values(|t: Seq<char>| trimmed(t))
}

/// Splits `s` at commas and trims each piece.
pub fn split_and_trim(s: &str) -> (r: Vec<String>)
    ensures
        r@.len() == terms_of(s@).len(),
        forall|i: int| 0 <= i < r@.len() ==> #[trigger] r@[i]@ == terms_of(s@)[i],
{
    proof {
        assert(terms_of(s@).len() == split_commas(s@).len());
    }
    let n = s.unicode_len();
    let mut out: Vec<String> = Vec::new();
    let mut start: usize = 0;
    let ghost mut done: Seq<Seq<char>> = Seq::empty();
    proof {
        assert(s@.skip(0) =~= s@);
        assert(done + split_commas(s@) =~= split_commas(s@));
    }
    loop
        invariant_except_break
            split_commas(s@) == done + split_commas(s@.skip(start as int)),
        invariant
            n == s@.len(),
            start <= n,
            out@.len() == done.len(),
            forall|i: int| 0 <= i < done.len() ==> #[trigger] out@[i]@ == trimmed(done[i]),
        ensures
            done == split_commas(s@),
            out@.len() == done.len(),
            forall|i: int| 0 <= i < done.len() ==> #[trigger] out@[i]@ == trimmed(done[i]),
        decreases n - start,
    {
        let ghost t = s@.skip(start as int);
        proof {
            assert(forall|k: int| 0 <= k < t.len() ==> t[k] == s@[start + k]);
        }
        let mut j: usize = start;
        while j < n && s.get_char(j) != ','
            invariant
                n == s@.len(),
                start <= j <= n,
                forall|k: int| start <= k < j ==> #[trigger] s@[k] != ',',
            decreases n - j,
        {
            j += 1;
        }
        proof {
            lemma_comma_end_is(t, 0, j - start);
        }
        let piece = s.substring_char(start, j);
        let term = trim_spaces(piece);
        out.push(term);
        proof {
            assert(piece@ =~= t.take(j - start));
        }
        if j == n {
            proof {
                assert(t.take(j - start) =~= t);
                assert(split_commas(t) =~= seq![t]);
                assert(split_commas(s@) =~= done + seq![t]);
                done = done + seq![t];
            }
            break ;
        }
        proof {
            assert(split_commas(t) == seq![t.take(j - start)] + split_commas(t.skip(j - start
                + 1)));
            assert(t.skip(j - start + 1) =~= s@.skip(j + 1));
            assert(done + (seq![t.take(j - start)] + split_commas(s@.skip(j + 1))) =~= (done
                + seq![t.take(j - start)]) + split_commas(s@.skip(j + 1)));
            done = done + seq![t.take(j - start)];
        }
        start = j + 1;
    }
    out
}

/// Returns a string of `n` spaces.
pub fn spaces(n: usize) -> (r: String)
    ensures
        r@ == Seq::new(n as nat, |i: int| ' '),
{
    let mut r = String::new();
    let mut i: usize = 0;
    while i < n
        invariant
            i <= n,
            r@ == Seq::new(i as nat, |k: int| ' '),
        decreases n - i,
    {
        push_char(&mut r, ' ');
        proof {
            assert(r@ =~= Seq::new((i + 1) as nat, |k: int| ' '));
        }
        i += 1;
    }
    r
}

} // verus!
