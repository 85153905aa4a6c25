//! Text utilities for the assembler: separator-based tokenizing, line
//! trimming, and decimal parsing/rendering, all specified over `Seq<char>`.

use vstd::prelude::*;

verus! {

/// Whitespace characters that may separate tokens within a line.
pub open spec fn is_ws(c: char) -> bool {
    c == ' ' || c == '\t' || c == '\r'
}

/// The three separator classes used when splitting source text.
#[derive(Clone, Copy, PartialEq, Eq, Structural)]
pub enum SepKind {
    /// Splitting source text into lines.
    Line,
    /// Splitting an instruction or directive line into terms.
    Inst,
    /// Splitting a `name = value` declaration.
    Assign,
}

pub open spec fn is_sep(k: SepKind, c: char) -> bool {
    match k {
        SepKind::Line => c == '\n',
        SepKind::Inst => is_ws(c) || c == ',',
        SepKind::Assign => is_ws(c) || c == '=',
    }
}

fn is_sep_exec(k: SepKind, c: char) -> (b: bool)
    ensures
        b == is_sep(k, c),
{
    match k {
        SepKind::Line => c == '\n',
        SepKind::Inst => c == ' ' || c == '\t' || c == '\r' || c == ',',
        SepKind::Assign => c == ' ' || c == '\t' || c == '\r' || c == '=',
    }
}

/// Length of the leading run of non-separator characters.
pub open spec fn token_len(k: SepKind, s: Seq<char>) -> int
    decreases s.len(),
{
    if s.len() == 0 || is_sep(k, s.first()) {
        0
    } else {
        1 + token_len(k, s.drop_first())
    }
}

pub proof fn lemma_token_len_bounds(k: SepKind, s: Seq<char>)
    ensures
        0 <= token_len(k, s) <= s.len(),
        s.len() > 0 && !is_sep(k, s.first()) ==> 1 <= token_len(k, s),
    decreases s.len(),
{
    if s.len() > 0 && !is_sep(k, s.first()) {
        lemma_token_len_bounds(k, s.drop_first());
    }
}

/// The non-empty maximal runs of non-separator characters, in order.
pub open spec fn tokens_of(k: SepKind, s: Seq<char>) -> Seq<Seq<char>>
    decreases s.len(),
    via tokens_of_decreases
{
    if s.len() == 0 {
        Seq::empty()
    } else if is_sep(k, s.first()) {
        tokens_of(k, s.drop_first())
    } else {
        seq![s.take(token_len(k, s))] + tokens_of(k, s.skip(token_len(k, s)))
    }
}

#[via_fn]
proof fn tokens_of_decreases(k: SepKind, s: Seq<char>) {
    lemma_token_len_bounds(k, s);
}

/// Exact character comparison of two string slices.
pub fn str_eq(a: &str, b: &str) -> (r: bool)
    ensures
        r == (a@ == b@),
{
    let na = a.unicode_len();
    let nb = b.unicode_len();
    if na != nb {
        return false;
    }
    for i in 0..na
        invariant
            na == a@.len(),
            na == b@.len(),
            forall|m: int| 0 <= m < i ==> a@[m] == b@[m],
    {
        if a.get_char(i) != b.get_char(i) {
            return false;
        }
    }
    proof {
        assert(a@ =~= b@);
    }
    true
}

/// Splits `s` into the tokens given by `tokens_of`.
pub fn tokenize(k: SepKind, s: &str) -> (r: Vec<String>)
    ensures
        r.deep_view() == tokens_of(k, s@),
{
    let n = s.unicode_len();
    let mut r: Vec<String> = Vec::new();
    let mut i: usize = 0;
    proof {
        assert(s@.skip(0) =~= s@);
        assert(r.deep_view() =~= Seq::<Seq<char>>::empty());
        assert(Seq::<Seq<char>>::empty() + tokens_of(k, s@) =~= tokens_of(k, s@));
    }
    while i < n
        invariant
            n == s@.len(),
            i <= n,
            tokens_of(k, s@) == r.deep_view() + tokens_of(k, s@.skip(i as int)),
        decreases n - i,
    {
        let c = s.get_char(i);
        if is_sep_exec(k, c) {
            proof {
                assert(s@.skip(i as int).drop_first() =~= s@.skip(i + 1));
            }
            i += 1;
        } else {
            let ghost rest = s@.skip(i as int);
            let start = i;
            let mut j = i + 1;
            proof {
                assert(rest.drop_first() =~= s@.skip(i + 1));
            }
            while j < n && !is_sep_exec(k, s.get_char(j))
                invariant
                    n == s@.len(),
                    start < j <= n,
                    rest == s@.skip(start as int),
                    token_len(k, rest) == (j - start) + token_len(k, s@.skip(j as int)),
                decreases n - j,
            {
                proof {
                    assert(s@.skip(j as int).drop_first() =~= s@.skip(j + 1));
                }
                j += 1;
            }
            proof {
                // The scan stopped at the end or at a separator, so the token
                // ends exactly at j.
                assert(token_len(k, s@.skip(j as int)) == 0);
                assert(token_len(k, rest) == j - start);
                assert(rest.take(j - start) =~= s@.subrange(start as int, j as int));
                assert(rest.skip(j - start) =~= s@.skip(j as int));
            }
            let tok = s.substring_char(start, j).to_owned();
            let ghost old_dv = r.deep_view();
            r.push(tok);
            proof {
                assert(r.deep_view() =~= old_dv.push(tok@));
                assert(old_dv.push(tok@) =~= old_dv + seq![tok@]);
                assert(tokens_of(k, s@) == r.deep_view() + tokens_of(k, s@.skip(j as int)));
            }
            i = j;
        }
    }
    proof {
        assert(s@.skip(n as int) =~= Seq::<char>::empty());
        assert(r.deep_view() =~= r.deep_view() + tokens_of(k, s@.skip(n as int)));
    }
    r
}

/// Number of leading whitespace characters.
pub open spec fn lead_ws(s: Seq<char>) -> int
    decreases s.len(),
{
    if s.len() == 0 || !is_ws(s.first()) {
        0
    } else {
        1 + lead_ws(s.drop_first())
    }
}

/// Number of trailing whitespace characters.
pub open spec fn trail_ws(s: Seq<char>) -> int
    decreases s.len(),
{
    if s.len() == 0 || !is_ws(s.last()) {
        0
    } else {
        1 + trail_ws(s.drop_last())
    }
}

/// `s` with leading and trailing whitespace removed.
pub open spec fn trim_of(s: Seq<char>) -> Seq<char> {
    if lead_ws(s) == s.len() {
        Seq::empty()
    } else {
        s.subrange(lead_ws(s), s.len() - trail_ws(s))
    }
}

pub proof fn lemma_lead_ws(s: Seq<char>)
    ensures
        0 <= lead_ws(s) <= s.len(),
        forall|m: int| 0 <= m < lead_ws(s) ==> is_ws(s[m]),
        lead_ws(s) < s.len() ==> !is_ws(s[lead_ws(s)]),
    decreases s.len(),
{
    if s.len() > 0 && is_ws(s.first()) {
        lemma_lead_ws(s.drop_first());
        assert forall|m: int| 0 <= m < lead_ws(s) implies is_ws(s[m]) by {
            if m > 0 {
                assert(s.drop_first()[m - 1] == s[m]);
            }
        }
    }
}

pub proof fn lemma_trail_ws(s: Seq<char>)
    ensures
        0 <= trail_ws(s) <= s.len(),
        forall|m: int| s.len() - trail_ws(s) <= m < s.len() ==> is_ws(s[m]),
        trail_ws(s) < s.len() ==> !is_ws(s[s.len() - trail_ws(s) - 1]),
    decreases s.len(),
{
    if s.len() > 0 && is_ws(s.last()) {
        lemma_trail_ws(s.drop_last());
        assert forall|m: int| s.len() - trail_ws(s) <= m < s.len() implies is_ws(s[m]) by {
            if m < s.len() - 1 {
                assert(s[m] == s.drop_last()[m]);
            }
        }
    }
}

/// When the string is not all whitespace, the first and last non-whitespace
/// positions are in order.
pub proof fn lemma_trim_bounds(s: Seq<char>)
    ensures
        lead_ws(s) < s.len() ==> lead_ws(s) <= s.len() - trail_ws(s),
        lead_ws(s) == s.len() ==> trail_ws(s) == s.len(),
{
    lemma_lead_ws(s);
    lemma_trail_ws(s);
    if lead_ws(s) < s.len() {
        if lead_ws(s) > s.len() - trail_ws(s) {
            assert(is_ws(s[lead_ws(s)]));
        }
    } else {
        if trail_ws(s) < s.len() {
            assert(is_ws(s[s.len() - trail_ws(s) - 1]));
        }
    }
}

/// Removes leading and trailing whitespace.
pub fn trim(s: &str) -> (r: String)
    ensures
        r@ == trim_of(s@),
{
    proof {
        lemma_lead_ws(s@);
        lemma_trail_ws(s@);
        lemma_trim_bounds(s@);
    }
    let n = s.unicode_len();
    let mut a: usize = 0;
    while a < n && is_ws_exec(s.get_char(a))
        invariant
            n == s@.len(),
            a <= n,
            forall|m: int| 0 <= m < a ==> is_ws(s@[m]),
        decreases n - a,
    {
        a += 1;
    }
    proof {
        assert(a as int == lead_ws(s@));
    }
    if a == n {
        return String::new();
    }
    let mut b: usize = n;
    while b > 0 && is_ws_exec(s.get_char(b - 1))
        invariant
            n == s@.len(),
            b <= n,
            forall|m: int| b <= m < n ==> is_ws(s@[m]),
        decreases b,
    {
        b -= 1;
    }
    proof {
        assert(n - b == trail_ws(s@));
    }
    s.substring_char(a, b).to_owned()
}

fn is_ws_exec(c: char) -> (b: bool)
    ensures
        b == is_ws(c),
{
    c == ' ' || c == '\t' || c == '\r'
}

/// A line worth processing: non-blank and not a comment after trimming.
pub open spec fn keep_line(s: Seq<char>) -> bool {
    trim_of(s).len() > 0 && trim_of(s).first() != '#'
}

/// The trimmed meaningful lines among `ls`, in order.
pub open spec fn clean_lines(ls: Seq<Seq<char>>) -> Seq<Seq<char>>
    decreases ls.len(),
{
    if ls.len() == 0 {
        Seq::empty()
    } else if keep_line(ls.last()) {
        clean_lines(ls.drop_last()) + seq![trim_of(ls.last())]
    } else {
        clean_lines(ls.drop_last())
    }
}

/// The trimmed, non-blank, non-comment lines of a source text, in order.
/// Syntax errors are reported as 0-based indices into this sequence.
pub open spec fn meaningful_lines(src: Seq<char>) -> Seq<Seq<char>> {
    clean_lines(tokens_of(SepKind::Line, src))
}

/// Splits a source text into its trimmed meaningful lines.
pub fn split_meaningful_lines(src: &str) -> (r: Vec<String>)
    ensures
        r.deep_view() == meaningful_lines(src@),
{
    let raw = tokenize(SepKind::Line, src);
    let mut r: Vec<String> = Vec::new();
    let n = raw.len();
    for i in 0..n
        invariant
            n == raw.len(),
            r.deep_view() == clean_lines(raw.deep_view().take(i as int)),
    {
        let t = trim(raw[i].as_str());
        let keep = if t.unicode_len() == 0 {
            false
        } else {
            t.as_str().get_char(0) != '#'
        };
        let ghost old_dv = r.deep_view();
        if keep {
            r.push(t);
            proof {
                assert(r.deep_view() =~= old_dv + seq![trim_of(raw.deep_view()[i as int])]);
            }
        }
        proof {
            assert(raw.deep_view().take(i + 1).drop_last() =~= raw.deep_view().take(i as int));
            assert(raw.deep_view().take(i + 1).last() == raw.deep_view()[i as int]);
        }
    }
    proof {
        assert(raw.deep_view().take(n as int) =~= raw.deep_view());
    }
    r
}

// ---------------------------------------------------------------------------
// Decimal parsing and rendering
// ---------------------------------------------------------------------------

pub open spec fn is_digit(c: char) -> bool {
    48 <= c as int <= 57
}

pub open spec fn digit_val(c: char) -> int {
    c as int - 48
}

pub open spec fn all_digits(s: Seq<char>) -> bool {
    forall|i: int| 0 <= i < s.len() ==> is_digit(#[trigger] s[i])
}

/// The value of a digit string, most significant digit first.
pub open spec fn dec_val(s: Seq<char>) -> int
    decreases s.len(),
{
    if s.len() == 0 {
        0
    } else {
        dec_val(s.drop_last()) * 10 + digit_val(s.last())
    }
}

pub proof fn lemma_dec_val_nonneg(s: Seq<char>)
    requires
        all_digits(s),
    ensures
        dec_val(s) >= 0,
    decreases s.len(),
{
    if s.len() > 0 {
        assert(all_digits(s.drop_last())) by {
            assert(forall|i: int|
                0 <= i < s.len() - 1 ==> s.drop_last()[i] == #[trigger] s[i]);
        }
        lemma_dec_val_nonneg(s.drop_last());
    }
}

/// A digit string's value only grows as more digits are appended.
pub proof fn lemma_dec_val_mono(s: Seq<char>, i: int)
    requires
        all_digits(s),
        0 <= i <= s.len(),
    ensures
        dec_val(s.take(i)) <= dec_val(s),
    decreases s.len() - i,
{
    if i < s.len() {
        lemma_dec_val_mono(s, i + 1);
        assert(s.take(i + 1).drop_last() =~= s.take(i));
        assert(all_digits(s.take(i + 1))) by {
            assert(forall|m: int|
                0 <= m < i + 1 ==> s.take(i + 1)[m] == #[trigger] s[m]);
        }
        lemma_dec_val_nonneg(s.take(i + 1).drop_last());
        assert(dec_val(s.take(i + 1)) == dec_val(s.take(i)) * 10 + digit_val(s[i]));
        assert(digit_val(s[i]) >= 0);
    } else {
        assert(s.take(i) =~= s);
    }
}

/// A valid signed 32-bit decimal literal: an optional minus sign followed by
/// one or more digits, with the value in range for `i32`.
pub open spec fn is_i32_lit(s: Seq<char>) -> bool {
    if s.len() > 0 && s.first() == '-' {
        let d = s.drop_first();
        d.len() > 0 && all_digits(d) && dec_val(d) <= 0x8000_0000
    } else {
        s.len() > 0 && all_digits(s) && dec_val(s) <= 0x7fff_ffff
    }
}

pub open spec fn i32_lit_val(s: Seq<char>) -> int {
    if s.len() > 0 && s.first() == '-' {
        -dec_val(s.drop_first())
    } else {
        dec_val(s)
    }
}

/// Parses a signed decimal literal, rejecting anything out of `i32` range.
#[verifier::loop_isolation(false)]
pub fn parse_i32(s: &str) -> (r: Option<i32>)
    ensures
        r is Some <==> is_i32_lit(s@),
        r is Some ==> r->0 as int == i32_lit_val(s@),
{
    let n = s.unicode_len();
    if n == 0 {
        return None;
    }
    let neg = s.get_char(0) == '-';
    let start: usize = if neg {
        1
    } else {
        0
    };
    let ghost digits = s@.skip(start as int);
    proof {
        if neg {
            assert(digits =~= s@.drop_first());
        } else {
            assert(digits =~= s@);
        }
    }
    if start == n {
        return None;
    }
    let mut acc: u64 = 0;
    let mut i = start;
    while i < n
        invariant
            n == s@.len(),
            start <= i <= n,
            start < n,
            digits == s@.skip(start as int),
            all_digits(digits.take(i - start)),
            acc as int == dec_val(digits.take(i - start)),
            acc <= 0x8000_0000,
        decreases n - i,
    {
        let c = s.get_char(i);
        let u = c as u32;
        if u < 48 || u > 57 {
            // Not a digit: the literal is malformed.
            proof {
                assert(digits[i - start] == s@[i as int]);
                assert(!is_digit(digits[i - start]));
                if neg {
                    assert(s@.drop_first()[i - start] == digits[i - start]);
                    assert(!all_digits(s@.drop_first()));
                } else {
                    assert(s@[i - start] == digits[i - start]);
                    assert(!all_digits(s@));
                }
                assert(!is_i32_lit(s@));
            }
            return None;
        }
        let d = (u - 48) as u64;
        acc = acc * 10 + d;
        proof {
            assert(digits.take(i - start + 1).drop_last() =~= digits.take(i - start));
            assert(digits.take(i - start + 1).last() == s@[i as int]);
            assert(all_digits(digits.take(i - start + 1))) by {
                assert(forall|m: int|
                    0 <= m < i - start + 1 ==> digits.take(i - start + 1)[m] == #[trigger] digits.take(
                        i - start + 1,
                    )[m]);
            }
        }
        if acc > 0x8000_0000 {
            // Too large for any i32, and appending further digits can only
            // grow the value.
            proof {
                if all_digits(digits) {
                    lemma_dec_val_mono(digits, i - start + 1);
                    assert(dec_val(digits) > 0x8000_0000);
                }
                if neg {
                    assert(s@.drop_first() == digits);
                    assert(all_digits(s@.drop_first()) ==> dec_val(s@.drop_first())
                        > 0x8000_0000);
                } else {
                    assert(s@ == digits);
                }
                assert(!is_i32_lit(s@));
            }
            return None;
        }
        i += 1;
    }
    proof {
        assert(digits.take(n - start) =~= digits);
    }
    if neg {
        proof {
            lemma_dec_val_nonneg(digits);
        }
        let v = -(acc as i64);
        Some(v as i32)
    } else {
        if acc > 0x7fff_ffff {
            return None;
        }
        Some(acc as i32)
    }
}

pub open spec fn digit_char(d: int) -> char {
    if d == 0 {
        '0'
    } else if d == 1 {
        '1'
    } else if d == 2 {
        '2'
    } else if d == 3 {
        '3'
    } else if d == 4 {
        '4'
    } else if d == 5 {
        '5'
    } else if d == 6 {
        '6'
    } else if d == 7 {
        '7'
    } else if d == 8 {
        '8'
    } else {
        '9'
    }
}

/// The decimal rendering of a non-negative value, no sign, no leading zeros.
pub open spec fn u32_dec(n: int) -> Seq<char>
    decreases n,
{
    if n < 10 {
        seq![digit_char(n)]
    } else {
        u32_dec(n / 10) + seq![digit_char(n % 10)]
    }
}

/// The decimal rendering of a signed value.
pub open spec fn i32_dec(v: int) -> Seq<char> {
    if v < 0 {
        seq!['-'] + u32_dec(-v)
    } else {
        u32_dec(v)
    }
}

fn digit_str(d: u32) -> (r: &'static str)
    requires
        d < 10,
    ensures
        r@ =~= seq![digit_char(d as int)],
{
    proof {
        reveal_strlit("0");
        reveal_strlit("1");
        reveal_strlit("2");
        reveal_strlit("3");
        reveal_strlit("4");
        reveal_strlit("5");
        reveal_strlit("6");
        reveal_strlit("7");
        reveal_strlit("8");
        reveal_strlit("9");
    }
    match d {
        0 => "0",
        1 => "1",
        2 => "2",
        3 => "3",
        4 => "4",
        5 => "5",
        6 => "6",
        7 => "7",
        8 => "8",
        _ => "9",
    }
}

/// Appends the decimal rendering of `n`.
pub fn push_u32_dec(out: &mut String, n: u32)
    ensures
        final(out)@ == old(out)@ + u32_dec(n as int),
    decreases n,
{
    if n >= 10 {
        push_u32_dec(out, n / 10);
    }
    out.append(digit_str(n % 10));
    proof {
        if n >= 10 {
            assert(old(out)@ + u32_dec(n as int / 10) + seq![digit_char(n as int % 10)] =~= old(
                out,
            )@ + u32_dec(n as int));
        } else {
            assert(old(out)@ + seq![digit_char(n as int)] =~= old(out)@ + u32_dec(n as int));
        }
    }
}

/// Appends the decimal rendering of `v`, with a minus sign when negative.
pub fn push_i32_dec(out: &mut String, v: i32)
    ensures
        final(out)@ == old(out)@ + i32_dec(v as int),
{
    if v < 0 {
        proof {
            reveal_strlit("-");
        }
        out.append("-");
        let m = -(v as i64);
        let ghost mid = out@;
        push_u32_dec(out, m as u32);
        proof {
            assert(mid =~= old(out)@ + seq!['-']);
            assert(old(out)@ + seq!['-'] + u32_dec(-(v as int)) =~= old(out)@ + i32_dec(v as int));
        }
    } else {
        push_u32_dec(out, v as u32);
    }
}

// ---------------------------------------------------------------------------
// Case-insensitive comparison (ASCII letters only)
// ---------------------------------------------------------------------------

/// The character's scalar value with ASCII upper-case letters folded to
/// lower case.
pub open spec fn lower_u(c: char) -> int {
    if 65 <= c as int <= 90 {
        c as int + 32
    } else {
        c as int
    }
}

/// Equality up to ASCII case.
pub open spec fn eq_ci(a: Seq<char>, b: Seq<char>) -> bool {
    a.len() == b.len() && forall|i: int| 0 <= i < a.len() ==> lower_u(a[i]) == lower_u(#[trigger] b[i])
}

/// Compares two string slices ignoring ASCII case.
pub fn str_eq_ci(a: &str, b: &str) -> (r: bool)
    ensures
        r == eq_ci(a@, b@),
{
    let na = a.unicode_len();
    let nb = b.unicode_len();
    if na != nb {
        return false;
    }
    for i in 0..na
        invariant
            na == a@.len(),
            na == b@.len(),
            forall|m: int| 0 <= m < i ==> lower_u(a@[m]) == lower_u(#[trigger] b@[m]),
    {
        let ca = a.get_char(i) as u32;
        let cb = b.get_char(i) as u32;
        let fa = if 65 <= ca && ca <= 90 {
            ca + 32
        } else {
            ca
        };
        let fb = if 65 <= cb && cb <= 90 {
            cb + 32
        } else {
            cb
        };
        if fa != fb {
            return false;
        }
    }
    true
}

} // verus!
