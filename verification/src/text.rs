//! Character-level text helpers shared by the whole library: conversions between
//! strings and character vectors, ASCII case folding, Unicode whitespace, substring
//! search, decimal formatting and the grammar of unsigned integer literals.

use vstd::prelude::*;

verus! {

// ---------------------------------------------------------------------------
// conversions
// ---------------------------------------------------------------------------

/// Copies the characters of `s` into a vector.
pub fn chars_of(s: &str) -> (v: Vec<char>)
    ensures
        v@ == s@,
{
    broadcast use vstd::string::group_string_axioms;

    let mut v: Vec<char> = Vec::new();
    for c in it: s.chars()
        invariant
            v@ == it.seq().take(it.index() as int),
            it.seq() == s@,
    {
        v.push(c);
    }
    v
}

/// Collects a vector of characters into a `String` (`FromIterator<char>` of std).
#[verifier::external_body]
pub fn string_of(v: &Vec<char>) -> (s: String)
    ensures
        s@ == v@,
{
    v.iter().collect()
}

/// Appends the characters of `s` to `out`.
pub fn push_str(out: &mut Vec<char>, s: &str)
    ensures
        final(out)@ == old(out)@ + s@,
{
    let cs = chars_of(s);
    push_all(out, &cs);
}

/// Appends the characters of `src` to `out`.
pub fn push_all(out: &mut Vec<char>, src: &Vec<char>)
    ensures
        final(out)@ == old(out)@ + src@,
{
    let ghost start = out@;
    let mut i: usize = 0;
    while i < src.len()
        invariant
            i <= src.len(),
            out@ == start + src@.take(i as int),
        decreases src.len() - i,
    {
        out.push(src[i]);
        i = i + 1;
        assert(out@ =~= start + src@.take(i as int));
    }
    assert(src@.take(i as int) =~= src@);
}

/// Appends the characters `src[lo..hi]` to `out`.
pub fn push_range(out: &mut Vec<char>, src: &Vec<char>, lo: usize, hi: usize)
    requires
        lo <= hi <= src.len(),
    ensures
        final(out)@ == old(out)@ + src@.subrange(lo as int, hi as int),
{
    let ghost start = out@;
    let mut i: usize = lo;
    while i < hi
        invariant
            lo <= i <= hi <= src.len(),
            out@ == start + src@.subrange(lo as int, i as int),
        decreases hi - i,
    {
        out.push(src[i]);
        i = i + 1;
        assert(out@ =~= start + src@.subrange(lo as int, i as int));
    }
}

/// A fresh vector holding `src[lo..hi]`.
pub fn slice_of(src: &Vec<char>, lo: usize, hi: usize) -> (r: Vec<char>)
    requires
        lo <= hi <= src.len(),
    ensures
        r@ == src@.subrange(lo as int, hi as int),
{
    let mut r: Vec<char> = Vec::new();
    push_range(&mut r, src, lo, hi);
    r
}

/// A string holding `src[lo..hi]`.
pub fn string_of_range(src: &Vec<char>, lo: usize, hi: usize) -> (r: String)
    requires
        lo <= hi <= src.len(),
    ensures
        r@ == src@.subrange(lo as int, hi as int),
{
    let v = slice_of(src, lo, hi);
    string_of(&v)
}

/// Concatenation of two strings as a new string.
pub fn concat2(a: &str, b: &str) -> (r: String)
    ensures
        r@ == a@ + b@,
{
    let mut v = chars_of(a);
    push_str(&mut v, b);
    string_of(&v)
}

// ---------------------------------------------------------------------------
// character classes
// ---------------------------------------------------------------------------

/// `char::is_ascii_digit`.
pub open spec fn is_digit(c: char) -> bool {
    '0' <= c <= '9'
}

/// Numeric value of an ASCII digit.
pub open spec fn digit_value(c: char) -> nat {
    (c as int - '0' as int) as nat
}

/// `char::is_ascii_alphanumeric`.
pub open spec fn is_alnum(c: char) -> bool {
    is_digit(c) || ('a' <= c <= 'z') || ('A' <= c <= 'Z')
}

/// `char::to_ascii_lowercase`.
pub open spec fn lower(c: char) -> char {
    if 'A' <= c <= 'Z' {
        ((c as u32) + 32) as char
    } else {
        c
    }
}

/// Every character of `s` is ASCII.
pub open spec fn all_ascii(s: Seq<char>) -> bool {
    forall|i: int| 0 <= i < s.len() ==> (#[trigger] s[i] as u32) < 128
}

/// `str::to_ascii_lowercase`.
pub open spec fn lower_seq(s: Seq<char>) -> Seq<char> {
    s.map_values(|c: char| lower(c))
}

/// `char::is_whitespace`: the Unicode `White_Space` property.
pub open spec fn is_ws(c: char) -> bool {
    ||| ('\u{9}' <= c <= '\u{d}')
    ||| c == ' '
    ||| c == '\u{85}'
    ||| c == '\u{a0}'
    ||| c == '\u{1680}'
    ||| ('\u{2000}' <= c <= '\u{200a}')
    ||| c == '\u{2028}'
    ||| c == '\u{2029}'
    ||| c == '\u{202f}'
    ||| c == '\u{205f}'
    ||| c == '\u{3000}'
}

pub fn is_digit_exec(c: char) -> (b: bool)
    ensures
        b == is_digit(c),
{
    '0' <= c && c <= '9'
}

pub fn is_alnum_exec(c: char) -> (b: bool)
    ensures
        b == is_alnum(c),
{
    ('0' <= c && c <= '9') || ('a' <= c && c <= 'z') || ('A' <= c && c <= 'Z')
}

pub fn lower_exec(c: char) -> (r: char)
    ensures
        r == lower(c),
{
    if 'A' <= c && c <= 'Z' {
        let u: u32 = (c as u32) + 32;
        assert(u <= 0x7a);
        char_from_ascii(u)
    } else {
        c
    }
}

/// A character from a code point in the ASCII range.
pub fn char_from_ascii(u: u32) -> (c: char)
    requires
        u < 128,
    ensures
        c == u as char,
        c as u32 == u,
{
    let b: u8 = u as u8;
    b as char
}

pub fn is_ws_exec(c: char) -> (b: bool)
    ensures
        b == is_ws(c),
{
    ('\u{9}' <= c && c <= '\u{d}') || c == ' ' || c == '\u{85}' || c == '\u{a0}'
        || c == '\u{1680}' || ('\u{2000}' <= c && c <= '\u{200a}') || c == '\u{2028}'
        || c == '\u{2029}' || c == '\u{202f}' || c == '\u{205f}' || c == '\u{3000}'
}

/// ASCII-lowercased copy of `s`.
pub fn lower_vec(s: &Vec<char>) -> (r: Vec<char>)
    ensures
        r@ == lower_seq(s@),
{
    let mut r: Vec<char> = Vec::new();
    let mut i: usize = 0;
    while i < s.len()
        invariant
            i <= s.len(),
            r@ == lower_seq(s@.take(i as int)),
        decreases s.len() - i,
    {
        let c = lower_exec(s[i]);
        r.push(c);
        i = i + 1;
        assert(r@ =~= lower_seq(s@.take(i as int)));
    }
    assert(s@.take(i as int) =~= s@);
    r
}

// ---------------------------------------------------------------------------
// trimming
// ---------------------------------------------------------------------------

/// Number of leading characters of `s` satisfying `p`.
pub open spec fn lead_count(s: Seq<char>, p: spec_fn(char) -> bool) -> nat
    decreases s.len(),
{
    if s.len() > 0 && p(s[0]) {
        1 + lead_count(s.drop_first(), p)
    } else {
        0
    }
}

/// Number of trailing characters of `s` satisfying `p`.
pub open spec fn trail_count(s: Seq<char>, p: spec_fn(char) -> bool) -> nat
    decreases s.len(),
{
    if s.len() > 0 && p(s.last()) {
        1 + trail_count(s.drop_last(), p)
    } else {
        0
    }
}

/// `s` without its leading characters satisfying `p` (`trim_start_matches`).
pub open spec fn trim_start_by(s: Seq<char>, p: spec_fn(char) -> bool) -> Seq<char> {
    s.skip(lead_count(s, p) as int)
}

/// `s` without its trailing characters satisfying `p` (`trim_end_matches`).
pub open spec fn trim_end_by(s: Seq<char>, p: spec_fn(char) -> bool) -> Seq<char> {
    s.take(s.len() - trail_count(s, p))
}

/// `s` without leading and trailing characters satisfying `p` (`trim_matches`).
pub open spec fn trim_by(s: Seq<char>, p: spec_fn(char) -> bool) -> Seq<char> {
    trim_end_by(trim_start_by(s, p), p)
}

/// `str::trim`: strip leading and trailing Unicode whitespace.
pub open spec fn trim_ws(s: Seq<char>) -> Seq<char> {
    trim_by(s, |c: char| is_ws(c))
}

pub proof fn lemma_lead_count(s: Seq<char>, p: spec_fn(char) -> bool)
    ensures
        lead_count(s, p) <= s.len(),
        forall|i: int| 0 <= i < lead_count(s, p) ==> p(#[trigger] s[i]),
        lead_count(s, p) < s.len() ==> !p(s[lead_count(s, p) as int]),
    decreases s.len(),
{
    if s.len() > 0 && p(s[0]) {
        lemma_lead_count(s.drop_first(), p);
        assert forall|i: int| 0 <= i < lead_count(s, p) implies p(#[trigger] s[i]) by {
            if i > 0 {
                assert(s[i] == s.drop_first()[i - 1]);
            }
        }
    }
}

pub proof fn lemma_trail_count(s: Seq<char>, p: spec_fn(char) -> bool)
    ensures
        trail_count(s, p) <= s.len(),
        forall|i: int| s.len() - trail_count(s, p) <= i < s.len() ==> p(#[trigger] s[i]),
        trail_count(s, p) < s.len() ==> !p(s[s.len() - trail_count(s, p) - 1]),
    decreases s.len(),
{
    if s.len() > 0 && p(s.last()) {
        lemma_trail_count(s.drop_last(), p);
        assert forall|i: int| s.len() - trail_count(s, p) <= i < s.len() implies p(
            #[trigger] s[i],
        ) by {
            if i < s.len() - 1 {
                assert(s[i] == s.drop_last()[i]);
            }
        }
    }
}

/// The unique `k` at which the leading run of `p`-characters ends.
pub proof fn lemma_lead_count_unique(s: Seq<char>, p: spec_fn(char) -> bool, k: int)
    requires
        0 <= k <= s.len(),
        forall|i: int| 0 <= i < k ==> p(#[trigger] s[i]),
        k < s.len() ==> !p(s[k]),
    ensures
        lead_count(s, p) == k,
    decreases s.len(),
{
    if s.len() > 0 && p(s[0]) {
        assert(k > 0);
        assert forall|i: int| 0 <= i < k - 1 implies p(#[trigger] s.drop_first()[i]) by {
            assert(s.drop_first()[i] == s[i + 1]);
        }
        lemma_lead_count_unique(s.drop_first(), p, k - 1);
    } else {
        if k > 0 {
            assert(p(s[0]));
        }
    }
}

/// The unique `k` at which the trailing run of `p`-characters starts.
pub proof fn lemma_trail_count_unique(s: Seq<char>, p: spec_fn(char) -> bool, k: int)
    requires
        0 <= k <= s.len(),
        forall|i: int| k <= i < s.len() ==> p(#[trigger] s[i]),
        k > 0 ==> !p(s[k - 1]),
    ensures
        trail_count(s, p) == s.len() - k,
    decreases s.len(),
{
    if s.len() > 0 && p(s.last()) {
        assert(k < s.len());
        assert forall|i: int| k <= i < s.drop_last().len() implies p(
            #[trigger] s.drop_last()[i],
        ) by {
            assert(s.drop_last()[i] == s[i]);
        }
        lemma_trail_count_unique(s.drop_last(), p, k);
    } else {
        if k < s.len() {
            assert(p(s[s.len() - 1]));
        }
    }
}

/// Bounds `[lo, hi)` of `trim_ws(s[from..to])` inside `s`.
pub fn trim_ws_bounds(s: &Vec<char>, from: usize, to: usize) -> (r: (usize, usize))
    requires
        from <= to <= s.len(),
    ensures
        from <= r.0 <= r.1 <= to,
        s@.subrange(r.0 as int, r.1 as int) == trim_ws(s@.subrange(from as int, to as int)),
{
    let ghost p = |c: char| is_ws(c);
    let ghost t = s@.subrange(from as int, to as int);
    let mut lo = from;
    while lo < to && is_ws_exec(s[lo])
        invariant
            from <= lo <= to <= s.len(),
            forall|i: int| from <= i < lo ==> is_ws(#[trigger] s@[i]),
        decreases to - lo,
    {
        lo = lo + 1;
    }
    proof {
        assert forall|i: int| 0 <= i < lo - from implies p(#[trigger] t[i]) by {
            assert(t[i] == s@[from + i]);
        }
        lemma_lead_count_unique(t, p, lo - from);
    }
    let ghost u = trim_start_by(t, p);
    assert(u =~= s@.subrange(lo as int, to as int));
    let mut hi = to;
    while hi > lo && is_ws_exec(s[hi - 1])
        invariant
            lo <= hi <= to <= s.len(),
            forall|i: int| hi <= i < to ==> is_ws(#[trigger] s@[i]),
        decreases hi - lo,
    {
        hi = hi - 1;
    }
    proof {
        assert forall|i: int| hi - lo <= i < u.len() implies p(#[trigger] u[i]) by {
            assert(u[i] == s@[lo + i]);
        }
        if hi > lo {
            assert(u[hi - lo - 1] == s@[hi - 1]);
        }
        lemma_trail_count_unique(u, p, hi - lo);
        assert(trim_end_by(u, p) =~= s@.subrange(lo as int, hi as int));
    }
    (lo, hi)
}

/// `str::trim` on a character vector.
pub fn trim_ws_vec(s: &Vec<char>) -> (r: Vec<char>)
    ensures
        r@ == trim_ws(s@),
{
    let (lo, hi) = trim_ws_bounds(s, 0, s.len());
    assert(s@.subrange(0, s.len() as int) =~= s@);
    slice_of(s, lo, hi)
}

// ---------------------------------------------------------------------------
// substrings
// ---------------------------------------------------------------------------

/// `p` occurs in `s` at position `i`.
pub open spec fn occurs_at(s: Seq<char>, p: Seq<char>, i: int) -> bool {
    0 <= i && i + p.len() <= s.len() && s.subrange(i, i + p.len()) == p
}

/// `str::contains` with a string pattern.
pub open spec fn contains_seq(s: Seq<char>, p: Seq<char>) -> bool {
    exists|i: int| occurs_at(s, p, i)
}

/// `str::starts_with`.
pub open spec fn starts_with(s: Seq<char>, p: Seq<char>) -> bool {
    occurs_at(s, p, 0)
}

/// `str::ends_with`.
pub open spec fn ends_with(s: Seq<char>, p: Seq<char>) -> bool {
    p.len() <= s.len() && occurs_at(s, p, s.len() - p.len())
}

/// Whether `p` occurs in `s` at `i` (with `i + p.len() <= s.len()`).
pub fn matches_at(s: &Vec<char>, p: &Vec<char>, i: usize) -> (b: bool)
    ensures
        b == occurs_at(s@, p@, i as int),
{
    if i > s.len() || p.len() > s.len() - i {
        return false;
    }
    let mut j: usize = 0;
    while j < p.len()
        invariant
            i + p.len() <= s.len(),
            j <= p.len(),
            forall|k: int| 0 <= k < j ==> s@[i + k] == p@[k],
        decreases p.len() - j,
    {
        if s[i + j] != p[j] {
            assert(s@.subrange(i as int, i + p.len())[j as int] != p@[j as int]);
            return false;
        }
        j = j + 1;
    }
    assert(s@.subrange(i as int, i + p.len()) =~= p@);
    true
}

/// The first occurrence of `p` in `s` at or after `from`.
pub fn find_from(s: &Vec<char>, p: &Vec<char>, from: usize) -> (r: Option<usize>)
    ensures
        r matches Some(i) ==> from <= i && occurs_at(s@, p@, i as int) && forall|k: int|
            from <= k < i ==> !occurs_at(s@, p@, k),
        r is None ==> forall|k: int| from <= k ==> !occurs_at(s@, p@, k),
{
    let mut i = from;
    while i < s.len()
        invariant
            from <= i,
            forall|k: int| from <= k < i ==> !occurs_at(s@, p@, k),
        decreases s.len() - i,
    {
        if matches_at(s, p, i) {
            return Some(i);
        }
        i = i + 1;
    }
    if matches_at(s, p, i) {
        return Some(i);
    }
    assert forall|k: int| from <= k implies !occurs_at(s@, p@, k) by {
        if k > i {
            assert(k + p@.len() > s@.len());
        }
    }
    None
}

/// `str::contains` on character vectors.
pub fn contains_vec(s: &Vec<char>, p: &Vec<char>) -> (b: bool)
    ensures
        b == contains_seq(s@, p@),
{
    match find_from(s, p, 0) {
        Some(_) => true,
        None => {
            assert(forall|k: int| !occurs_at(s@, p@, k));
            false
        },
    }
}

/// `str::contains` with a string-literal pattern.
pub fn contains_str(s: &Vec<char>, p: &str) -> (b: bool)
    ensures
        b == contains_seq(s@, p@),
{
    let pv = chars_of(p);
    contains_vec(s, &pv)
}

/// `str::starts_with` with a string-literal pattern.
pub fn starts_with_str(s: &Vec<char>, p: &str) -> (b: bool)
    ensures
        b == starts_with(s@, p@),
{
    let pv = chars_of(p);
    matches_at(s, &pv, 0)
}

/// `str::ends_with` with a string-literal pattern.
pub fn ends_with_str(s: &Vec<char>, p: &str) -> (b: bool)
    ensures
        b == ends_with(s@, p@),
{
    let pv = chars_of(p);
    if pv.len() > s.len() {
        return false;
    }
    matches_at(s, &pv, s.len() - pv.len())
}

/// Whether the character `c` occurs in `s`.
pub open spec fn has_char(s: Seq<char>, c: char) -> bool {
    exists|i: int| 0 <= i < s.len() && s[i] == c
}

pub fn has_char_vec(s: &Vec<char>, c: char) -> (b: bool)
    ensures
        b == has_char(s@, c),
{
    let mut i: usize = 0;
    while i < s.len()
        invariant
            i <= s.len(),
            forall|k: int| 0 <= k < i ==> s@[k] != c,
        decreases s.len() - i,
    {
        if s[i] == c {
            return true;
        }
        i = i + 1;
    }
    false
}

// ---------------------------------------------------------------------------
// decimal numbers
// ---------------------------------------------------------------------------

/// The ASCII digit for `d < 10`.
pub open spec fn digit_char(d: nat) -> char {
    ((d + 48) as u32) as char
}

/// Decimal representation of `n` without leading zeros (`Display` of an integer).
pub open spec fn decimal(n: nat) -> Seq<char>
    decreases n,
{
    if n < 10 {
        seq![digit_char(n)]
    } else {
        decimal(n / 10).push(digit_char(n % 10))
    }
}

/// `decimal(n)` left-padded with zeros to at least `width` characters (`{n:0width}`).
pub open spec fn decimal_padded(n: nat, width: nat) -> Seq<char> {
    let d = decimal(n);
    if d.len() >= width {
        d
    } else {
        Seq::new((width - d.len()) as nat, |i: int| '0') + d
    }
}

pub fn digit_char_exec(d: u64) -> (c: char)
    requires
        d < 10,
    ensures
        c == digit_char(d as nat),
        is_digit(c),
        digit_value(c) == d,
{
    let u: u32 = (d as u32) + 48;
    char_from_ascii(u)
}

pub proof fn lemma_decimal_digits(n: nat)
    ensures
        decimal(n).len() >= 1,
        forall|i: int| 0 <= i < decimal(n).len() ==> is_digit(#[trigger] decimal(n)[i]),
    decreases n,
{
    if n >= 10 {
        lemma_decimal_digits(n / 10);
        let d = decimal(n / 10).push(digit_char(n % 10));
        assert forall|i: int| 0 <= i < decimal(n).len() implies is_digit(#[trigger] decimal(n)[i]) by {
            if i < decimal(n / 10).len() {
                assert(d[i] == decimal(n / 10)[i]);
            }
        }
    }
}

/// Appends the decimal representation of `n` to `out`.
pub fn push_decimal(out: &mut Vec<char>, n: u64)
    ensures
        final(out)@ == old(out)@ + decimal(n as nat),
    decreases n,
{
    if n < 10 {
        let c = digit_char_exec(n);
        out.push(c);
        assert(decimal(n as nat) =~= seq![c]);
    } else {
        push_decimal(out, n / 10);
        let c = digit_char_exec(n % 10);
        out.push(c);
        assert(out@ =~= old(out)@ + decimal(n as nat));
    }
}

/// The decimal representation of `n` as a string.
pub fn decimal_string(n: u64) -> (s: String)
    ensures
        s@ == decimal(n as nat),
{
    let mut v: Vec<char> = Vec::new();
    push_decimal(&mut v, n);
    assert(v@ =~= decimal(n as nat));
    string_of(&v)
}

/// Appends `decimal_padded(n, width)` to `out`.
pub fn push_decimal_padded(out: &mut Vec<char>, n: u64, width: usize)
    ensures
        final(out)@ == old(out)@ + decimal_padded(n as nat, width as nat),
{
    let mut d: Vec<char> = Vec::new();
    push_decimal(&mut d, n);
    assert(d@ =~= decimal(n as nat));
    let ghost start = out@;
    if d.len() < width {
        let mut k: usize = 0;
        let pad = width - d.len();
        while k < pad
            invariant
                k <= pad,
                pad == width - d@.len(),
                out@ == start + Seq::new(k as nat, |i: int| '0'),
            decreases pad - k,
        {
            out.push('0');
            k = k + 1;
            assert(out@ =~= start + Seq::new(k as nat, |i: int| '0'));
        }
        push_all(out, &d);
        assert(out@ =~= start + decimal_padded(n as nat, width as nat));
    } else {
        push_all(out, &d);
    }
}

/// Value of a run of ASCII digits.
pub open spec fn digits_value(s: Seq<char>) -> nat
    decreases s.len(),
{
    if s.len() == 0 {
        0
    } else {
        digits_value(s.drop_last()) * 10 + digit_value(s.last())
    }
}

/// All characters of `s` are ASCII digits.
pub open spec fn all_digits(s: Seq<char>) -> bool {
    forall|i: int| 0 <= i < s.len() ==> is_digit(#[trigger] s[i])
}

/// The digits of an unsigned integer literal: `s` without one leading `+`.
pub open spec fn uint_body(s: Seq<char>) -> Seq<char> {
    if s.len() > 0 && s[0] == '+' {
        s.drop_first()
    } else {
        s
    }
}

/// The value of an unsigned integer literal as accepted by `u8/u32/u64/usize::from_str`:
/// an optional `+` followed by at least one ASCII digit. `None` when `s` is not such a literal.
pub open spec fn uint_literal(s: Seq<char>) -> Option<nat> {
    let body = uint_body(s);
    if body.len() > 0 && all_digits(body) {
        Some(digits_value(body))
    } else {
        None
    }
}

/// `str::parse::<uN>()` for an unsigned type whose maximum is `max`.
pub open spec fn parse_uint(s: Seq<char>, max: nat) -> Option<nat> {
    match uint_literal(s) {
        Some(v) => if v <= max {
            Some(v)
        } else {
            None
        },
        None => None,
    }
}

pub proof fn lemma_digits_value_push(s: Seq<char>, c: char)
    ensures
        digits_value(s.push(c)) == digits_value(s) * 10 + digit_value(c),
{
    assert(s.push(c).drop_last() =~= s);
}

/// Saturating evaluation of the digits `s[lo..hi]`: the value, or `cap` once the value
/// reaches `cap`.
pub fn digits_value_capped(s: &Vec<char>, lo: usize, hi: usize, cap: u64) -> (r: u64)
    requires
        lo <= hi <= s.len(),
        all_digits(s@.subrange(lo as int, hi as int)),
        cap <= u64::MAX / 16,
    ensures
        r == if digits_value(s@.subrange(lo as int, hi as int)) < cap {
            digits_value(s@.subrange(lo as int, hi as int))
        } else {
            cap as nat
        },
{
    let mut acc: u64 = 0;
    let mut i = lo;
    assert(s@.subrange(lo as int, lo as int) =~= Seq::<char>::empty());
    while i < hi
        invariant
            lo <= i <= hi <= s.len(),
            all_digits(s@.subrange(lo as int, hi as int)),
            cap <= u64::MAX / 16,
            acc <= cap,
            acc == if digits_value(s@.subrange(lo as int, i as int)) < cap {
                digits_value(s@.subrange(lo as int, i as int))
            } else {
                cap as nat
            },
        decreases hi - i,
    {
        let ghost prev = s@.subrange(lo as int, i as int);
        assert(s@.subrange(lo as int, hi as int)[i - lo] == s@[i as int]);
        let c = s[i];
        let d: u64 = (c as u32 - '0' as u32) as u64;
        assert(s@.subrange(lo as int, i + 1) =~= prev.push(c));
        proof {
            lemma_digits_value_push(prev, c);
        }
        if acc >= cap {
            assert(digits_value(prev) >= cap);
            assert(digits_value(prev) * 10 + d >= cap) by (nonlinear_arith)
                requires
                    digits_value(prev) >= cap,
            ;
        } else {
            let next: u64 = acc * 10 + d;
            if next >= cap {
                acc = cap;
            } else {
                acc = next;
            }
        }
        i = i + 1;
    }
    acc
}

/// `str::parse::<uN>()` on `s[lo..hi]` for an unsigned type whose maximum is `max`.
pub fn parse_uint_range(s: &Vec<char>, lo: usize, hi: usize, max: u64) -> (r: Option<u64>)
    requires
        lo <= hi <= s.len(),
        max < u64::MAX / 16,
    ensures
        r matches Some(v) ==> parse_uint(s@.subrange(lo as int, hi as int), max as nat) == Some(
            v as nat,
        ),
        r is None ==> parse_uint(s@.subrange(lo as int, hi as int), max as nat) is None,
{
    let ghost t = s@.subrange(lo as int, hi as int);
    let mut start = lo;
    if lo < hi {
        assert(t[0] == s@[lo as int]);
    }
    if lo < hi && s[lo] == '+' {
        start = lo + 1;
        assert(t.drop_first() =~= s@.subrange(start as int, hi as int));
    } else {
        assert(t =~= s@.subrange(start as int, hi as int));
    }
    if start >= hi {
        return None;
    }
    let mut i = start;
    while i < hi
        invariant
            start <= i <= hi <= s.len(),
            t == s@.subrange(lo as int, hi as int),
            uint_body(t) == s@.subrange(start as int, hi as int),
            forall|k: int| start <= k < i ==> is_digit(#[trigger] s@[k]),
        decreases hi - i,
    {
        if !is_digit_exec(s[i]) {
            proof {
                let body = uint_body(t);
                assert(body[i - start] == s@[i as int]);
                assert(!is_digit(body[i - start]));
            }
            return None;
        }
        i = i + 1;
    }
    assert(all_digits(s@.subrange(start as int, hi as int))) by {
        assert forall|k: int| 0 <= k < hi - start implies is_digit(
            #[trigger] s@.subrange(start as int, hi as int)[k],
        ) by {
            assert(s@.subrange(start as int, hi as int)[k] == s@[start + k]);
        }
    }
    let v = digits_value_capped(s, start, hi, max + 1);
    if v > max {
        None
    } else {
        Some(v)
    }
}

/// `str::parse::<uN>()` on a whole character vector.
pub fn parse_uint_vec(s: &Vec<char>, max: u64) -> (r: Option<u64>)
    requires
        max < u64::MAX / 16,
    ensures
        r matches Some(v) ==> parse_uint(s@, max as nat) == Some(v as nat),
        r is None ==> parse_uint(s@, max as nat) is None,
{
    assert(s@.subrange(0, s.len() as int) =~= s@);
    parse_uint_range(s, 0, s.len(), max)
}

/// Saturating evaluation of the digits `s[lo..hi]` in 128 bits: the value, or `cap` once
/// the value reaches `cap`.
fn digits_value_capped_wide(s: &Vec<char>, lo: usize, hi: usize, cap: u128) -> (r: u128)
    requires
        lo <= hi <= s.len(),
        all_digits(s@.subrange(lo as int, hi as int)),
        cap <= u128::MAX / 16,
    ensures
        r == if digits_value(s@.subrange(lo as int, hi as int)) < cap {
            digits_value(s@.subrange(lo as int, hi as int))
        } else {
            cap as nat
        },
{
    let mut acc: u128 = 0;
    let mut i = lo;
    assert(s@.subrange(lo as int, lo as int) =~= Seq::<char>::empty());
    while i < hi
        invariant
            lo <= i <= hi <= s.len(),
            all_digits(s@.subrange(lo as int, hi as int)),
            cap <= u128::MAX / 16,
            acc <= cap,
            acc == if digits_value(s@.subrange(lo as int, i as int)) < cap {
                digits_value(s@.subrange(lo as int, i as int))
            } else {
                cap as nat
            },
        decreases hi - i,
    {
        let ghost prev = s@.subrange(lo as int, i as int);
        assert(s@.subrange(lo as int, hi as int)[i - lo] == s@[i as int]);
        let c = s[i];
        let d: u128 = (c as u32 - '0' as u32) as u128;
        assert(s@.subrange(lo as int, i + 1) =~= prev.push(c));
        proof {
            lemma_digits_value_push(prev, c);
        }
        if acc >= cap {
            assert(digits_value(prev) * 10 + d >= cap) by (nonlinear_arith)
                requires
                    digits_value(prev) >= cap,
            ;
        } else {
            let next: u128 = acc * 10 + d;
            if next >= cap {
                acc = cap;
            } else {
                acc = next;
            }
        }
        i = i + 1;
    }
    acc
}

/// `str::parse::<u64>()` on a whole character vector.
pub fn parse_u64_vec(s: &Vec<char>) -> (r: Option<u64>)
    ensures
        r matches Some(v) ==> parse_uint(s@, u64::MAX as nat) == Some(v as nat),
        r is None ==> parse_uint(s@, u64::MAX as nat) is None,
{
    let hi = s.len();
    let ghost t = s@;
    let mut start: usize = 0;
    if hi > 0 && s[0] == '+' {
        start = 1;
        assert(t.drop_first() =~= s@.subrange(1, hi as int));
    } else {
        assert(t =~= s@.subrange(0, hi as int));
    }
    if start >= hi {
        return None;
    }
    let mut i = start;
    while i < hi
        invariant
            start <= i <= hi == s@.len(),
            t == s@,
            uint_body(t) == s@.subrange(start as int, hi as int),
            forall|k: int| start <= k < i ==> is_digit(#[trigger] s@[k]),
        decreases hi - i,
    {
        if !is_digit_exec(s[i]) {
            proof {
                let body = uint_body(t);
                assert(body[i - start] == s@[i as int]);
                assert(!is_digit(body[i - start]));
            }
            return None;
        }
        i = i + 1;
    }
    assert(all_digits(s@.subrange(start as int, hi as int))) by {
        assert forall|k: int| 0 <= k < hi - start implies is_digit(
            #[trigger] s@.subrange(start as int, hi as int)[k],
        ) by {
            assert(s@.subrange(start as int, hi as int)[k] == s@[start + k]);
        }
    }
    let v = digits_value_capped_wide(s, start, hi, 0x1_0000_0000_0000_0000u128);
    if v > 0xffff_ffff_ffff_ffffu128 {
        None
    } else {
        Some(v as u64)
    }
}

// ---------------------------------------------------------------------------
// views of strings in containers
// ---------------------------------------------------------------------------

/// The character view of an optional string.
pub open spec fn opt_view(o: Option<String>) -> Option<Seq<char>> {
    match o {
        Some(s) => Some(s@),
        None => None,
    }
}

/// The character views of a sequence of strings.
pub open spec fn string_views(v: Seq<String>) -> Seq<Seq<char>> {
    v.map_values(|s: String| s@)
}

/// Push a copy of `a` onto a list of strings.
pub fn push_arg(args: &mut Vec<String>, a: &str)
    ensures
        string_views(final(args)@) == string_views(old(args)@).push(a@),
{
    let ghost before = string_views(args@);
    args.push(a.to_string());
    assert(string_views(args@) =~= before.push(a@));
}

/// Push `a` onto a list of strings.
pub fn push_owned(args: &mut Vec<String>, a: String)
    ensures
        string_views(final(args)@) == string_views(old(args)@).push(a@),
{
    let ghost before = string_views(args@);
    let ghost av = a@;
    args.push(a);
    assert(string_views(args@) =~= before.push(av));
}

/// The pieces joined with `sep` between consecutive ones (`[String]::join`).
pub open spec fn join_with(parts: Seq<Seq<char>>, sep: Seq<char>) -> Seq<char>
    decreases parts.len(),
{
    if parts.len() == 0 {
        Seq::empty()
    } else if parts.len() == 1 {
        parts[0]
    } else {
        join_with(parts.drop_last(), sep) + sep + parts.last()
    }
}

/// `parts.join(sep)`.
pub fn join_strings(parts: &Vec<String>, sep: &str) -> (r: String)
    ensures
        r@ == join_with(string_views(parts@), sep@),
{
    let ghost pv = string_views(parts@);
    let mut out: Vec<char> = Vec::new();
    let mut i: usize = 0;
    assert(pv.take(0) =~= Seq::<Seq<char>>::empty());
    while i < parts.len()
        invariant
            i <= parts@.len(),
            pv == string_views(parts@),
            out@ == join_with(pv.take(i as int), sep@),
        decreases parts.len() - i,
    {
        let ghost t1 = pv.take(i + 1);
        assert(t1.drop_last() =~= pv.take(i as int));
        assert(t1.last() == parts@[i as int]@);
        if i > 0 {
            push_str(&mut out, sep);
        }
        push_str(&mut out, parts[i].as_str());
        if i == 0 {
            assert(out@ =~= join_with(t1, sep@));
        }
        i = i + 1;
    }
    assert(pv.take(i as int) =~= pv);
    string_of(&out)
}

} // verus!
