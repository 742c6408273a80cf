//! Exact arithmetic on decimal literals: the grammar of `f64::from_str` and the
//! comparison of the literal's exact value `m * 10^e` against fixed decimal bounds.
//!
//! `f64::from_str` rounds the exact decimal value to the nearest `f64` (ties to even).
//! Two questions about that rounded value reduce to comparisons of the exact value:
//! - it is non-zero exactly when `|value| > 2^-1075` (half the smallest subnormal, which
//!   rounds to the even neighbour `0`), and
//! - it lies in `[86, 94]` exactly when `86 - 2^-47 <= value <= 94 + 2^-47` (in that binade
//!   the spacing is `2^-46`, and `86`, `94` are the even neighbours of the two ties).
//! The bounds are written below as exact decimal digit strings with a power-of-ten exponent.

use vstd::prelude::*;
use crate::text::{
    all_digits, digit_value, digits_value, is_digit, lead_count, lemma_lead_count, lower_seq,
    chars_of, lower_vec,
};

verus! {

/// `10^n`.
pub open spec fn pow10(n: nat) -> nat
    decreases n,
{
    if n == 0 {
        1
    } else {
        10 * pow10((n - 1) as nat)
    }
}

pub proof fn lemma_pow10_positive(n: nat)
    ensures
        pow10(n) >= 1,
    decreases n,
{
    if n > 0 {
        lemma_pow10_positive((n - 1) as nat);
    }
}

pub proof fn lemma_pow10_add(a: nat, b: nat)
    ensures
        pow10(a + b) == pow10(a) * pow10(b),
    decreases b,
{
    if b > 0 {
        lemma_pow10_add(a, (b - 1) as nat);
        assert(pow10(a + b) == 10 * pow10((a + b - 1) as nat));
        let x = pow10(a);
        let y = pow10((b - 1) as nat);
        assert(pow10(b) == 10 * y);
        assert(10 * (x * y) == x * (10 * y)) by (nonlinear_arith);
    } else {
        assert(pow10(0) == 1);
        assert(a + b == a);
        assert(pow10(a) * 1 == pow10(a));
    }
}

pub proof fn lemma_pow10_mono(a: nat, b: nat)
    requires
        a <= b,
    ensures
        pow10(a) <= pow10(b),
{
    lemma_pow10_add(a, (b - a) as nat);
    lemma_pow10_positive((b - a) as nat);
    let x = pow10(a);
    let y = pow10((b - a) as nat);
    assert(x * y >= x) by (nonlinear_arith)
        requires
            y >= 1,
    ;
}

/// Multiplying both sides of a comparison by the same positive factor keeps it.
pub proof fn lemma_scale_order(x: nat, y: nat, k: nat)
    requires
        k >= 1,
    ensures
        (x < y) == (x * k < y * k),
        (x == y) == (x * k == y * k),
{
    if x < y {
        assert(x * k < y * k) by (nonlinear_arith)
            requires
                x < y,
                k >= 1,
        ;
    } else if x > y {
        assert(x * k > y * k) by (nonlinear_arith)
            requires
                x > y,
                k >= 1,
        ;
    }
}

// ---------------------------------------------------------------------------
// digit strings
// ---------------------------------------------------------------------------

pub proof fn lemma_digits_append(a: Seq<char>, b: Seq<char>)
    ensures
        digits_value(a + b) == digits_value(a) * pow10(b.len()) + digits_value(b),
    decreases b.len(),
{
    if b.len() == 0 {
        assert(a + b =~= a);
        assert(pow10(0) == 1);
        assert(digits_value(b) == 0);
        assert(digits_value(a) * 1 == digits_value(a));
    } else {
        let bl = b.drop_last();
        lemma_digits_append(a, bl);
        assert((a + b).drop_last() =~= a + bl);
        assert((a + b).last() == b.last());
        let x = digits_value(a);
        let p = pow10(bl.len());
        let y = digits_value(bl);
        assert(pow10(b.len()) == 10 * p);
        assert(digits_value(a + b) == digits_value(a + bl) * 10 + digit_value(b.last()));
        assert(digits_value(b) == y * 10 + digit_value(b.last()));
        assert((x * p + y) * 10 == x * (10 * p) + y * 10) by (nonlinear_arith);
    }
}

pub proof fn lemma_digits_bound(s: Seq<char>)
    requires
        all_digits(s),
    ensures
        digits_value(s) < pow10(s.len()),
    decreases s.len(),
{
    if s.len() > 0 {
        let t = s.drop_last();
        assert(all_digits(t)) by {
            assert forall|i: int| 0 <= i < t.len() implies is_digit(#[trigger] t[i]) by {
                assert(t[i] == s[i]);
            }
        }
        lemma_digits_bound(t);
        assert(is_digit(s[s.len() - 1]));
        assert(digit_value(s.last()) <= 9);
        let v = digits_value(t);
        let p = pow10(t.len());
        assert(v * 10 + 9 < p * 10) by (nonlinear_arith)
            requires
                v < p,
        ;
    }
}

/// A run of zeros has value zero.
pub proof fn lemma_zeros_value(s: Seq<char>)
    requires
        forall|i: int| 0 <= i < s.len() ==> #[trigger] s[i] == '0',
    ensures
        digits_value(s) == 0,
    decreases s.len(),
{
    if s.len() > 0 {
        let t = s.drop_last();
        assert forall|i: int| 0 <= i < t.len() implies #[trigger] t[i] == '0' by {
            assert(t[i] == s[i]);
        }
        lemma_zeros_value(t);
        assert(s[s.len() - 1] == '0');
    }
}

/// A digit string whose first digit is not zero is at least `10^(len-1)`.
pub proof fn lemma_digits_lower(s: Seq<char>)
    requires
        all_digits(s),
        s.len() > 0,
        s[0] != '0',
    ensures
        digits_value(s) >= pow10((s.len() - 1) as nat),
{
    let h = s.take(1);
    let t = s.skip(1);
    assert(s =~= h + t);
    lemma_digits_append(h, t);
    assert(h.drop_last() =~= Seq::<char>::empty());
    assert(is_digit(s[0]));
    assert(h.last() == s[0]);
    assert(digits_value(h.drop_last()) == 0);
    assert(digits_value(h) == digit_value(s[0]));
    assert(digits_value(h) >= 1);
    let p = pow10(t.len());
    assert(digits_value(h) * p >= p) by (nonlinear_arith)
        requires
            digits_value(h) >= 1,
    ;
}

/// Among digit strings of one length, the first differing digit decides the order.
pub proof fn lemma_digits_lex(a: Seq<char>, b: Seq<char>, i: int)
    requires
        all_digits(a),
        all_digits(b),
        a.len() == b.len(),
        0 <= i < a.len(),
        a.take(i) == b.take(i),
        digit_value(a[i]) < digit_value(b[i]),
    ensures
        digits_value(a) < digits_value(b),
{
    let n = a.len();
    let ah = a.take(i + 1);
    let bh = b.take(i + 1);
    let at = a.skip(i + 1);
    let bt = b.skip(i + 1);
    assert(a =~= ah + at);
    assert(b =~= bh + bt);
    lemma_digits_append(ah, at);
    lemma_digits_append(bh, bt);
    assert(ah.drop_last() =~= a.take(i));
    assert(bh.drop_last() =~= b.take(i));
    assert(ah.last() == a[i]);
    assert(bh.last() == b[i]);
    assert(digits_value(ah) + 1 <= digits_value(bh));
    assert(all_digits(at)) by {
        assert forall|k: int| 0 <= k < at.len() implies is_digit(#[trigger] at[k]) by {
            assert(at[k] == a[i + 1 + k]);
        }
    }
    lemma_digits_bound(at);
    let p = pow10(at.len());
    let x = digits_value(ah);
    let y = digits_value(bh);
    let u = digits_value(at);
    let w = digits_value(bt);
    assert(bt.len() == at.len());
    assert(x * p + u < y * p + w) by (nonlinear_arith)
        requires
            x + 1 <= y,
            u < p,
    ;
}

/// Appending zeros multiplies the value by a power of ten.
pub proof fn lemma_pad_zeros(s: Seq<char>, n: nat)
    ensures
        digits_value(s + Seq::new(n, |k: int| '0')) == digits_value(s) * pow10(n),
{
    let z = Seq::new(n, |k: int| '0');
    lemma_digits_append(s, z);
    lemma_zeros_value(z);
}

// ---------------------------------------------------------------------------
// comparison of decimal values m * 10^e
// ---------------------------------------------------------------------------

/// Sign (-1, 0, 1) of `m1 * 10^e1 - m2 * 10^e2`.
pub open spec fn dec_sign(m1: nat, e1: int, m2: nat, e2: int) -> int {
    let x = if e1 >= e2 {
        m1 * pow10((e1 - e2) as nat)
    } else {
        m1
    };
    let y = if e1 >= e2 {
        m2
    } else {
        m2 * pow10((e2 - e1) as nat)
    };
    if x < y {
        -1
    } else if x == y {
        0
    } else {
        1
    }
}

/// Sign of `x - y` for naturals.
pub open spec fn nat_sign(x: nat, y: nat) -> int {
    if x < y {
        -1
    } else if x == y {
        0
    } else {
        1
    }
}

/// The comparison may be carried out at any common exponent `b` below both exponents.
pub proof fn lemma_dec_sign_base(m1: nat, e1: int, m2: nat, e2: int, b: int)
    requires
        b <= e1,
        b <= e2,
    ensures
        dec_sign(m1, e1, m2, e2) == nat_sign(
            m1 * pow10((e1 - b) as nat),
            m2 * pow10((e2 - b) as nat),
        ),
{
    let lo = if e1 >= e2 {
        e2
    } else {
        e1
    };
    let k = (lo - b) as nat;
    let x = m1 * pow10((e1 - lo) as nat);
    let y = m2 * pow10((e2 - lo) as nat);
    lemma_pow10_add((e1 - lo) as nat, k);
    lemma_pow10_add((e2 - lo) as nat, k);
    assert((e1 - lo) as nat + k == (e1 - b) as nat);
    assert((e2 - lo) as nat + k == (e2 - b) as nat);
    lemma_pow10_positive(k);
    lemma_scale_order(x, y, pow10(k));
    let p1 = pow10((e1 - lo) as nat);
    let p2 = pow10((e2 - lo) as nat);
    let q = pow10(k);
    assert(m1 * (p1 * q) == (m1 * p1) * q) by (nonlinear_arith);
    assert(m2 * (p2 * q) == (m2 * p2) * q) by (nonlinear_arith);
    assert(pow10(0) == 1);
    if e1 >= e2 {
        assert((e2 - lo) as nat == 0);
        assert(y == m2 * 1);
    } else {
        assert((e1 - lo) as nat == 0);
        assert(x == m1 * 1);
    }
}

/// The comparison does not depend on how a value is split between mantissa and exponent.
pub proof fn lemma_dec_sign_shift(m1: nat, e1: int, k: nat, m2: nat, e2: int)
    ensures
        dec_sign(m1 * pow10(k), e1 - k, m2, e2) == dec_sign(m1, e1, m2, e2),
{
    let b = if e1 - k <= e2 {
        e1 - k
    } else {
        e2
    };
    lemma_dec_sign_base(m1 * pow10(k), e1 - k, m2, e2, b);
    lemma_dec_sign_base(m1, e1, m2, e2, b);
    lemma_pow10_add(k, (e1 - k - b) as nat);
    assert(k + (e1 - k - b) as nat == (e1 - b) as nat);
    let p = pow10(k);
    let q = pow10((e1 - k - b) as nat);
    assert(m1 * p * q == m1 * (p * q)) by (nonlinear_arith);
}

/// The comparison is antisymmetric.
pub proof fn lemma_dec_sign_flip(m1: nat, e1: int, m2: nat, e2: int)
    ensures
        dec_sign(m2, e2, m1, e1) == -dec_sign(m1, e1, m2, e2),
{
    let b = if e1 <= e2 {
        e1
    } else {
        e2
    };
    lemma_dec_sign_base(m1, e1, m2, e2, b);
    lemma_dec_sign_base(m2, e2, m1, e1, b);
}

/// A value of greater magnitude (more digits before the decimal point) is greater.
pub proof fn lemma_dec_sign_magnitude(m1: nat, l1: nat, e1: int, m2: nat, l2: nat, e2: int)
    requires
        l1 >= 1,
        m1 >= pow10((l1 - 1) as nat),
        m2 < pow10(l2),
        l1 + e1 > l2 + e2,
    ensures
        dec_sign(m1, e1, m2, e2) == 1,
{
    if e1 >= e2 {
        let d = (e1 - e2) as nat;
        lemma_pow10_add((l1 - 1) as nat, d);
        lemma_pow10_mono(l2, ((l1 - 1) as nat + d) as nat);
        let p = pow10((l1 - 1) as nat);
        let q = pow10(d);
        assert(m1 * q >= p * q) by (nonlinear_arith)
            requires
                m1 >= p,
        ;
    } else {
        let d = (e2 - e1) as nat;
        lemma_pow10_add(l2, d);
        lemma_pow10_mono(l2 + d, (l1 - 1) as nat);
        let p = pow10(l2);
        let q = pow10(d);
        lemma_pow10_positive(d);
        assert(m2 * q < p * q) by (nonlinear_arith)
            requires
                m2 < p,
                q >= 1,
        ;
    }
}

/// Zero is below every positive value.
pub proof fn lemma_dec_sign_zero(m1: nat, e1: int, m2: nat, e2: int)
    requires
        m1 == 0,
        m2 > 0,
    ensures
        dec_sign(m1, e1, m2, e2) == -1,
{
    if e1 < e2 {
        let d = (e2 - e1) as nat;
        lemma_pow10_positive(d);
        let q = pow10(d);
        assert(m2 * q >= 1) by (nonlinear_arith)
            requires
                m2 > 0,
                q >= 1,
        ;
    }
}


// ---------------------------------------------------------------------------
// the grammar of `f64::from_str`
// ---------------------------------------------------------------------------

/// Length of a maximal run of ASCII digits at the start of `s`.
pub open spec fn digit_run(s: Seq<char>) -> nat {
    lead_count(s, |c: char| is_digit(c))
}

pub proof fn lemma_digit_run(s: Seq<char>)
    ensures
        digit_run(s) <= s.len(),
        forall|i: int| 0 <= i < digit_run(s) ==> is_digit(#[trigger] s[i]),
        digit_run(s) < s.len() ==> !is_digit(s[digit_run(s) as int]),
{
    lemma_lead_count(s, |c: char| is_digit(c));
}

pub proof fn lemma_digit_run_unique(s: Seq<char>, k: int)
    requires
        0 <= k <= s.len(),
        forall|i: int| 0 <= i < k ==> is_digit(#[trigger] s[i]),
        k < s.len() ==> !is_digit(s[k]),
    ensures
        digit_run(s) == k,
{
    crate::text::lemma_lead_count_unique(s, |c: char| is_digit(c), k);
}

/// 1 when the literal starts with a sign character, else 0.
pub open spec fn sign_len(s: Seq<char>) -> nat {
    if s.len() > 0 && (s[0] == '+' || s[0] == '-') {
        1
    } else {
        0
    }
}

/// End of the integer digits.
pub open spec fn int_end(s: Seq<char>) -> nat {
    sign_len(s) + digit_run(s.skip(sign_len(s) as int))
}

/// The integer digits are followed by a decimal point.
pub open spec fn has_point(s: Seq<char>) -> bool {
    int_end(s) < s.len() && s[int_end(s) as int] == '.'
}

/// Start of the fraction digits.
pub open spec fn frac_start(s: Seq<char>) -> nat {
    if has_point(s) {
        int_end(s) + 1
    } else {
        int_end(s)
    }
}

/// End of the fraction digits (and of the mantissa).
pub open spec fn frac_end(s: Seq<char>) -> nat {
    if has_point(s) {
        frac_start(s) + digit_run(s.skip(frac_start(s) as int))
    } else {
        frac_start(s)
    }
}

/// All mantissa digits, integer part followed by fraction part.
pub open spec fn mantissa(s: Seq<char>) -> Seq<char> {
    s.subrange(sign_len(s) as int, int_end(s) as int) + s.subrange(
        frac_start(s) as int,
        frac_end(s) as int,
    )
}

/// The text after the sign is `inf`, `infinity` or `nan`, ignoring ASCII case.
pub open spec fn is_special(r: Seq<char>) -> bool {
    let l = lower_seq(r);
    l == "inf"@ || l == "infinity"@ || l == "nan"@
}

/// Value of the exponent part `t` (`e`/`E`, optional sign, digits), `Some(0)` when `t` is
/// empty, `None` when `t` is not an exponent.
pub open spec fn exponent_text(t: Seq<char>) -> Option<int> {
    if t.len() == 0 {
        Some(0)
    } else if t[0] == 'e' || t[0] == 'E' {
        let u = t.drop_first();
        let neg = u.len() > 0 && u[0] == '-';
        let d = if u.len() > 0 && (u[0] == '+' || u[0] == '-') {
            u.drop_first()
        } else {
            u
        };
        if d.len() > 0 && all_digits(d) {
            Some(
                if neg {
                    -digits_value(d)
                } else {
                    digits_value(d) as int
                },
            )
        } else {
            None
        }
    } else {
        None
    }
}

/// The text accepted by `f64::from_str`:
/// `[+-]? (inf | infinity | nan | Digits ('.' Digits?)? Exp? | '.' Digits Exp?)`,
/// with `Exp = [eE] [+-]? Digit+`, letters in any ASCII case.
/// `Some((special, negative, digits, e))`: for a number, its exact value is
/// `(-1)^negative * digits_value(digits) * 10^e`; `special` marks infinity and NaN.
pub open spec fn float_text(s: Seq<char>) -> Option<(bool, bool, Seq<char>, int)> {
    let neg = sign_len(s) == 1 && s[0] == '-';
    if is_special(s.skip(sign_len(s) as int)) {
        Some((true, neg, Seq::<char>::empty(), 0))
    } else if int_end(s) - sign_len(s) + frac_end(s) - frac_start(s) > 0 {
        match exponent_text(s.skip(frac_end(s) as int)) {
            Some(x) => Some((false, neg, mantissa(s), x - (frac_end(s) - frac_start(s)))),
            None => None,
        }
    } else {
        None
    }
}

/// Exponent bound beyond which a value is treated as infinitely large or small.
pub open spec fn huge_exp() -> int {
    0x4000_0000_0000_0000_0000_00
}

/// Power-of-ten exponent of a parsed literal: exact, or beyond `huge_exp()` either way.
#[derive(Clone, Copy, Debug)]
pub enum Exp10 {
    Exact(i128),
    Huge,
    Tiny,
}

/// `x` describes the exponent `e`.
pub open spec fn exp_holds(x: Exp10, e: int) -> bool {
    match x {
        Exp10::Exact(v) => v == e,
        Exp10::Huge => e >= huge_exp(),
        Exp10::Tiny => e <= -huge_exp(),
    }
}

/// An exact exponent is below `2^102` in magnitude.
pub open spec fn exp_bounded(x: Exp10) -> bool {
    x matches Exp10::Exact(v) ==> -0x40_0000_0000_0000_0000_0000_0000 <= v
        <= 0x40_0000_0000_0000_0000_0000_0000
}

/// A parsed `f64` literal.
pub struct FloatLit {
    /// `inf`, `infinity` or `nan`.
    pub special: bool,
    /// The literal starts with `-`.
    pub neg: bool,
    /// Mantissa digits (empty for a special literal).
    pub mant: Vec<char>,
    /// Exponent of the mantissa digits.
    pub exp: Exp10,
}

/// Whether two character vectors are equal.
pub fn eq_chars(a: &Vec<char>, b: &Vec<char>) -> (r: bool)
    ensures
        r == (a@ == b@),
{
    if a.len() != b.len() {
        return false;
    }
    let mut i: usize = 0;
    while i < a.len()
        invariant
            a.len() == b.len(),
            i <= a.len(),
            forall|k: int| 0 <= k < i ==> a@[k] == b@[k],
        decreases a.len() - i,
    {
        if a[i] != b[i] {
            return false;
        }
        i = i + 1;
    }
    assert(a@ =~= b@);
    true
}

/// Saturating value (at `2^100`) of the digits `s[lo..hi]`.
pub fn digits_value_u128(s: &Vec<char>, lo: usize, hi: usize) -> (r: u128)
    requires
        lo <= hi <= s.len(),
        all_digits(s@.subrange(lo as int, hi as int)),
    ensures
        r == if digits_value(s@.subrange(lo as int, hi as int)) < 0x10_0000_0000_0000_0000_0000_0000 {
            digits_value(s@.subrange(lo as int, hi as int))
        } else {
            0x10_0000_0000_0000_0000_0000_0000
        },
{
    let cap: u128 = 0x10_0000_0000_0000_0000_0000_0000;
    let mut acc: u128 = 0;
    let mut i = lo;
    assert(s@.subrange(lo as int, lo as int) =~= Seq::<char>::empty());
    while i < hi
        invariant
            lo <= i <= hi <= s.len(),
            all_digits(s@.subrange(lo as int, hi as int)),
            cap == 0x10_0000_0000_0000_0000_0000_0000,
            acc <= cap,
            acc == if digits_value(s@.subrange(lo as int, i as int)) < cap {
                digits_value(s@.subrange(lo as int, i as int))
            } else {
                cap as nat
            },
        decreases hi - i,
    {
        let ghost prev = s@.subrange(lo as int, i as int);
        assert(s@.subrange(lo as int, hi as int)[i - lo] == s@[i as int]);
        let c = s[i];
        let d: u128 = (c as u32 - '0' as u32) as u128;
        assert(s@.subrange(lo as int, i + 1) =~= prev.push(c));
        proof {
            crate::text::lemma_digits_value_push(prev, c);
        }
        if acc >= cap {
            assert(digits_value(prev) * 10 + d >= cap) by (nonlinear_arith)
                requires
                    digits_value(prev) >= cap,
            ;
        } else {
            let next: u128 = acc * 10 + d;
            if next >= cap {
                acc = cap;
            } else {
                acc = next;
            }
        }
        i = i + 1;
    }
    acc
}


/// End of the maximal digit run of `s` starting at `from`.
pub fn digit_run_end(s: &Vec<char>, from: usize) -> (r: usize)
    requires
        from <= s.len(),
    ensures
        from <= r <= s.len(),
        r - from == digit_run(s@.skip(from as int)),
        forall|k: int| from <= k < r ==> is_digit(#[trigger] s@[k]),
{
    let mut i = from;
    while i < s.len() && crate::text::is_digit_exec(s[i])
        invariant
            from <= i <= s.len(),
            forall|k: int| from <= k < i ==> is_digit(#[trigger] s@[k]),
        decreases s.len() - i,
    {
        i = i + 1;
    }
    proof {
        let t = s@.skip(from as int);
        assert forall|k: int| 0 <= k < i - from implies is_digit(#[trigger] t[k]) by {
            assert(t[k] == s@[from + k]);
        }
        if i < s.len() {
            assert(t[i - from] == s@[i as int]);
        }
        lemma_digit_run_unique(t, i - from);
    }
    i
}

/// Parses `s` with the grammar of `f64::from_str`.
pub fn parse_float(s: &Vec<char>) -> (r: Option<FloatLit>)
    ensures
        match float_text(s@) {
            None => r is None,
            Some((sp, ng, m, e)) => r matches Some(f) && f.special == sp && f.neg == ng && (!sp
                ==> f.mant@ == m && exp_holds(f.exp, e)),
        },
        r matches Some(f) ==> exp_bounded(f.exp) && all_digits(f.mant@),
{
    let n = s.len();
    let mut sl: usize = 0;
    let mut neg = false;
    if n > 0 && (s[0] == '+' || s[0] == '-') {
        sl = 1;
        neg = s[0] == '-';
    }
    assert(sl == sign_len(s@));
    // infinity / NaN
    let rest = crate::text::slice_of(s, sl, n);
    assert(rest@ =~= s@.skip(sl as int));
    let lr = lower_vec(&rest);
    let inf = chars_of("inf");
    let infinity = chars_of("infinity");
    let nan = chars_of("nan");
    if eq_chars(&lr, &inf) || eq_chars(&lr, &infinity) || eq_chars(&lr, &nan) {
        return Some(FloatLit { special: true, neg, mant: Vec::new(), exp: Exp10::Exact(0) });
    }
    // integer digits
    let ie = digit_run_end(s, sl);
    assert(ie == int_end(s@));
    // fraction digits
    let mut fs = ie;
    let mut fe = ie;
    if ie < n && s[ie] == '.' {
        fs = ie + 1;
        fe = digit_run_end(s, fs);
    }
    assert(fs == frac_start(s@));
    assert(fe == frac_end(s@));
    if (ie - sl) + (fe - fs) == 0 {
        return None;
    }
    let mut mant = crate::text::slice_of(s, sl, ie);
    crate::text::push_range(&mut mant, s, fs, fe);
    assert(mant@ == mantissa(s@));
    let frac: usize = fe - fs;
    match exponent_of(s, fe, frac) {
        Some(exp) => Some(FloatLit { special: false, neg, mant, exp }),
        None => None,
    }
}

/// The exponent part of `s` starting at `from`, combined with `frac` fraction digits.
pub fn exponent_of(s: &Vec<char>, from: usize, frac: usize) -> (r: Option<Exp10>)
    requires
        from <= s.len(),
        frac <= from,
    ensures
        match exponent_text(s@.skip(from as int)) {
            None => r is None,
            Some(x) => r matches Some(e) && exp_holds(e, x - frac),
        },
        r matches Some(e) ==> exp_bounded(e),
{
    let n = s.len();
    let fe = from;
    let ghost t = s@.skip(fe as int);
    if fe == n {
        assert(t.len() == 0);
        return Some(Exp10::Exact(0 - frac as i128));
    }
    assert(t[0] == s@[fe as int]);
    if !(s[fe] == 'e' || s[fe] == 'E') {
        return None;
    }
    let mut j = fe + 1;
    let ghost u = t.drop_first();
    assert(u =~= s@.skip(j as int));
    let mut eneg = false;
    if j < n && (s[j] == '+' || s[j] == '-') {
        assert(u[0] == s@[j as int]);
        eneg = s[j] == '-';
        j = j + 1;
    } else if j < n {
        assert(u[0] == s@[j as int]);
    }
    let ghost d = s@.skip(j as int);
    assert(d =~= if u.len() > 0 && (u[0] == '+' || u[0] == '-') {
        u.drop_first()
    } else {
        u
    });
    assert(eneg == (u.len() > 0 && u[0] == '-'));
    if j >= n {
        return None;
    }
    let de = digit_run_end(s, j);
    if de < n {
        proof {
            lemma_digit_run(d);
        }
        assert(!is_digit(d[de - j]));
        return None;
    }
    assert(d =~= s@.subrange(j as int, n as int));
    assert(all_digits(d)) by {
        assert forall|k: int| 0 <= k < d.len() implies is_digit(#[trigger] d[k]) by {
            assert(d[k] == s@[j + k]);
        }
    }
    let v = digits_value_u128(s, j, n);
    let cap: u128 = 0x10_0000_0000_0000_0000_0000_0000;
    if v >= cap {
        if eneg {
            Some(Exp10::Tiny)
        } else {
            Some(Exp10::Huge)
        }
    } else {
        if eneg {
            Some(Exp10::Exact(0 - (v as i128) - (frac as i128)))
        } else {
            Some(Exp10::Exact((v as i128) - (frac as i128)))
        }
    }
}


/// `s` zero-padded on the right to `n` characters.
pub open spec fn pad_to(s: Seq<char>, n: nat) -> Seq<char> {
    s + Seq::new((n - s.len()) as nat, |k: int| '0')
}

/// Sign of `digits_value(m) * 10^ge - digits_value(c) * 10^ec`, where `e` describes `ge`
/// and `c` is a fixed positive digit string without leading zeros.
pub fn sign_against(m: &Vec<char>, e: Exp10, Ghost(ge): Ghost<int>, c: &Vec<char>, ec: i128) -> (r: i8)
    requires
        all_digits(m@),
        all_digits(c@),
        0 < c@.len() <= 1000,
        c@[0] != '0',
        -2000 <= ec <= 2000,
        exp_holds(e, ge),
        exp_bounded(e),
    ensures
        r as int == dec_sign(digits_value(m@), ge, digits_value(c@), ec as int),
{
    let n = m.len();
    let mut z: usize = 0;
    while z < n && m[z] == '0'
        invariant
            z <= n == m@.len(),
            forall|k: int| 0 <= k < z ==> m@[k] == '0',
        decreases n - z,
    {
        z = z + 1;
    }
    let ghost mz = m@.subrange(z as int, n as int);
    proof {
        assert(m@ =~= m@.take(z as int) + mz);
        lemma_digits_append(m@.take(z as int), mz);
        lemma_zeros_value(m@.take(z as int));
        let pz = pow10(mz.len());
        assert(0 * pz == 0);
        assert(digits_value(m@) == digits_value(mz));
        assert(all_digits(mz)) by {
            assert forall|k: int| 0 <= k < mz.len() implies is_digit(#[trigger] mz[k]) by {
                assert(mz[k] == m@[z + k]);
            }
        }
        lemma_digits_bound(mz);
        lemma_digits_bound(c@);
        lemma_digits_lower(c@);
    }
    let lc = c.len();
    if z == n {
        proof {
            assert(mz.len() == 0);
            lemma_digits_lower(c@);
            lemma_pow10_positive((lc - 1) as nat);
            lemma_dec_sign_zero(digits_value(m@), ge, digits_value(c@), ec as int);
        }
        return -1;
    }
    let lx = n - z;
    proof {
        assert(mz[0] == m@[z as int]);
        lemma_digits_lower(mz);
    }
    match e {
        Exp10::Huge => {
            proof {
                lemma_dec_sign_magnitude(
                    digits_value(mz), lx as nat, ge, digits_value(c@), lc as nat, ec as int);
            }
            1
        },
        Exp10::Tiny => {
            proof {
                lemma_dec_sign_magnitude(
                    digits_value(c@), lc as nat, ec as int, digits_value(mz), lx as nat, ge);
                lemma_dec_sign_flip(digits_value(mz), ge, digits_value(c@), ec as int);
            }
            -1
        },
        Exp10::Exact(x) => {
            let tx: i128 = lx as i128 + x;
            let tc: i128 = lc as i128 + ec;
            if tx > tc {
                proof {
                    lemma_dec_sign_magnitude(
                        digits_value(mz), lx as nat, ge, digits_value(c@), lc as nat, ec as int);
                }
                return 1;
            }
            if tx < tc {
                proof {
                    lemma_dec_sign_magnitude(
                        digits_value(c@), lc as nat, ec as int, digits_value(mz), lx as nat, ge);
                    lemma_dec_sign_flip(digits_value(mz), ge, digits_value(c@), ec as int);
                }
                return -1;
            }
            let big = if lx > lc {
                lx
            } else {
                lc
            };
            let ghost a = pad_to(mz, big as nat);
            let ghost b = pad_to(c@, big as nat);
            proof {
                lemma_sign_equal_magnitude(mz, ge, c@, ec as int, big as nat);
            }
            let mut i: usize = 0;
            while i < big
                invariant
                    i <= big,
                    big >= lx,
                    big >= lc,
                    lx == n - z,
                    lc == c@.len(),
                    n == m@.len(),
                    mz == m@.subrange(z as int, n as int),
                    a == pad_to(mz, big as nat),
                    b == pad_to(c@, big as nat),
                    a.len() == big,
                    b.len() == big,
                    a.take(i as int) == b.take(i as int),
                    all_digits(a),
                    all_digits(b),
                    r_spec_holds(a, b, m@, ge, c@, ec as int),
                decreases big - i,
            {
                let da = if i < lx {
                    m[z + i]
                } else {
                    '0'
                };
                let db = if i < lc {
                    c[i]
                } else {
                    '0'
                };
                assert(a[i as int] == da);
                assert(b[i as int] == db);
                if da < db {
                    proof {
                        lemma_digits_lex(a, b, i as int);
                    }
                    return -1;
                }
                if da > db {
                    proof {
                        lemma_digits_lex(b, a, i as int);
                    }
                    return 1;
                }
                assert(a.take(i + 1) =~= a.take(i as int).push(da));
                assert(b.take(i + 1) =~= b.take(i as int).push(db));
                i = i + 1;
            }
            assert(a =~= a.take(i as int));
            assert(b =~= b.take(i as int));
            0
        },
    }
}

/// The comparison of `m * 10^ge` with `c * 10^ec` equals that of their zero-padded digits.
pub open spec fn r_spec_holds(a: Seq<char>, b: Seq<char>, m: Seq<char>, ge: int, c: Seq<char>, ec: int) -> bool {
    dec_sign(digits_value(m), ge, digits_value(c), ec) == nat_sign(digits_value(a), digits_value(b))
}

/// At equal magnitude, comparing values is comparing zero-padded digit strings.
pub proof fn lemma_sign_equal_magnitude(mz: Seq<char>, ge: int, c: Seq<char>, ec: int, big: nat)
    requires
        all_digits(mz),
        all_digits(c),
        mz.len() + ge == c.len() + ec,
        big >= mz.len(),
        big >= c.len(),
    ensures
        all_digits(pad_to(mz, big)),
        all_digits(pad_to(c, big)),
        pad_to(mz, big).len() == big,
        pad_to(c, big).len() == big,
        dec_sign(digits_value(mz), ge, digits_value(c), ec) == nat_sign(
            digits_value(pad_to(mz, big)),
            digits_value(pad_to(c, big)),
        ),
{
    let ka = (big - mz.len()) as nat;
    let kb = (big - c.len()) as nat;
    let a = pad_to(mz, big);
    let b = pad_to(c, big);
    assert(all_digits(a)) by {
        assert forall|k: int| 0 <= k < a.len() implies is_digit(#[trigger] a[k]) by {
            if k < mz.len() {
                assert(a[k] == mz[k]);
            } else {
                assert(a[k] == '0');
            }
        }
    }
    assert(all_digits(b)) by {
        assert forall|k: int| 0 <= k < b.len() implies is_digit(#[trigger] b[k]) by {
            if k < c.len() {
                assert(b[k] == c[k]);
            } else {
                assert(b[k] == '0');
            }
        }
    }
    lemma_pad_zeros(mz, ka);
    lemma_pad_zeros(c, kb);
    let x = digits_value(mz);
    let y = digits_value(c);
    lemma_dec_sign_shift(x, ge, ka, y, ec);
    lemma_dec_sign_flip(x * pow10(ka), ge - ka, y, ec);
    lemma_dec_sign_shift(y, ec, kb, x * pow10(ka), ge - ka);
    lemma_dec_sign_flip(y * pow10(kb), ec - kb, x * pow10(ka), ge - ka);
    let e0 = ge - ka;
    assert(ec - kb == e0);
    lemma_dec_sign_base(x * pow10(ka), e0, y * pow10(kb), e0, e0);
    assert(pow10(0) == 1);
    assert((e0 - e0) as nat == 0);
    assert(x * pow10(ka) * 1 == x * pow10(ka));
    assert(y * pow10(kb) * 1 == y * pow10(kb));
}


/// Digits of `5^1075`: `2^-1075 = 5^1075 * 10^-1075`, half the smallest positive `f64`.
pub open spec fn tiny_digits() -> Seq<char> {
    "24703282292062327208828439643411068618252990130716238221279284125033775363510437593264991818081799618989828234772285886546332835517796989819938739800539093906315035659515570226392290858392449105184435931802849936536152500319370457678249219365623669863658480757001585769269903706311928279558551332927834338409351978015531246597263579574622766465272827220056374006485499977096599470454020828166226237857393450736339007967761930577506740176324673600968951340535537458516661134223766678604162159680461914467291840300530057530849048765391711386591646239524912623653881879636239373280423891018672348497668235089863388587925628302755995657524455507255189313690836254779186948667994968324049705821028513185451396213837722826145437693412532098591327667236328125"@
}

/// Digits of `86 - 2^-47` scaled by `10^47`.
pub open spec fn low_digits() -> Seq<char> {
    "8599999999999999289457264239899814128875732421875"@
}

/// Digits of `94 + 2^-47` scaled by `10^47`.
pub open spec fn high_digits() -> Seq<char> {
    "9400000000000000710542735760100185871124267578125"@
}

/// `s.parse::<f64>()` succeeds.
pub open spec fn f64_text_parses(s: Seq<char>) -> bool {
    float_text(s) is Some
}

/// `s.parse::<f64>()` succeeds with a value other than zero (NaN included).
pub open spec fn f64_text_nonzero(s: Seq<char>) -> bool {
    match float_text(s) {
        None => false,
        Some((sp, _neg, m, e)) => sp || dec_sign(digits_value(m), e, digits_value(tiny_digits()), -1075)
            > 0,
    }
}

/// `s.parse::<f64>()` succeeds with a value in `[86, 94]`.
pub open spec fn f64_text_in_86_94(s: Seq<char>) -> bool {
    match float_text(s) {
        None => false,
        Some((sp, neg, m, e)) => !sp && !neg && dec_sign(
            digits_value(m),
            e,
            digits_value(low_digits()),
            -47,
        ) >= 0 && dec_sign(digits_value(m), e, digits_value(high_digits()), -47) <= 0,
    }
}

/// A positive digit string constant suited to `sign_against`.
pub open spec fn good_const(c: Seq<char>) -> bool {
    all_digits(c) && 0 < c.len() <= 1000 && c[0] != '0'
}

fn tiny_vec() -> (v: Vec<char>)
    ensures
        v@ == tiny_digits(),
        good_const(v@),
{
    let v = chars_of("24703282292062327208828439643411068618252990130716238221279284125033775363510437593264991818081799618989828234772285886546332835517796989819938739800539093906315035659515570226392290858392449105184435931802849936536152500319370457678249219365623669863658480757001585769269903706311928279558551332927834338409351978015531246597263579574622766465272827220056374006485499977096599470454020828166226237857393450736339007967761930577506740176324673600968951340535537458516661134223766678604162159680461914467291840300530057530849048765391711386591646239524912623653881879636239373280423891018672348497668235089863388587925628302755995657524455507255189313690836254779186948667994968324049705821028513185451396213837722826145437693412532098591327667236328125");
    proof {
        reveal_strlit("24703282292062327208828439643411068618252990130716238221279284125033775363510437593264991818081799618989828234772285886546332835517796989819938739800539093906315035659515570226392290858392449105184435931802849936536152500319370457678249219365623669863658480757001585769269903706311928279558551332927834338409351978015531246597263579574622766465272827220056374006485499977096599470454020828166226237857393450736339007967761930577506740176324673600968951340535537458516661134223766678604162159680461914467291840300530057530849048765391711386591646239524912623653881879636239373280423891018672348497668235089863388587925628302755995657524455507255189313690836254779186948667994968324049705821028513185451396213837722826145437693412532098591327667236328125");
        assert(all_digits(v@));
    }
    v
}

fn low_vec() -> (v: Vec<char>)
    ensures
        v@ == low_digits(),
        good_const(v@),
{
    let v = chars_of("8599999999999999289457264239899814128875732421875");
    proof {
        reveal_strlit("8599999999999999289457264239899814128875732421875");
        assert(all_digits(v@));
    }
    v
}

fn high_vec() -> (v: Vec<char>)
    ensures
        v@ == high_digits(),
        good_const(v@),
{
    let v = chars_of("9400000000000000710542735760100185871124267578125");
    proof {
        reveal_strlit("9400000000000000710542735760100185871124267578125");
        assert(all_digits(v@));
    }
    v
}

/// `s.parse::<f64>().is_ok()`.
pub fn parses_as_f64(s: &Vec<char>) -> (b: bool)
    ensures
        b == f64_text_parses(s@),
{
    parse_float(s).is_some()
}

/// `s.parse::<f64>().is_ok_and(|v| v != 0.0)`.
pub fn parses_as_nonzero_f64(s: &Vec<char>) -> (b: bool)
    ensures
        b == f64_text_nonzero(s@),
{
    match parse_float(s) {
        None => false,
        Some(f) => {
            if f.special {
                true
            } else {
                let ghost e = choose|e: int| exp_holds(f.exp, e) && float_text(s@) == Some(
                    (false, f.neg, f.mant@, e),
                );
                let t = tiny_vec();
                let r = sign_against(&f.mant, f.exp, Ghost(e), &t, -1075);
                r > 0
            }
        },
    }
}

/// `s.parse::<f64>()` gives a value in `86.0..=94.0`.
pub fn parses_in_86_94(s: &Vec<char>) -> (b: bool)
    ensures
        b == f64_text_in_86_94(s@),
{
    match parse_float(s) {
        None => false,
        Some(f) => {
            if f.special || f.neg {
                false
            } else {
                let ghost e = choose|e: int| exp_holds(f.exp, e) && float_text(s@) == Some(
                    (false, f.neg, f.mant@, e),
                );
                let lo = low_vec();
                let hi = high_vec();
                let a = sign_against(&f.mant, f.exp, Ghost(e), &lo, -47);
                let b = sign_against(&f.mant, f.exp, Ghost(e), &hi, -47);
                a >= 0 && b <= 0
            }
        },
    }
}

} // verus!
