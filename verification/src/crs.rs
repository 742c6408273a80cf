//! Source-CRS resolution for vector imports: recognising Everest-ellipsoid PROJ.4
//! definitions, deciding whether a definition already carries a real datum shift, and
//! injecting the Bangladesh (Gulshan 303) shift when it is missing.

use vstd::prelude::*;
use crate::decimal::{f64_text_in_86_94, f64_text_nonzero, parses_as_f64, parses_as_nonzero_f64, parses_in_86_94, f64_text_parses};
use crate::text::{
    chars_of, contains_seq, contains_str, find_from, occurs_at, push_all, push_str, slice_of,
    starts_with, starts_with_str, string_of, trim_ws, trim_ws_bounds,
};
use crate::tokens::{
    join_spaces, join_spans, next_sep, span_text, split_char, ws_token_spans, ws_tokens, Span,
};

verus! {

/// The Gulshan 303 -> WGS 84 geocentric translation (the standard Bangladesh Everest
/// datum shift).
pub const BD_TOWGS84: &'static str = "+towgs84=283.729,735.942,261.143";

/// Name for the result of `str::to_lowercase` (Unicode full case mapping).
pub uninterp spec fn unicode_lowercase(s: Seq<char>) -> Seq<char>;

/// `str::to_lowercase`: the Unicode lower-case mapping of `s`, a function of `s` alone; an
/// ASCII string maps character by character to its ASCII lower case.
#[verifier::external_body]
pub(crate) fn to_lowercase(s: &str) -> (r: String)
    ensures
        r@ == unicode_lowercase(s@),
        crate::text::all_ascii(s@) ==> r@ == crate::text::lower_seq(s@),
{
    s.to_lowercase()
}

/// The semi-major axes GDAL prints for the Everest 1830 ellipsoids it cannot name.
pub open spec fn everest_axes() -> Seq<Seq<char>> {
    seq!["+a=6377276"@, "+a=6377298"@, "+a=6377299"@, "+a=6377301"@, "+a=6377304"@]
}

/// A lower-cased PROJ.4 string uses an Everest ellipsoid: `evrst` occurs in it, or one of
/// the numeric Everest semi-major axes does.
pub open spec fn everest_spec(lc: Seq<char>) -> bool {
    contains_seq(lc, "evrst"@) || exists|k: int|
        0 <= k < everest_axes().len() && contains_seq(lc, #[trigger] everest_axes()[k])
}

/// True if a lower-cased PROJ.4 string uses an Everest ellipsoid.
pub fn is_everest(proj4_lc: &str) -> (r: bool)
    ensures
        r == everest_spec(proj4_lc@),
{
    let s = chars_of(proj4_lc);
    proof {
        reveal_strlit("+a=6377276");
        reveal_strlit("+a=6377298");
        reveal_strlit("+a=6377299");
        reveal_strlit("+a=6377301");
        reveal_strlit("+a=6377304");
    }
    let a0 = contains_str(&s, "+a=6377276");
    let a1 = contains_str(&s, "+a=6377298");
    let a2 = contains_str(&s, "+a=6377299");
    let a3 = contains_str(&s, "+a=6377301");
    let a4 = contains_str(&s, "+a=6377304");
    let r = contains_str(&s, "evrst") || a0 || a1 || a2 || a3 || a4;
    proof {
        let ax = everest_axes();
        if a0 {
            assert(contains_seq(s@, ax[0]));
        }
        if a1 {
            assert(contains_seq(s@, ax[1]));
        }
        if a2 {
            assert(contains_seq(s@, ax[2]));
        }
        if a3 {
            assert(contains_seq(s@, ax[3]));
        }
        if a4 {
            assert(contains_seq(s@, ax[4]));
        }
    }
    r
}

/// First position at or after `i` where `p` occurs in `s`.
pub open spec fn first_occurrence_from(s: Seq<char>, p: Seq<char>, i: int) -> Option<int>
    decreases s.len() + 1 - i,
{
    if i < 0 || i > s.len() {
        None
    } else if occurs_at(s, p, i) {
        Some(i)
    } else {
        first_occurrence_from(s, p, i + 1)
    }
}

/// `s.split(p).nth(1)`: the text between the first and second occurrences of `p` (or
/// the end of `s`); `None` when `p` does not occur.
pub open spec fn second_piece(s: Seq<char>, p: Seq<char>) -> Option<Seq<char>> {
    match first_occurrence_from(s, p, 0) {
        None => None,
        Some(i) => {
            let rest = s.skip(i + p.len());
            match first_occurrence_from(rest, p, 0) {
                None => Some(rest),
                Some(j) => Some(rest.take(j)),
            }
        },
    }
}

/// `find_from` agrees with `first_occurrence_from`.
proof fn lemma_first_occurrence(s: Seq<char>, p: Seq<char>, from: int, r: Option<usize>)
    requires
        0 <= from,
        r matches Some(i) ==> from <= i && occurs_at(s, p, i as int) && forall|k: int|
            from <= k < i ==> !occurs_at(s, p, k),
        r is None ==> forall|k: int| from <= k ==> !occurs_at(s, p, k),
    ensures
        match r {
            Some(i) => first_occurrence_from(s, p, from) == Some(i as int),
            None => first_occurrence_from(s, p, from) is None,
        },
    decreases s.len() + 1 - from,
{
    if from <= s.len() {
        match r {
            Some(i) => {
                if from < i {
                    lemma_first_occurrence(s, p, from + 1, r);
                }
            },
            None => {
                lemma_first_occurrence(s, p, from + 1, r);
            },
        }
    }
}

/// Some comma-separated piece of the first token after `+towgs84=` is a non-zero number.
pub open spec fn towgs84_nonzero(rest: Seq<char>) -> bool {
    let toks = ws_tokens(rest);
    toks.len() > 0 && exists|k: int|
        0 <= k < split_char(toks[0], ',').len() && f64_text_nonzero(
            trim_ws(#[trigger] split_char(toks[0], ',')[k]),
        )
}

/// A lower-cased PROJ.4 string carries a real datum transformation: a named `+datum=`,
/// or a `+towgs84=` whose first value list has a component that parses as a non-zero
/// number.
pub open spec fn real_shift_spec(lc: Seq<char>) -> bool {
    contains_seq(lc, "+datum="@) || match second_piece(lc, "+towgs84="@) {
        None => false,
        Some(rest) => towgs84_nonzero(rest),
    }
}

/// Whether some piece of `tok` from position `from` on is a non-zero number.
fn any_piece_nonzero(tok: &Vec<char>, from: usize) -> (r: bool)
    requires
        from <= tok.len(),
    ensures
        r == exists|k: int|
            0 <= k < split_char(tok@.skip(from as int), ',').len() && f64_text_nonzero(
                trim_ws(#[trigger] split_char(tok@.skip(from as int), ',')[k]),
            ),
    decreases tok.len() - from,
{
    let e = next_sep(tok, from, ',');
    let (lo, hi) = trim_ws_bounds(tok, from, e);
    let piece = slice_of(tok, lo, hi);
    let ghost ps = split_char(tok@.skip(from as int), ',');
    let here = parses_as_nonzero_f64(&piece);
    if e == tok.len() {
        assert(tok@.subrange(from as int, e as int) =~= tok@.skip(from as int));
        assert(ps[0] == tok@.skip(from as int));
        if !here {
            assert forall|k: int| 0 <= k < ps.len() implies !f64_text_nonzero(
                trim_ws(#[trigger] ps[k]),
            ) by {
                assert(k == 0);
            }
        }
        here
    } else {
        let later = any_piece_nonzero(tok, e + 1);
        let ghost rest = split_char(tok@.skip(e + 1), ',');
        assert(ps == seq![tok@.subrange(from as int, e as int)] + rest);
        if here {
            assert(f64_text_nonzero(trim_ws(ps[0])));
        } else if later {
            proof {
                let k = choose|k: int|
                    0 <= k < rest.len() && f64_text_nonzero(trim_ws(#[trigger] rest[k]));
                assert(ps[k + 1] == rest[k]);
            }
        } else {
            assert forall|k: int| 0 <= k < ps.len() implies !f64_text_nonzero(
                trim_ws(#[trigger] ps[k]),
            ) by {
                if k > 0 {
                    assert(ps[k] == rest[k - 1]);
                }
            }
        }
        here || later
    }
}

/// True if a lower-cased PROJ.4 string already carries a real datum transformation: a
/// named `+datum=`, or a `+towgs84=` with at least one non-zero component (an identity
/// `+towgs84=0,0,0,0,0,0,0` is not a transformation).
pub fn has_real_datum_shift(proj4_lc: &str) -> (r: bool)
    ensures
        r == real_shift_spec(proj4_lc@),
{
    let s = chars_of(proj4_lc);
    if contains_str(&s, "+datum=") {
        return true;
    }
    let pat = chars_of("+towgs84=");
    proof {
        reveal_strlit("+towgs84=");
    }
    let first = find_from(&s, &pat, 0);
    proof {
        lemma_first_occurrence(s@, pat@, 0, first);
    }
    match first {
        None => false,
        Some(i) => {
            assert(occurs_at(s@, pat@, i as int));
            assert(i + pat@.len() <= s@.len());
            let slen = s.len();
            let start = i + pat.len();
            let ghost rest = s@.skip(start as int);
            let second = find_from(&s, &pat, start);
            let end = match second {
                Some(j) => j,
                None => s.len(),
            };
            proof {
                // occurrences in `rest` are the occurrences in `s` shifted by `start`
                assert forall|k: int| 0 <= k implies #[trigger] occurs_at(rest, pat@, k)
                    == occurs_at(s@, pat@, k + start) by {
                    if 0 <= k && k + pat@.len() <= rest.len() {
                        assert(rest.subrange(k, k + pat@.len()) =~= s@.subrange(
                            k + start,
                            k + start + pat@.len(),
                        ));
                    }
                }
                let r2: Option<usize> = match second {
                    Some(j) => Some((j - start) as usize),
                    None => None,
                };
                if let Some(j) = second {
                    assert forall|k: int| 0 <= k < j - start implies !occurs_at(rest, pat@, k) by {
                        assert(!occurs_at(s@, pat@, k + start));
                    }
                    assert(occurs_at(rest, pat@, j - start));
                } else {
                    assert forall|k: int| 0 <= k implies !occurs_at(rest, pat@, k) by {
                        assert(!occurs_at(s@, pat@, k + start));
                    }
                }
                lemma_first_occurrence(rest, pat@, 0, r2);
            }
            let seg = slice_of(&s, start, end);
            proof {
                match second {
                    Some(j) => assert(seg@ =~= rest.take(j - start)),
                    None => assert(seg@ =~= rest),
                }
            }
            let spans = ws_token_spans(&seg);
            if spans.len() == 0 {
                return false;
            }
            let tok = slice_of(&seg, spans[0].lo, spans[0].hi);
            assert(tok@ == ws_tokens(seg@)[0]);
            assert(tok@.skip(0) =~= tok@);
            any_piece_nonzero(&tok, 0)
        },
    }
}

/// The number text of the first `+lon_0=` token whose value parses as an `f64`.
pub open spec fn lon_0_text_of(toks: Seq<Seq<char>>) -> Option<Seq<char>>
    decreases toks.len(),
{
    if toks.len() == 0 {
        None
    } else if starts_with(toks[0], "+lon_0="@) && f64_text_parses(toks[0].skip(7)) {
        Some(toks[0].skip(7))
    } else {
        lon_0_text_of(toks.drop_first())
    }
}

/// The text of the central meridian (`+lon_0=`) of a PROJ.4 string: the value of the first
/// whitespace-separated `+lon_0=` token that parses as a number.
pub fn lon_0_text(proj4: &str) -> (r: Option<String>)
    ensures
        match lon_0_text_of(ws_tokens(proj4@)) {
            None => r is None,
            Some(t) => r matches Some(x) && x@ == t,
        },
{
    let s = chars_of(proj4);
    let spans = ws_token_spans(&s);
    let ghost toks = ws_tokens(s@);
    proof {
        reveal_strlit("+lon_0=");
    }
    let mut k: usize = 0;
    assert(toks.skip(0) =~= toks);
    while k < spans.len()
        invariant
            k <= spans@.len() == toks.len(),
            toks == ws_tokens(s@),
            forall|j: int|
                #![trigger spans@[j]]
                0 <= j < spans@.len() ==> spans@[j].lo <= spans@[j].hi <= s@.len() && span_text(
                    s@,
                    spans@[j],
                ) == toks[j],
            lon_0_text_of(toks) == lon_0_text_of(toks.skip(k as int)),
            s@ == proj4@,
            "+lon_0="@.len() == 7,
        decreases spans.len() - k,
    {
        let tok = slice_of(&s, spans[k].lo, spans[k].hi);
        assert(tok@ == toks[k as int]);
        let ghost rest = toks.skip(k as int);
        assert(rest[0] == toks[k as int]);
        assert(rest.drop_first() =~= toks.skip(k + 1));
        if starts_with_str(&tok, "+lon_0=") {
            let num = slice_of(&tok, 7, tok.len());
            assert(num@ =~= tok@.skip(7));
            if parses_as_f64(&num) {
                assert(rest.len() > 0);
                assert(starts_with(rest[0], "+lon_0="@));
                assert(f64_text_parses(rest[0].skip(7)));
                assert(lon_0_text_of(rest) == Some(rest[0].skip(7)));
                assert(lon_0_text_of(ws_tokens(proj4@)) == Some(num@));
                let out = string_of(&num);
                assert(out@ == num@);
                return Some(out);
            }
        }
        k = k + 1;
    }
    assert(toks.skip(k as int).len() == 0);
    None
}

/// The central meridian lies over Bangladesh (86..=94 degrees east), or there is none.
pub open spec fn over_bangladesh(proj4: Seq<char>) -> bool {
    match lon_0_text_of(ws_tokens(proj4)) {
        None => true,
        Some(t) => f64_text_in_86_94(t),
    }
}

/// The tokens of a PROJ.4 string that are not a `+towgs84=` term (compared lower-cased).
pub open spec fn without_towgs84(toks: Seq<Seq<char>>) -> Seq<Seq<char>>
    decreases toks.len(),
{
    if toks.len() == 0 {
        Seq::empty()
    } else if starts_with(unicode_lowercase(toks.last()), "+towgs84="@) {
        without_towgs84(toks.drop_last())
    } else {
        without_towgs84(toks.drop_last()).push(toks.last())
    }
}

/// No token kept by `without_towgs84` is a `+towgs84=` term.
proof fn lemma_without_towgs84_clean(toks: Seq<Seq<char>>)
    ensures
        forall|i: int|
            0 <= i < without_towgs84(toks).len() ==> !starts_with(
                unicode_lowercase(#[trigger] without_towgs84(toks)[i]),
                "+towgs84="@,
            ),
    decreases toks.len(),
{
    if toks.len() > 0 {
        let prev = without_towgs84(toks.drop_last());
        lemma_without_towgs84_clean(toks.drop_last());
        let r = without_towgs84(toks);
        assert forall|i: int| 0 <= i < r.len() implies !starts_with(
            unicode_lowercase(#[trigger] r[i]),
            "+towgs84="@,
        ) by {
            if i < prev.len() {
                assert(r[i] == prev[i]);
            }
        }
    }
}

/// The PROJ.4 string with the Bangladesh datum shift injected when it is needed.
pub open spec fn with_bd_datum_shift_spec(proj4: Seq<char>) -> Seq<char> {
    let lc = unicode_lowercase(proj4);
    if everest_spec(lc) && !real_shift_spec(lc) && over_bangladesh(proj4) {
        join_spaces(without_towgs84(ws_tokens(proj4))) + " "@ + BD_TOWGS84@
    } else {
        proj4
    }
}

/// The tokens of a PROJ.4 string that are not a `+towgs84=` term, compared in ASCII lower
/// case (what `without_towgs84` keeps when the tokens are ASCII).
pub open spec fn without_towgs84_ascii(toks: Seq<Seq<char>>) -> Seq<Seq<char>>
    decreases toks.len(),
{
    if toks.len() == 0 {
        Seq::empty()
    } else if starts_with(crate::text::lower_seq(toks.last()), "+towgs84="@) {
        without_towgs84_ascii(toks.drop_last())
    } else {
        without_towgs84_ascii(toks.drop_last()).push(toks.last())
    }
}

/// What the Bangladesh datum fix makes of an ASCII PROJ.4 string, with ASCII lower case
/// in place of Unicode lower case.
pub open spec fn with_bd_ascii_spec(proj4: Seq<char>) -> Seq<char> {
    let lc = crate::text::lower_seq(proj4);
    if everest_spec(lc) && !real_shift_spec(lc) && over_bangladesh(proj4) {
        join_spaces(without_towgs84_ascii(ws_tokens(proj4))) + " "@ + BD_TOWGS84@
    } else {
        proj4
    }
}

/// Law: a PROJ.4 string that is not an Everest definition, already carries a real datum
/// transformation, or is centred away from Bangladesh is left exactly as it is; any other
/// is rewritten to its tokens with every `+towgs84=` term dropped, followed by the real
/// Bangladesh shift, so the fixed string carries that shift once and no identity one.
pub proof fn bd_shift_is_applied_once(proj4: Seq<char>)
    ensures
        ({
            let lc = unicode_lowercase(proj4);
            let kept = without_towgs84(ws_tokens(proj4));
            &&& !(everest_spec(lc) && !real_shift_spec(lc) && over_bangladesh(proj4))
                ==> with_bd_datum_shift_spec(proj4) == proj4
            &&& (everest_spec(lc) && !real_shift_spec(lc) && over_bangladesh(proj4)) ==> {
                &&& with_bd_datum_shift_spec(proj4) == join_spaces(kept) + " "@ + BD_TOWGS84@
                &&& forall|i: int|
                    0 <= i < kept.len() ==> !starts_with(
                        unicode_lowercase(#[trigger] kept[i]),
                        "+towgs84="@,
                    )
            }
        }),
{
    lemma_without_towgs84_clean(ws_tokens(proj4));
}

/// Tokens none of which is a `+lon_0=` term give no central meridian.
proof fn lemma_no_lon_0(toks: Seq<Seq<char>>)
    requires
        forall|i: int| 0 <= i < toks.len() ==> !starts_with(#[trigger] toks[i], "+lon_0="@),
    ensures
        lon_0_text_of(toks) is None,
    decreases toks.len(),
{
    if toks.len() > 0 {
        let rest = toks.drop_first();
        assert forall|i: int| 0 <= i < rest.len() implies !starts_with(
            #[trigger] rest[i],
            "+lon_0="@,
        ) by {
            assert(rest[i] == toks[i + 1]);
        }
        assert(!starts_with(toks[0], "+lon_0="@));
        lemma_no_lon_0(rest);
    }
}

/// `x`, a space and the Bangladesh shift ends with the space and the shift.
proof fn lemma_ends_with_bd(x: Seq<char>)
    ensures
        crate::text::ends_with(x + " "@ + BD_TOWGS84@, " "@ + BD_TOWGS84@),
{
    let s = x + " "@ + BD_TOWGS84@;
    let p = " "@ + BD_TOWGS84@;
    assert(s.subrange(s.len() - p.len(), s.len() as int) =~= p);
}

/// Law: an Everest PROJ.4 string that carries no real datum shift and has no `+lon_0`
/// token is taken to be centred over Bangladesh, so the fixed string ends with a space and
/// the Bangladesh `+towgs84` shift; this holds with Unicode lower case and, for an ASCII
/// string, with ASCII lower case.
pub proof fn everest_without_meridian_gets_bd_shift(proj4: Seq<char>)
    requires
        forall|i: int|
            0 <= i < ws_tokens(proj4).len() ==> !starts_with(
                #[trigger] ws_tokens(proj4)[i],
                "+lon_0="@,
            ),
    ensures
        everest_spec(unicode_lowercase(proj4)) && !real_shift_spec(unicode_lowercase(proj4))
            ==> crate::text::ends_with(with_bd_datum_shift_spec(proj4), " "@ + BD_TOWGS84@),
        everest_spec(crate::text::lower_seq(proj4)) && !real_shift_spec(
            crate::text::lower_seq(proj4),
        ) ==> crate::text::ends_with(with_bd_ascii_spec(proj4), " "@ + BD_TOWGS84@),
{
    lemma_no_lon_0(ws_tokens(proj4));
    assert(over_bangladesh(proj4));
    lemma_ends_with_bd(join_spaces(without_towgs84(ws_tokens(proj4))));
    lemma_ends_with_bd(join_spaces(without_towgs84_ascii(ws_tokens(proj4))));
}

/// Inject the Bangladesh datum shift into a PROJ.4 string when it uses an Everest
/// ellipsoid, carries no real datum transformation, and is centred over Bangladesh (no
/// `+lon_0` counts as Bangladesh). Any identity `+towgs84` term is dropped first; the
/// string is returned unchanged when no fix is needed.
pub fn with_bd_datum_shift(proj4: &str) -> (r: String)
    ensures
        r@ == with_bd_datum_shift_spec(proj4@),
        crate::text::all_ascii(proj4@) ==> r@ == with_bd_ascii_spec(proj4@),
{
    let lc = to_lowercase(proj4);
    let everest = is_everest(lc.as_str());
    let real_shift = has_real_datum_shift(lc.as_str());
    let over = match lon_0_text(proj4) {
        None => true,
        Some(t) => {
            let tv = chars_of(t.as_str());
            parses_in_86_94(&tv)
        },
    };
    if !(everest && !real_shift && over) {
        return proj4.to_string();
    }
    let s = chars_of(proj4);
    let spans = ws_token_spans(&s);
    let ghost toks = ws_tokens(s@);
    let mut kept: Vec<Span> = Vec::new();
    let mut k: usize = 0;
    assert(toks.take(0) =~= Seq::<Seq<char>>::empty());
    while k < spans.len()
        invariant
            k <= spans@.len() == toks.len(),
            toks == ws_tokens(s@),
            forall|j: int|
                #![trigger spans@[j]]
                0 <= j < spans@.len() ==> spans@[j].lo <= spans@[j].hi <= s@.len() && span_text(
                    s@,
                    spans@[j],
                ) == toks[j],
            forall|j: int|
                #![trigger kept@[j]]
                0 <= j < kept@.len() ==> kept@[j].lo <= kept@[j].hi <= s@.len(),
            kept@.map_values(|sp: Span| span_text(s@, sp)) == without_towgs84(
                toks.take(k as int),
            ),
            s@ == proj4@,
            crate::text::all_ascii(proj4@) ==> kept@.map_values(|sp: Span| span_text(s@, sp))
                == without_towgs84_ascii(toks.take(k as int)),
        decreases spans.len() - k,
    {
        let sp = Span { lo: spans[k].lo, hi: spans[k].hi };
        let tok = string_of_span(&s, &sp);
        let tok_lc = to_lowercase(tok.as_str());
        let tv = chars_of(tok_lc.as_str());
        let drop = starts_with_str(&tv, "+towgs84=");
        proof {
            if crate::text::all_ascii(proj4@) {
                assert forall|i: int| 0 <= i < tok@.len() implies (#[trigger] tok@[i] as u32) < 128 by {
                    assert(tok@[i] == s@[sp.lo + i]);
                }
                assert(tv@ == crate::text::lower_seq(toks[k as int]));
            }
        }
        let ghost prev = kept@;
        proof {
            assert(toks.take(k + 1).drop_last() =~= toks.take(k as int));
            assert(toks.take(k + 1).last() == toks[k as int]);
        }
        if !drop {
            kept.push(sp);
            assert(kept@.map_values(|sp: Span| span_text(s@, sp)) =~= prev.map_values(
                |sp: Span| span_text(s@, sp),
            ).push(span_text(s@, sp)));
        }
        k = k + 1;
    }
    assert(toks.take(k as int) =~= toks);
    let mut out = join_spans(&s, &kept);
    push_str(&mut out, " ");
    push_str(&mut out, BD_TOWGS84);
    string_of(&out)
}

/// A copy of the text of a span as a string.
fn string_of_span(s: &Vec<char>, sp: &Span) -> (r: String)
    requires
        sp.lo <= sp.hi <= s@.len(),
    ensures
        r@ == span_text(s@, *sp),
{
    let v = slice_of(s, sp.lo, sp.hi);
    string_of(&v)
}

} // verus!
