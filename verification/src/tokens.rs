//! Splitting text into whitespace-separated tokens (`str::split_whitespace`), into
//! comma-separated pieces (`str::split(',')`), and joining tokens with spaces.

use vstd::prelude::*;
use crate::text::{
    is_ws, is_ws_exec, lead_count, lemma_lead_count, lemma_lead_count_unique, push_all, push_range,
    slice_of,
};

verus! {

/// Number of leading whitespace characters.
pub open spec fn ws_run(s: Seq<char>) -> nat {
    lead_count(s, |c: char| is_ws(c))
}

/// Number of leading non-whitespace characters.
pub open spec fn word_run(s: Seq<char>) -> nat {
    lead_count(s, |c: char| !is_ws(c))
}

pub proof fn lemma_ws_run(s: Seq<char>)
    ensures
        ws_run(s) <= s.len(),
        forall|i: int| 0 <= i < ws_run(s) ==> is_ws(#[trigger] s[i]),
        ws_run(s) < s.len() ==> !is_ws(s[ws_run(s) as int]),
{
    lemma_lead_count(s, |c: char| is_ws(c));
}

pub proof fn lemma_word_run(s: Seq<char>)
    ensures
        word_run(s) <= s.len(),
        forall|i: int| 0 <= i < word_run(s) ==> !is_ws(#[trigger] s[i]),
        word_run(s) < s.len() ==> is_ws(s[word_run(s) as int]),
{
    lemma_lead_count(s, |c: char| !is_ws(c));
}

/// The tokens of `str::split_whitespace`: maximal runs of non-whitespace characters.
pub open spec fn ws_tokens(s: Seq<char>) -> Seq<Seq<char>>
    decreases s.len(),
{
    let u = s.skip(ws_run(s) as int);
    if ws_run(s) >= s.len() {
        Seq::empty()
    } else {
        proof {
            lemma_ws_run(s);
            lemma_word_run(u);
            assert(u.len() > 0);
            assert(!is_ws(u[0]));
            if word_run(u) == 0 {
                assert(is_ws(u[0]));
            }
        }
        seq![u.take(word_run(u) as int)] + ws_tokens(u.skip(word_run(u) as int))
    }
}

/// The tokens joined with single spaces (`[&str]::join(" ")`).
pub open spec fn join_spaces(toks: Seq<Seq<char>>) -> Seq<char>
    decreases toks.len(),
{
    if toks.len() == 0 {
        Seq::empty()
    } else if toks.len() == 1 {
        toks[0]
    } else {
        join_spaces(toks.drop_last()) + seq![' '] + toks.last()
    }
}

/// A token range `[lo, hi)` of a character vector.
pub struct Span {
    pub lo: usize,
    pub hi: usize,
}

/// The characters of a span.
pub open spec fn span_text(s: Seq<char>, sp: Span) -> Seq<char> {
    s.subrange(sp.lo as int, sp.hi as int)
}

/// Unfolding `ws_tokens` at a position: after skipping whitespace up to `a` and a word
/// up to `b`, the tokens are that word followed by the tokens of the rest.
pub proof fn lemma_ws_tokens_step(s: Seq<char>, i: int, a: int, b: int)
    requires
        0 <= i <= a < b <= s.len(),
        forall|k: int| i <= k < a ==> is_ws(#[trigger] s[k]),
        !is_ws(s[a]),
        forall|k: int| a <= k < b ==> !is_ws(#[trigger] s[k]),
        b < s.len() ==> is_ws(s[b]),
    ensures
        ws_tokens(s.skip(i)) == seq![s.subrange(a, b)] + ws_tokens(s.skip(b)),
{
    let t = s.skip(i);
    assert forall|k: int| 0 <= k < a - i implies is_ws(#[trigger] t[k]) by {
        assert(t[k] == s[i + k]);
    }
    assert(t[a - i] == s[a]);
    lemma_lead_count_unique(t, |c: char| is_ws(c), a - i);
    let u = t.skip(a - i);
    assert(u =~= s.skip(a));
    assert forall|k: int| 0 <= k < b - a implies !is_ws(#[trigger] u[k]) by {
        assert(u[k] == s[a + k]);
    }
    if b < s.len() {
        assert(u[b - a] == s[b]);
    }
    lemma_lead_count_unique(u, |c: char| !is_ws(c), b - a);
    assert(u.take(b - a) =~= s.subrange(a, b));
    assert(u.skip(b - a) =~= s.skip(b));
}

/// Only whitespace from `i` on: no more tokens.
pub proof fn lemma_ws_tokens_end(s: Seq<char>, i: int)
    requires
        0 <= i <= s.len(),
        forall|k: int| i <= k < s.len() ==> is_ws(#[trigger] s[k]),
    ensures
        ws_tokens(s.skip(i)) == Seq::<Seq<char>>::empty(),
{
    let t = s.skip(i);
    assert forall|k: int| 0 <= k < t.len() implies is_ws(#[trigger] t[k]) by {
        assert(t[k] == s[i + k]);
    }
    lemma_lead_count_unique(t, |c: char| is_ws(c), t.len() as int);
}

/// The spans of the tokens of `str::split_whitespace`.
pub fn ws_token_spans(s: &Vec<char>) -> (r: Vec<Span>)
    ensures
        r@.len() == ws_tokens(s@).len(),
        forall|k: int|
            #![trigger r@[k]]
            0 <= k < r@.len() ==> r@[k].lo <= r@[k].hi <= s@.len() && span_text(s@, r@[k])
                == ws_tokens(s@)[k],
{
    let mut r: Vec<Span> = Vec::new();
    let n = s.len();
    let mut i: usize = 0;
    let ghost done: Seq<Seq<char>> = Seq::empty();
    assert(s@.skip(0) =~= s@);
    while i < n
        invariant
            i <= n == s@.len(),
            r@.len() == done.len(),
            forall|k: int|
                #![trigger r@[k]]
                0 <= k < r@.len() ==> r@[k].lo <= r@[k].hi <= s@.len() && span_text(s@, r@[k])
                    == done[k],
            ws_tokens(s@) == done + ws_tokens(s@.skip(i as int)),
        decreases n - i,
    {
        let mut a = i;
        while a < n && is_ws_exec(s[a])
            invariant
                i <= a <= n == s@.len(),
                forall|k: int| i <= k < a ==> is_ws(#[trigger] s@[k]),
            decreases n - a,
        {
            a = a + 1;
        }
        if a == n {
            proof {
                lemma_ws_tokens_end(s@, i as int);
                assert(s@.skip(n as int) =~= Seq::<char>::empty());
                assert(ws_tokens(s@.skip(n as int)) =~= Seq::<Seq<char>>::empty());
            }
            i = n;
        } else {
        let mut b = a;
        while b < n && !is_ws_exec(s[b])
            invariant
                a <= b <= n == s@.len(),
                forall|k: int| a <= k < b ==> !is_ws(#[trigger] s@[k]),
            decreases n - b,
        {
            b = b + 1;
        }
        proof {
            lemma_ws_tokens_step(s@, i as int, a as int, b as int);
        }
        let ghost tok = s@.subrange(a as int, b as int);
        r.push(Span { lo: a, hi: b });
        proof {
            assert(done.push(tok) + ws_tokens(s@.skip(b as int)) =~= done + (seq![tok]
                + ws_tokens(s@.skip(b as int))));
            done = done.push(tok);
        }
        i = b;
        }
    }
    proof {
        assert(s@.skip(n as int) =~= Seq::<char>::empty());
        assert(ws_tokens(s@.skip(i as int)).len() == 0);
        assert(done + ws_tokens(s@.skip(i as int)) =~= done);
    }
    r
}

/// The characters of the tokens at `spans[0..]` joined with single spaces.
pub fn join_spans(s: &Vec<char>, spans: &Vec<Span>) -> (r: Vec<char>)
    requires
        forall|k: int| 0 <= k < spans@.len() ==> (#[trigger] spans@[k]).lo <= spans@[k].hi <= s@.len(),
    ensures
        r@ == join_spaces(spans@.map_values(|sp: Span| span_text(s@, sp))),
{
    let ghost texts = spans@.map_values(|sp: Span| span_text(s@, sp));
    let mut r: Vec<char> = Vec::new();
    let mut k: usize = 0;
    assert(texts.take(0) =~= Seq::<Seq<char>>::empty());
    while k < spans.len()
        invariant
            k <= spans@.len(),
            texts == spans@.map_values(|sp: Span| span_text(s@, sp)),
            forall|j: int| 0 <= j < spans@.len() ==> (#[trigger] spans@[j]).lo <= spans@[j].hi <= s@.len(),
            r@ == join_spaces(texts.take(k as int)),
        decreases spans.len() - k,
    {
        let sp = &spans[k];
        if k > 0 {
            r.push(' ');
        }
        push_range(&mut r, s, sp.lo, sp.hi);
        proof {
            let t1 = texts.take(k + 1);
            assert(t1.drop_last() =~= texts.take(k as int));
            assert(t1.last() == span_text(s@, spans@[k as int]));
            if k == 0 {
                assert(join_spaces(texts.take(0)) =~= Seq::<char>::empty());
                assert(r@ =~= join_spaces(t1));
            } else {
                assert(r@ =~= join_spaces(t1));
            }
        }
        k = k + 1;
    }
    assert(texts.take(k as int) =~= texts);
    r
}

// ---------------------------------------------------------------------------
// pieces between separator characters
// ---------------------------------------------------------------------------

/// The predicate "is not `sep`".
pub open spec fn not_sep(sep: char) -> spec_fn(char) -> bool {
    |c: char| c != sep
}

/// Number of leading characters before the first `sep`.
pub open spec fn until_char(s: Seq<char>, sep: char) -> nat {
    lead_count(s, not_sep(sep))
}

pub proof fn lemma_until_char(s: Seq<char>, sep: char)
    ensures
        until_char(s, sep) <= s.len(),
        forall|i: int| 0 <= i < until_char(s, sep) ==> #[trigger] s[i] != sep,
        until_char(s, sep) < s.len() ==> s[until_char(s, sep) as int] == sep,
{
    lemma_lead_count(s, not_sep(sep));
}

/// The pieces of `str::split(sep)`: the text between consecutive separators.
pub open spec fn split_char(s: Seq<char>, sep: char) -> Seq<Seq<char>>
    decreases s.len(),
{
    if until_char(s, sep) >= s.len() {
        seq![s]
    } else {
        proof {
            lemma_until_char(s, sep);
        }
        seq![s.take(until_char(s, sep) as int)] + split_char(
            s.skip(until_char(s, sep) as int + 1),
            sep,
        )
    }
}

/// The first `sep` at or after `from`, or the end of `s`; the piece starting at `from`
/// ends there.
pub fn next_sep(s: &Vec<char>, from: usize, sep: char) -> (r: usize)
    requires
        from <= s.len(),
    ensures
        from <= r <= s.len(),
        forall|k: int| from <= k < r ==> #[trigger] s@[k] != sep,
        r < s.len() ==> s@[r as int] == sep,
        r < s.len() ==> split_char(s@.skip(from as int), sep) == seq![
            s@.subrange(from as int, r as int),
        ] + split_char(s@.skip(r + 1), sep),
        r == s.len() ==> split_char(s@.skip(from as int), sep) == seq![s@.skip(from as int)],
{
    let mut i = from;
    while i < s.len() && s[i] != sep
        invariant
            from <= i <= s.len(),
            forall|k: int| from <= k < i ==> #[trigger] s@[k] != sep,
        decreases s.len() - i,
    {
        i = i + 1;
    }
    proof {
        let t = s@.skip(from as int);
        assert forall|k: int| 0 <= k < i - from implies #[trigger] t[k] != sep by {
            assert(t[k] == s@[from + k]);
        }
        if i < s.len() {
            assert(t[i - from] == s@[i as int]);
        }
        lemma_lead_count_unique(t, not_sep(sep), i - from);
        if i < s.len() {
            assert(t.take(i - from) =~= s@.subrange(from as int, i as int));
            assert(t.skip(i - from + 1) =~= s@.skip(i + 1));
        }
    }
    i
}

} // verus!
