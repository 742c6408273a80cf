//! Ordering of names: the lexicographic order of strings (`str::cmp`, which compares
//! UTF-8 bytes and so orders by code point), and lists kept strictly sorted by it.

use vstd::prelude::*;
use crate::text::{chars_of, string_views};

verus! {

/// `a < b` in the order of `str::cmp`: lexicographic by code point, a proper prefix
/// first.
pub open spec fn seq_lt(a: Seq<char>, b: Seq<char>) -> bool
    decreases a.len(),
{
    if a.len() == 0 {
        b.len() > 0
    } else if b.len() == 0 {
        false
    } else if a[0] != b[0] {
        (a[0] as int) < (b[0] as int)
    } else {
        seq_lt(a.skip(1), b.skip(1))
    }
}

pub proof fn lemma_lt_irreflexive(a: Seq<char>)
    ensures
        !seq_lt(a, a),
    decreases a.len(),
{
    if a.len() > 0 {
        lemma_lt_irreflexive(a.skip(1));
    }
}

pub proof fn lemma_lt_total(a: Seq<char>, b: Seq<char>)
    ensures
        a == b || seq_lt(a, b) || seq_lt(b, a),
        !(seq_lt(a, b) && seq_lt(b, a)),
    decreases a.len(),
{
    if a.len() > 0 && b.len() > 0 {
        if a[0] == b[0] {
            lemma_lt_total(a.skip(1), b.skip(1));
            if a.skip(1) == b.skip(1) {
                assert(a =~= seq![a[0]] + a.skip(1));
                assert(b =~= seq![b[0]] + b.skip(1));
            }
        } else {
            assert((a[0] as int) != (b[0] as int));
        }
    } else if a.len() == 0 && b.len() == 0 {
        assert(a =~= b);
    }
}

pub proof fn lemma_lt_transitive(a: Seq<char>, b: Seq<char>, c: Seq<char>)
    requires
        seq_lt(a, b),
        seq_lt(b, c),
    ensures
        seq_lt(a, c),
    decreases a.len(),
{
    if a.len() > 0 && b.len() > 0 && c.len() > 0 {
        if a[0] == b[0] && b[0] == c[0] {
            lemma_lt_transitive(a.skip(1), b.skip(1), c.skip(1));
        }
    }
}

/// `seq_lt` on character vectors.
pub fn chars_lt(a: &Vec<char>, b: &Vec<char>) -> (r: bool)
    ensures
        r == seq_lt(a@, b@),
{
    let mut i: usize = 0;
    assert(a@.skip(0) =~= a@);
    assert(b@.skip(0) =~= b@);
    while i < a.len() && i < b.len() && a[i] == b[i]
        invariant
            i <= a@.len(),
            i <= b@.len(),
            seq_lt(a@, b@) == seq_lt(a@.skip(i as int), b@.skip(i as int)),
        decreases a.len() - i,
    {
        assert(a@.skip(i as int).skip(1) =~= a@.skip(i + 1));
        assert(b@.skip(i as int).skip(1) =~= b@.skip(i + 1));
        assert(a@.skip(i as int)[0] == a@[i as int]);
        assert(b@.skip(i as int)[0] == b@[i as int]);
        i = i + 1;
    }
    if i == a.len() {
        assert(a@.skip(i as int).len() == 0);
        i < b.len()
    } else if i == b.len() {
        false
    } else {
        assert(a@.skip(i as int)[0] == a@[i as int]);
        assert(b@.skip(i as int)[0] == b@[i as int]);
        a[i] < b[i]
    }
}

/// `a < b` on strings.
pub fn str_lt(a: &str, b: &str) -> (r: bool)
    ensures
        r == seq_lt(a@, b@),
{
    let av = chars_of(a);
    let bv = chars_of(b);
    chars_lt(&av, &bv)
}

/// Strictly increasing: sorted, and nothing twice.
pub open spec fn strictly_sorted(s: Seq<Seq<char>>) -> bool {
    forall|i: int, j: int| 0 <= i < j < s.len() ==> seq_lt(#[trigger] s[i], #[trigger] s[j])
}

/// Law: two strictly increasing lists with the same elements are the same list, so a
/// sorted, duplicate-free listing is fully determined by what it lists.
pub proof fn strictly_sorted_determined(a: Seq<Seq<char>>, b: Seq<Seq<char>>)
    requires
        strictly_sorted(a),
        strictly_sorted(b),
        a.to_set() == b.to_set(),
    ensures
        a == b,
    decreases a.len(),
{
    if a.len() == 0 {
        if b.len() > 0 {
            assert(b.to_set().contains(b[0]));
        }
        assert(a =~= b);
    } else if b.len() == 0 {
        assert(a.to_set().contains(a[0]));
    } else {
        // The first elements are both the least element of the common set.
        assert(b.to_set().contains(a[0]));
        assert(a.to_set().contains(b[0]));
        let ia = choose|i: int| 0 <= i < a.len() && a[i] == b[0];
        let ib = choose|i: int| 0 <= i < b.len() && b[i] == a[0];
        if ia > 0 {
            assert(seq_lt(a[0], a[ia]));
            if ib > 0 {
                assert(seq_lt(b[0], b[ib]));
                lemma_lt_total(a[0], b[0]);
            }
        }
        if ia == 0 {
            assert(a[0] == b[0]);
        } else if ib == 0 {
            assert(a[0] == b[0]);
        }
        assert(a[0] == b[0]);
        let a1 = a.skip(1);
        let b1 = b.skip(1);
        assert forall|i: int, j: int| 0 <= i < j < a1.len() implies seq_lt(
            #[trigger] a1[i],
            #[trigger] a1[j],
        ) by {
            assert(a1[i] == a[i + 1] && a1[j] == a[j + 1]);
        }
        assert forall|i: int, j: int| 0 <= i < j < b1.len() implies seq_lt(
            #[trigger] b1[i],
            #[trigger] b1[j],
        ) by {
            assert(b1[i] == b[i + 1] && b1[j] == b[j + 1]);
        }
        assert forall|x: Seq<char>| a1.to_set().contains(x) implies b1.to_set().contains(x) by {
            let i = choose|i: int| 0 <= i < a1.len() && a1[i] == x;
            assert(a[i + 1] == x);
            assert(seq_lt(a[0], x));
            assert(b.to_set().contains(x));
            let k = choose|k: int| 0 <= k < b.len() && b[k] == x;
            if k == 0 {
                lemma_lt_irreflexive(x);
            }
            assert(b1[k - 1] == x);
        }
        assert forall|x: Seq<char>| b1.to_set().contains(x) implies a1.to_set().contains(x) by {
            let i = choose|i: int| 0 <= i < b1.len() && b1[i] == x;
            assert(b[i + 1] == x);
            assert(seq_lt(b[0], x));
            assert(a.to_set().contains(x));
            let k = choose|k: int| 0 <= k < a.len() && a[k] == x;
            if k == 0 {
                lemma_lt_irreflexive(x);
            }
            assert(a1[k - 1] == x);
        }
        assert(a1.to_set() =~= b1.to_set());
        strictly_sorted_determined(a1, b1);
        assert(a =~= seq![a[0]] + a1);
        assert(b =~= seq![b[0]] + b1);
    }
}

/// Insert `x` into a strictly increasing list of strings, unless it is already there.
pub fn insert_sorted_unique(v: &mut Vec<String>, x: String)
    requires
        strictly_sorted(string_views(old(v)@)),
    ensures
        strictly_sorted(string_views(final(v)@)),
        string_views(final(v)@).to_set() == string_views(old(v)@).to_set().insert(x@),
{
    let ghost s = string_views(v@);
    let mut i: usize = 0;
    while i < v.len() && str_lt(v[i].as_str(), x.as_str())
        invariant
            i <= v@.len(),
            s == string_views(v@),
            forall|k: int| 0 <= k < i ==> seq_lt(#[trigger] s[k], x@),
        decreases v.len() - i,
    {
        i = i + 1;
    }
    if i < v.len() && v[i] == x {
        assert(s[i as int] == x@);
        assert(s.to_set().insert(x@) =~= s.to_set());
        return;
    }
    proof {
        if i < v@.len() {
            lemma_lt_total(s[i as int], x@);
            assert(seq_lt(x@, s[i as int]));
        }
    }
    let ghost xv = x@;
    v.insert(i, x);
    let ghost t = string_views(v@);
    assert(t =~= s.insert(i as int, xv));
    assert forall|a: int, b: int| 0 <= a < b < t.len() implies seq_lt(#[trigger] t[a], #[trigger] t[b]) by {
        if b < i {
        } else if b == i {
            assert(t[a] == s[a]);
        } else if a < i {
            assert(t[b] == s[b - 1]);
            assert(t[a] == s[a]);
            if a < b - 1 {
            }
        } else if a == i {
            assert(t[b] == s[b - 1]);
            if b - 1 > i {
                lemma_lt_transitive(xv, s[i as int], s[b - 1]);
            }
        } else {
            assert(t[a] == s[a - 1]);
            assert(t[b] == s[b - 1]);
        }
    }
    assert forall|y: Seq<char>| t.to_set().contains(y) <==> s.to_set().insert(xv).contains(y) by {
        if t.to_set().contains(y) {
            let k = choose|k: int| 0 <= k < t.len() && t[k] == y;
            if k < i {
                assert(s[k] == y);
            } else if k > i {
                assert(s[k - 1] == y);
            }
        }
        if s.to_set().contains(y) {
            let k = choose|k: int| 0 <= k < s.len() && s[k] == y;
            if k < i {
                assert(t[k] == y);
            } else {
                assert(t[k + 1] == y);
            }
        }
        if y == xv {
            assert(t[i as int] == y);
        }
    }
    assert(t.to_set() =~= s.to_set().insert(xv));
}

/// The strings sorted, each once (`sort` then `dedup`).
pub fn sorted_unique(xs: Vec<String>) -> (r: Vec<String>)
    ensures
        strictly_sorted(string_views(r@)),
        string_views(r@).to_set() == string_views(xs@).to_set(),
{
    let ghost all = string_views(xs@);
    let mut out: Vec<String> = Vec::new();
    let mut i: usize = 0;
    assert(string_views(out@).to_set() =~= all.take(0).to_set());
    while i < xs.len()
        invariant
            i <= xs@.len(),
            all == string_views(xs@),
            strictly_sorted(string_views(out@)),
            string_views(out@).to_set() == all.take(i as int).to_set(),
        decreases xs.len() - i,
    {
        insert_sorted_unique(&mut out, xs[i].clone());
        assert(all.take(i + 1) =~= all.take(i as int).push(all[i as int]));
        proof {
            all.take(i as int).lemma_push_to_set_commute(all[i as int]);
        }
        i = i + 1;
    }
    assert(all.take(i as int) =~= all);
    out
}

// ---------------------------------------------------------------------------
// stable orderings of indices
// ---------------------------------------------------------------------------

/// Index `a` comes before index `b` when sorting by `keys` stably: a smaller key first,
/// equal keys in their original order.
pub open spec fn key_before(keys: Seq<Seq<char>>, a: int, b: int) -> bool {
    seq_lt(keys[a], keys[b]) || (keys[a] == keys[b] && a < b)
}

/// `order` lists each index below `n` once.
pub open spec fn is_permutation(order: Seq<usize>, n: nat) -> bool {
    &&& order.len() == n
    &&& forall|i: int| 0 <= i < order.len() ==> (#[trigger] order[i]) < n
    &&& forall|i: int, j: int| 0 <= i < j < order.len() ==> #[trigger] order[i] != #[trigger] order[j]
}

/// `order` is sorted stably by `keys`.
pub open spec fn stably_sorted_by(order: Seq<usize>, keys: Seq<Seq<char>>) -> bool {
    forall|i: int, j: int|
        0 <= i < j < order.len() ==> key_before(keys, #[trigger] order[i] as int, #[trigger] order[j] as int)
}

/// The order in which `sort_by(|a, b| a.key.cmp(&b.key))` (a stable sort) puts items
/// with these keys: a permutation of their indices, sorted stably by key.
pub fn stable_order_by_str(keys: &Vec<String>) -> (r: Vec<usize>)
    ensures
        is_permutation(r@, keys@.len()),
        stably_sorted_by(r@, string_views(keys@)),
{
    let ghost kv = string_views(keys@);
    let mut order: Vec<usize> = Vec::new();
    let mut k: usize = 0;
    while k < keys.len()
        invariant
            k <= keys@.len(),
            kv == string_views(keys@),
            order@.len() == k,
            forall|i: int| 0 <= i < order@.len() ==> (#[trigger] order@[i]) < k,
            forall|i: int, j: int| 0 <= i < j < order@.len() ==> #[trigger] order@[i] != #[trigger] order@[j],
            stably_sorted_by(order@, kv),
        decreases keys.len() - k,
    {
        // Find the place of k: after every index that comes before it.
        let mut p: usize = 0;
        while p < order.len() && !str_lt(keys[k].as_str(), keys[order[p]].as_str())
            invariant
                p <= order@.len(),
                k < keys@.len(),
                kv == string_views(keys@),
                forall|i: int| 0 <= i < order@.len() ==> (#[trigger] order@[i]) < k,
                forall|i: int| 0 <= i < p ==> key_before(kv, #[trigger] order@[i] as int, k as int),
            decreases order.len() - p,
        {
            proof {
                let o = order@[p as int] as int;
                assert(kv[o] == keys@[o]@);
                assert(kv[k as int] == keys@[k as int]@);
                lemma_lt_total(kv[o], kv[k as int]);
            }
            p = p + 1;
        }
        proof {
            if p < order@.len() {
                let o = order@[p as int] as int;
                assert(kv[o] == keys@[o]@);
                assert(kv[k as int] == keys@[k as int]@);
                assert(seq_lt(kv[k as int], kv[o]));
            }
        }
        let ghost before = order@;
        order.insert(p, k);
        assert(order@ =~= before.insert(p as int, k));
        proof {
            assert forall|a: int, b: int| 0 <= a < b < order@.len() implies key_before(
                kv,
                #[trigger] order@[a] as int,
                #[trigger] order@[b] as int,
            ) by {
                if b < p {
                } else if b == p {
                    assert(order@[a] == before[a]);
                } else if a < p {
                    assert(order@[a] == before[a] && order@[b] == before[b - 1]);
                } else if a == p {
                    assert(order@[b] == before[b - 1]);
                    // k before order[p] (strictly smaller key) and order[p] before order[b-1].
                    let o = before[p as int] as int;
                    assert(seq_lt(kv[k as int], kv[o]));
                    if b - 1 > p {
                        let q = before[b - 1] as int;
                        assert(key_before(kv, o, q));
                        if seq_lt(kv[o], kv[q]) {
                            lemma_lt_transitive(kv[k as int], kv[o], kv[q]);
                        }
                    }
                } else {
                    assert(order@[a] == before[a - 1] && order@[b] == before[b - 1]);
                }
            }
        }
        k = k + 1;
    }
    order
}

/// `order` is sorted by `keys` from the largest key down, equal keys in their original
/// order.
pub open spec fn stably_sorted_desc(order: Seq<usize>, keys: Seq<u64>) -> bool {
    forall|i: int, j: int|
        0 <= i < j < order.len() ==> {
            let a = #[trigger] order[i] as int;
            let b = #[trigger] order[j] as int;
            keys[a] > keys[b] || (keys[a] == keys[b] && a < b)
        }
}

/// The order in which a stable sort by a number, largest first, puts items with these
/// keys (`sort_by(|a, b| b.key.cmp(&a.key))`).
pub fn stable_order_desc(keys: &Vec<u64>) -> (r: Vec<usize>)
    ensures
        is_permutation(r@, keys@.len()),
        stably_sorted_desc(r@, keys@),
{
    let mut order: Vec<usize> = Vec::new();
    let mut k: usize = 0;
    while k < keys.len()
        invariant
            k <= keys@.len(),
            order@.len() == k,
            forall|i: int| 0 <= i < order@.len() ==> (#[trigger] order@[i]) < k,
            forall|i: int, j: int| 0 <= i < j < order@.len() ==> #[trigger] order@[i] != #[trigger] order@[j],
            stably_sorted_desc(order@, keys@),
        decreases keys.len() - k,
    {
        let mut p: usize = 0;
        while p < order.len() && keys[order[p]] >= keys[k]
            invariant
                p <= order@.len(),
                k < keys@.len(),
                forall|i: int| 0 <= i < order@.len() ==> (#[trigger] order@[i]) < k,
                forall|i: int| 0 <= i < p ==> keys@[#[trigger] order@[i] as int] >= keys@[k as int],
            decreases order.len() - p,
        {
            p = p + 1;
        }
        let ghost before = order@;
        order.insert(p, k);
        assert(order@ =~= before.insert(p as int, k));
        proof {
            assert forall|a: int, b: int| 0 <= a < b < order@.len() implies {
                let x = #[trigger] order@[a] as int;
                let y = #[trigger] order@[b] as int;
                keys@[x] > keys@[y] || (keys@[x] == keys@[y] && x < y)
            } by {
                if b < p {
                } else if b == p {
                    assert(order@[a] == before[a]);
                } else if a < p {
                    assert(order@[a] == before[a] && order@[b] == before[b - 1]);
                } else if a == p {
                    assert(order@[b] == before[b - 1]);
                } else {
                    assert(order@[a] == before[a - 1] && order@[b] == before[b - 1]);
                }
            }
        }
        k = k + 1;
    }
    order
}

} // verus!
