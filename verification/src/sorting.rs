//! Putting things in order by a key, without changing the order of things
//! that the key does not tell apart.

use crate::text::{chars_of, views};
use vstd::prelude::*;

verus! {

/// Whether `a` comes before `b`, or is `b`, in the order of the dictionary by
/// character code.
pub open spec fn text_le(a: Seq<char>, b: Seq<char>) -> bool
    decreases a.len(),
{
    if a.len() == 0 {
        true
    } else if b.len() == 0 {
        false
    } else if a[0] != b[0] {
        (a[0] as u32) < (b[0] as u32)
    } else {
        text_le(a.drop_first(), b.drop_first())
    }
}

proof fn lemma_text_le_skip(a: Seq<char>, b: Seq<char>, n: int)
    requires
        0 <= n <= a.len(),
        n <= b.len(),
        a.take(n) == b.take(n),
    ensures
        text_le(a, b) == text_le(a.skip(n), b.skip(n)),
    decreases n,
{
    if n == 0 {
        assert(a.skip(0) == a);
        assert(b.skip(0) == b);
    } else {
        assert(a[0] == a.take(n)[0]);
        assert(b[0] == b.take(n)[0]);
        let a1 = a.drop_first();
        let b1 = b.drop_first();
        assert(a1.take(n - 1) == a.take(n).drop_first());
        assert(b1.take(n - 1) == b.take(n).drop_first());
        lemma_text_le_skip(a1, b1, n - 1);
        assert(a1.skip(n - 1) == a.skip(n));
        assert(b1.skip(n - 1) == b.skip(n));
    }
}

/// Whether `a` comes before `b`, or is `b`, in the order of the dictionary.
pub fn text_before_or_same(a: &Vec<char>, b: &Vec<char>) -> (r: bool)
    ensures
        r == text_le(a@, b@),
{
    let mut i: usize = 0;
    while i < a.len() && i < b.len() && a[i] == b[i]
        invariant
            i <= a.len(),
            i <= b.len(),
            a@.take(i as int) == b@.take(i as int),
        decreases a.len() - i,
    {
        i += 1;
        assert(a@.take(i as int) == a@.take(i - 1).push(a@[i - 1]));
        assert(b@.take(i as int) == b@.take(i - 1).push(b@[i - 1]));
    }
    proof {
        lemma_text_le_skip(a@, b@, i as int);
    }
    if i == a.len() {
        true
    } else if i == b.len() {
        false
    } else {
        assert(a@.skip(i as int)[0] == a@[i as int]);
        assert(b@.skip(i as int)[0] == b@[i as int]);
        (a[i] as u32) < (b[i] as u32)
    }
}

/// A key to order by: first by rank, then, within a rank, by text.
pub struct SortKey {
    pub rank: i128,
    pub text: Vec<char>,
}

/// A key, as contracts see it.
pub struct KeyView {
    pub rank: i128,
    pub text: Seq<char>,
}

impl View for SortKey {
    type V = KeyView;

    open spec fn view(&self) -> KeyView {
        KeyView { rank: self.rank, text: self.text@ }
    }
}

/// Whether what has the key `a` may stand before what has the key `b`.
pub open spec fn key_le(a: KeyView, b: KeyView) -> bool {
    a.rank < b.rank || (a.rank == b.rank && text_le(a.text, b.text))
}

/// The ordered indices with `e` put in behind the last index whose key may
/// stand before that of `e`.
pub open spec fn placed(order: Seq<int>, keys: Seq<KeyView>, e: int) -> Seq<int>
    decreases order.len(),
{
    if order.len() == 0 {
        seq![e]
    } else if key_le(keys[order.last()], keys[e]) {
        order.push(e)
    } else {
        placed(order.drop_last(), keys, e).push(order.last())
    }
}

/// The first `n` indices in the order of their keys; indices whose keys are
/// alike keep their own order.
pub open spec fn order_upto(keys: Seq<KeyView>, n: int) -> Seq<int>
    decreases n,
{
    if n <= 0 {
        Seq::empty()
    } else {
        placed(order_upto(keys, n - 1), keys, n - 1)
    }
}

/// The indices of the keys in the order of the keys.
pub open spec fn sorted_order(keys: Seq<KeyView>) -> Seq<int> {
    order_upto(keys, keys.len() as int)
}

/// The indices as mathematical integers.
pub open spec fn indices(v: Seq<usize>) -> Seq<int> {
    Seq::new(v.len(), |i: int| v[i] as int)
}

proof fn lemma_placed_at(order: Seq<int>, keys: Seq<KeyView>, e: int, p: int)
    requires
        0 <= p <= order.len(),
        forall|j: int| p <= j < order.len() ==> !key_le(keys[#[trigger] order[j]], keys[e]),
        p > 0 ==> key_le(keys[order[p - 1]], keys[e]),
    ensures
        placed(order, keys, e) == order.take(p) + seq![e] + order.skip(p),
    decreases order.len() - p,
{
    if p == order.len() {
        assert(order.take(p) == order);
        assert(order.skip(p) == Seq::<int>::empty());
        if order.len() == 0 {
            assert(placed(order, keys, e) == order.take(p) + seq![e] + order.skip(p));
        } else {
            assert(order.push(e) == order.take(p) + seq![e] + order.skip(p));
        }
    } else {
        let rest = order.drop_last();
        assert(!key_le(keys[order[order.len() - 1]], keys[e]));
        assert forall|j: int| p <= j < rest.len() implies !key_le(
            keys[#[trigger] rest[j]],
            keys[e],
        ) by {
            assert(rest[j] == order[j]);
        }
        if p > 0 {
            assert(rest[p - 1] == order[p - 1]);
        }
        lemma_placed_at(rest, keys, e, p);
        assert(rest.take(p) == order.take(p));
        assert((rest.take(p) + seq![e] + rest.skip(p)).push(order.last()) == order.take(p)
            + seq![e] + order.skip(p));
    }
}

/// Putting an index in keeps the indices that were there and adds the one.
pub proof fn lemma_placed_len(order: Seq<int>, keys: Seq<KeyView>, e: int, bound: int)
    requires
        0 <= e < bound,
        forall|i: int| 0 <= i < order.len() ==> 0 <= (#[trigger] order[i]) < bound,
    ensures
        placed(order, keys, e).len() == order.len() + 1,
        forall|i: int|
            0 <= i < placed(order, keys, e).len() ==> 0 <= (#[trigger] placed(order, keys, e)[i])
                < bound,
    decreases order.len(),
{
    if order.len() > 0 && !key_le(keys[order.last()], keys[e]) {
        let rest = order.drop_last();
        assert forall|i: int| 0 <= i < rest.len() implies 0 <= (#[trigger] rest[i]) < bound by {
            assert(rest[i] == order[i]);
        }
        lemma_placed_len(rest, keys, e, bound);
        assert(order[order.len() - 1] < bound);
    }
}

/// The order of `n` keys has `n` indices, each below `n`.
pub proof fn lemma_order_in_range(keys: Seq<KeyView>, n: int)
    requires
        0 <= n,
    ensures
        order_upto(keys, n).len() == n,
        forall|i: int| 0 <= i < n ==> 0 <= (#[trigger] order_upto(keys, n)[i]) < n,
    decreases n,
{
    if n > 0 {
        lemma_order_in_range(keys, n - 1);
        let prev = order_upto(keys, n - 1);
        assert forall|i: int| 0 <= i < prev.len() implies 0 <= (#[trigger] prev[i]) < n by {}
        lemma_placed_len(prev, keys, n - 1, n);
    }
}

/// Whether what has the key `a` may stand before what has the key `b`.
pub fn key_before_or_same(a: &SortKey, b: &SortKey) -> (r: bool)
    ensures
        r == key_le(a@, b@),
{
    a.rank < b.rank || (a.rank == b.rank && text_before_or_same(&a.text, &b.text))
}

/// The indices of the keys in the order of the keys.
pub fn sort_order(keys: &Vec<SortKey>) -> (r: Vec<usize>)
    ensures
        indices(r@) == sorted_order(views(keys@)),
        r.len() == keys.len(),
        forall|i: int| 0 <= i < r.len() ==> (#[trigger] r@[i]) < keys.len(),
{
    let ghost ks = views(keys@);
    let mut order: Vec<usize> = Vec::new();
    let mut i: usize = 0;
    assert(indices(order@) == order_upto(ks, 0));
    while i < keys.len()
        invariant
            i <= keys.len(),
            ks == views(keys@),
            order.len() == i,
            indices(order@) == order_upto(ks, i as int),
            forall|j: int| 0 <= j < order.len() ==> (#[trigger] order@[j]) < i,
        decreases keys.len() - i,
    {
        let ghost o0 = indices(order@);
        let mut p: usize = order.len();
        while p > 0 && !key_before_or_same(&keys[order[p - 1]], &keys[i])
            invariant
                p <= order.len(),
                i < keys.len(),
                ks == views(keys@),
                o0 == indices(order@),
                forall|j: int| 0 <= j < order.len() ==> (#[trigger] order@[j]) < i,
                forall|j: int| p <= j < o0.len() ==> !key_le(ks[#[trigger] o0[j]], ks[i as int]),
            decreases p,
        {
            assert(o0[p - 1] == order@[p - 1]);
            p -= 1;
        }
        proof {
            if p > 0 {
                assert(o0[p - 1] == order@[p - 1]);
            }
            lemma_placed_at(o0, ks, i as int, p as int);
        }
        order.insert(p, i);
        assert(indices(order@) == o0.take(p as int) + seq![i as int] + o0.skip(p as int));
        i += 1;
    }
    order
}


/// The keys that order texts by themselves.
pub open spec fn text_keys(texts: Seq<Seq<char>>) -> Seq<KeyView> {
    Seq::new(texts.len(), |i: int| KeyView { rank: 0, text: texts[i] })
}

/// The texts in the order of the dictionary.
pub open spec fn sorted_texts(texts: Seq<Seq<char>>) -> Seq<Seq<char>> {
    Seq::new(texts.len(), |i: int| texts[sorted_order(text_keys(texts))[i]])
}

/// The strings in the order of the dictionary.
pub fn sort_strings(list: &Vec<String>) -> (r: Vec<String>)
    ensures
        views(r@) == sorted_texts(views(list@)),
{
    let mut keys: Vec<SortKey> = Vec::new();
    let mut i: usize = 0;
    while i < list.len()
        invariant
            i <= list.len(),
            views(keys@) == text_keys(views(list@)).take(i as int),
        decreases list.len() - i,
    {
        let ghost before = views(keys@);
        let k = SortKey { rank: 0, text: chars_of(list[i].as_str()) };
        keys.push(k);
        i += 1;
        assert(views(keys@) == before.push(k@));
        assert(views(keys@) == text_keys(views(list@)).take(i as int));
    }
    assert(text_keys(views(list@)).take(list.len() as int) == text_keys(views(list@)));
    let order = sort_order(&keys);
    let mut out: Vec<String> = Vec::new();
    let mut j: usize = 0;
    while j < order.len()
        invariant
            j <= order.len(),
            order.len() == list.len(),
            indices(order@) == sorted_order(text_keys(views(list@))),
            forall|i: int| 0 <= i < order.len() ==> (#[trigger] order@[i]) < list.len(),
            views(out@) == sorted_texts(views(list@)).take(j as int),
        decreases order.len() - j,
    {
        let ghost before = views(out@);
        assert(indices(order@)[j as int] == order@[j as int]);
        out.push(list[order[j]].clone());
        j += 1;
        assert(views(out@) == before.push(list@[order@[j - 1] as int]@));
        assert(views(out@) == sorted_texts(views(list@)).take(j as int));
    }
    assert(sorted_texts(views(list@)).take(list.len() as int) == sorted_texts(views(list@)));
    out
}


/// Of two texts, one comes before the other or is the other.
pub proof fn lemma_text_le_total(a: Seq<char>, b: Seq<char>)
    ensures
        text_le(a, b) || text_le(b, a),
    decreases a.len(),
{
    if a.len() > 0 && b.len() > 0 {
        if a[0] == b[0] {
            lemma_text_le_total(a.drop_first(), b.drop_first());
        } else {
            vstd::utf8::char_u32_cast(a[0], a[0] as u32);
            vstd::utf8::char_u32_cast(b[0], b[0] as u32);
        }
    }
}

/// A text that comes before a second, which comes before a third, comes
/// before the third.
pub proof fn lemma_text_le_transitive(a: Seq<char>, b: Seq<char>, c: Seq<char>)
    requires
        text_le(a, b),
        text_le(b, c),
    ensures
        text_le(a, c),
    decreases a.len(),
{
    if a.len() > 0 && b.len() > 0 && c.len() > 0 && a[0] == b[0] && b[0] == c[0] {
        lemma_text_le_transitive(a.drop_first(), b.drop_first(), c.drop_first());
    }
}

/// Of two keys, one may stand before the other.
pub proof fn lemma_key_le_total(a: KeyView, b: KeyView)
    ensures
        key_le(a, b) || key_le(b, a),
{
    lemma_text_le_total(a.text, b.text);
}

/// A key that may stand before a second, which may stand before a third, may
/// stand before the third.
pub proof fn lemma_key_le_transitive(a: KeyView, b: KeyView, c: KeyView)
    requires
        key_le(a, b),
        key_le(b, c),
    ensures
        key_le(a, c),
{
    if a.rank == b.rank && b.rank == c.rank {
        lemma_text_le_transitive(a.text, b.text, c.text);
    }
}

/// Whether the indices stand in the order of their keys.
pub open spec fn ordered(order: Seq<int>, keys: Seq<KeyView>) -> bool {
    forall|p: int, q: int|
        0 <= p < q < order.len() ==> key_le(keys[#[trigger] order[p]], keys[#[trigger] order[q]])
}

/// Whether indices whose keys are alike stand in their own order.
pub open spec fn stable(order: Seq<int>, keys: Seq<KeyView>) -> bool {
    forall|p: int, q: int|
        0 <= p < q < order.len() && key_le(keys[#[trigger] order[q]], keys[#[trigger] order[p]])
            ==> order[p] < order[q]
}

/// Whether the indices are the numbers below `n`, each once.
pub open spec fn each_once(order: Seq<int>, n: int) -> bool {
    &&& order.len() == n
    &&& forall|p: int| 0 <= p < order.len() ==> 0 <= #[trigger] order[p] < n
    &&& forall|p: int, q: int|
        0 <= p < q < order.len() ==> #[trigger] order[p] != #[trigger] order[q]
}

/// What putting an index in gives: the indices that were there, in their
/// order, with the new one at some place among them.
proof fn lemma_placed_shape(order: Seq<int>, keys: Seq<KeyView>, e: int) -> (at: int)
    ensures
        0 <= at <= order.len(),
        placed(order, keys, e) == order.take(at) + seq![e] + order.skip(at),
        forall|j: int| at <= j < order.len() ==> !key_le(keys[#[trigger] order[j]], keys[e]),
        at > 0 ==> key_le(keys[order[at - 1]], keys[e]),
    decreases order.len(),
{
    if order.len() == 0 {
        assert(placed(order, keys, e) == order.take(0) + seq![e] + order.skip(0));
        0
    } else if key_le(keys[order.last()], keys[e]) {
        let at = order.len() as int;
        assert(order.take(at) == order);
        assert(order.push(e) == order.take(at) + seq![e] + order.skip(at));
        at
    } else {
        let rest = order.drop_last();
        let at = lemma_placed_shape(rest, keys, e);
        assert(rest.take(at) == order.take(at));
        assert((rest.take(at) + seq![e] + rest.skip(at)).push(order.last()) == order.take(at)
            + seq![e] + order.skip(at));
        assert forall|j: int| at <= j < order.len() implies !key_le(
            keys[#[trigger] order[j]],
            keys[e],
        ) by {
            if j < rest.len() {
                assert(order[j] == rest[j]);
            }
        }
        if at > 0 {
            assert(order[at - 1] == rest[at - 1]);
        }
        at
    }
}

/// The order of the keys holds every index once, follows the keys, and keeps
/// indices whose keys are alike in their own order. There is one such order
/// and no other.
pub proof fn lemma_sorted_order(keys: Seq<KeyView>, n: int)
    requires
        0 <= n <= keys.len(),
    ensures
        each_once(order_upto(keys, n), n),
        ordered(order_upto(keys, n), keys),
        stable(order_upto(keys, n), keys),
    decreases n,
{
    if n > 0 {
        lemma_sorted_order(keys, n - 1);
        let prev = order_upto(keys, n - 1);
        let e = n - 1;
        let at = lemma_placed_shape(prev, keys, e);
        let next = order_upto(keys, n);
        assert(next == prev.take(at) + seq![e] + prev.skip(at));
        assert(next.len() == n);
        assert forall|p: int| 0 <= p < next.len() implies 0 <= #[trigger] next[p] < n by {
            if p < at {
                assert(next[p] == prev[p]);
            } else if p > at {
                assert(next[p] == prev[p - 1]);
            }
        }
        assert forall|p: int, q: int| 0 <= p < q < next.len() implies #[trigger] next[p]
            != #[trigger] next[q] by {
            let a = if p < at {
                p
            } else {
                p - 1
            };
            let b = if q < at {
                q
            } else {
                q - 1
            };
            if p != at && q != at {
                assert(next[p] == prev[a]);
                assert(next[q] == prev[b]);
            } else if p == at {
                assert(next[q] == prev[b]);
                assert(prev[b] < n - 1);
            } else {
                assert(next[p] == prev[a]);
                assert(prev[a] < n - 1);
            }
        }
        assert forall|p: int, q: int| 0 <= p < q < next.len() implies key_le(
            keys[#[trigger] next[p]],
            keys[#[trigger] next[q]],
        ) by {
            let a = if p < at {
                p
            } else {
                p - 1
            };
            let b = if q < at {
                q
            } else {
                q - 1
            };
            if p != at && q != at {
                assert(next[p] == prev[a]);
                assert(next[q] == prev[b]);
            } else if p == at {
                assert(next[q] == prev[b]);
                assert(!key_le(keys[prev[b]], keys[e]));
                lemma_key_le_total(keys[prev[b]], keys[e]);
            } else {
                assert(next[p] == prev[a]);
                assert(key_le(keys[prev[at - 1]], keys[e]));
                if a < at - 1 {
                    assert(key_le(keys[prev[a]], keys[prev[at - 1]]));
                    lemma_key_le_transitive(keys[prev[a]], keys[prev[at - 1]], keys[e]);
                }
            }
        }
        assert forall|p: int, q: int|
            0 <= p < q < next.len() && key_le(
                keys[#[trigger] next[q]],
                keys[#[trigger] next[p]],
            ) implies next[p] < next[q] by {
            let a = if p < at {
                p
            } else {
                p - 1
            };
            let b = if q < at {
                q
            } else {
                q - 1
            };
            if p != at && q != at {
                assert(next[p] == prev[a]);
                assert(next[q] == prev[b]);
            } else if p == at {
                assert(next[q] == prev[b]);
                assert(!key_le(keys[prev[b]], keys[e]));
            } else {
                assert(next[p] == prev[a]);
                assert(prev[a] < n - 1);
            }
        }
    }
}

} // verus!
