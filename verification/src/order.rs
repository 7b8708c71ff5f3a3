//! Sorting by a key, with equal keys left in the order in which they came.
use crate::text;
use vstd::prelude::*;

verus! {

/// What an item is sorted by: the items that go first, then the rest, each part by its text.
pub struct SortKey {
    pub first: bool,
    pub text: String,
}

pub struct SortKeyView {
    pub first: bool,
    pub text: Seq<char>,
}

impl DeepView for SortKey {
    type V = SortKeyView;

    open spec fn deep_view(&self) -> SortKeyView {
        SortKeyView { first: self.first, text: self.text@ }
    }
}

/// The order of keys.
pub open spec fn key_le(a: SortKeyView, b: SortKeyView) -> bool {
    if a.first == b.first {
        text::text_le(a.text, b.text)
    } else {
        a.first
    }
}

/// Of the items at positions `x` and `y`, the one at `x` goes before the other.
pub open spec fn goes_before(keys: Seq<SortKeyView>, x: int, y: int) -> bool {
    &&& key_le(keys[x], keys[y])
    &&& key_le(keys[y], keys[x]) ==> x < y
}

/// `order` lists every position of `keys` once, in ascending order of the keys there; where keys
/// are equal, the position that came first stays first.
pub open spec fn is_order(keys: Seq<SortKeyView>, order: Seq<usize>) -> bool {
    &&& order.len() == keys.len()
    &&& forall|i: int| 0 <= i < order.len() ==> (#[trigger] order[i]) < keys.len()
    &&& forall|x: usize| 0 <= x < keys.len() ==> #[trigger] order.contains(x)
    &&& forall|i: int, j: int|
        0 <= i < j < order.len() ==> goes_before(keys, #[trigger] order[i] as int, #[trigger] order[j] as int)
}

/// The items at the positions that `order` lists.
pub open spec fn permuted<T>(items: Seq<T>, order: Seq<usize>) -> Seq<T> {
    Seq::new(order.len(), |i: int| items[order[i] as int])
}

proof fn lemma_key_le_transitive(a: SortKeyView, b: SortKeyView, c: SortKeyView)
    requires
        key_le(a, b),
        key_le(b, c),
    ensures
        key_le(a, c),
{
    if a.first == b.first && b.first == c.first {
        text::lemma_text_le_transitive(a.text, b.text, c.text);
    }
}

proof fn lemma_key_le_total(a: SortKeyView, b: SortKeyView)
    ensures
        key_le(a, b) || key_le(b, a),
{
    text::lemma_text_le_total(a.text, b.text);
}

/// A sequence of keys has one order only.
pub proof fn lemma_order_unique(keys: Seq<SortKeyView>, a: Seq<usize>, b: Seq<usize>)
    requires
        is_order(keys, a),
        is_order(keys, b),
    ensures
        a == b,
{
    assert forall|n: int| 0 <= n <= a.len() implies a.take(n) == #[trigger] b.take(n) by {
        lemma_order_prefix(keys, a, b, n);
    }
    assert(a.take(a.len() as int) =~= a);
    assert(b.take(a.len() as int) =~= b);
}

proof fn lemma_order_prefix(keys: Seq<SortKeyView>, a: Seq<usize>, b: Seq<usize>, n: int)
    requires
        is_order(keys, a),
        is_order(keys, b),
        0 <= n <= a.len(),
    ensures
        a.take(n) == b.take(n),
    decreases n,
{
    if n > 0 {
        let i = n - 1;
        lemma_order_prefix(keys, a, b, i);
        if a[i] != b[i] {
            lemma_later(keys, a, b, i);
            lemma_later(keys, b, a, i);
            assert(goes_before(keys, a[i] as int, b[i] as int));
            assert(goes_before(keys, b[i] as int, a[i] as int));
        }
        assert(a.take(n) =~= a.take(i).push(a[i]));
        assert(b.take(n) =~= b.take(i).push(b[i]));
    }
    assert(a.take(n) =~= b.take(n));
}

/// Where two orders agree up to `i` and then differ, what the first has at `i` comes later in
/// the second.
proof fn lemma_later(keys: Seq<SortKeyView>, a: Seq<usize>, b: Seq<usize>, i: int)
    requires
        is_order(keys, a),
        is_order(keys, b),
        0 <= i < a.len(),
        a.take(i) == b.take(i),
        a[i] != b[i],
    ensures
        goes_before(keys, b[i] as int, a[i] as int),
{
    assert(b.contains(a[i]));
    let j = choose|j: int| 0 <= j < b.len() && b[j] == a[i];
    if j < i {
        assert(a[j] == a.take(i)[j]);
        assert(b[j] == b.take(i)[j]);
        assert(goes_before(keys, a[j] as int, a[i] as int));
        text::lemma_text_le_reflexive(keys[a[i] as int].text);
    }
}

/// The order of the keys.
pub fn sort_order(keys: &Vec<SortKey>) -> (order: Vec<usize>)
    ensures
        is_order(keys.deep_view(), order@),
{
    let mut order: Vec<usize> = Vec::new();
    let ghost ks = keys.deep_view();
    let mut n: usize = 0;
    while n < keys.len()
        invariant
            n <= keys@.len(),
            ks == keys.deep_view(),
            is_order(ks.take(n as int), order@),
        decreases keys.len() - n,
    {
        let ghost part = ks.take(n as int);
        let ghost before = order@;
        let mut at: usize = order.len();
        while at > 0 && !key_at_most(&keys[order[at - 1]], &keys[n])
            invariant
                at <= order@.len(),
                n < keys@.len(),
                ks == keys.deep_view(),
                part == ks.take(n as int),
                order@ == before,
                is_order(part, before),
                forall|k: int| at <= k < before.len() ==> !key_le(ks[(#[trigger] before[k]) as int], ks[n as int]),
            decreases at,
        {
            at -= 1;
        }
        order.insert(at, n);
        proof {
            let next = ks.take(n + 1);
            let now = order@;
            assert forall|k: int| 0 <= k < at implies key_le(ks[(#[trigger] before[k]) as int], ks[n as int]) by {
                if k < at - 1 {
                    assert(goes_before(part, before[k] as int, before[at - 1] as int));
                    lemma_key_le_transitive(ks[before[k] as int], ks[before[at - 1] as int], ks[n as int]);
                }
            }
            assert forall|x: usize| 0 <= x < next.len() implies #[trigger] now.contains(x) by {
                if x == n {
                    assert(now[at as int] == n);
                } else {
                    assert(before.contains(x));
                    let k = choose|k: int| 0 <= k < before.len() && before[k] == x;
                    if k < at {
                        assert(now[k] == x);
                    } else {
                        assert(now[k + 1] == x);
                    }
                }
            }
            assert forall|i: int, j: int| 0 <= i < j < now.len() implies goes_before(
                next,
                #[trigger] now[i] as int,
                #[trigger] now[j] as int,
            ) by {
                let i0 = if i < at { i } else { i - 1 };
                let j0 = if j < at { j } else { j - 1 };
                if i == at {
                    assert(now[j] == before[j0]);
                    lemma_key_le_total(ks[before[j0] as int], ks[n as int]);
                } else if j == at {
                    assert(now[i] == before[i0]);
                    assert(before[i0] < n);
                } else {
                    assert(now[i] == before[i0]);
                    assert(now[j] == before[j0]);
                    assert(goes_before(part, before[i0] as int, before[j0] as int));
                    assert(before[i0] < n && before[j0] < n);
                }
            }
            assert forall|i: int| 0 <= i < now.len() implies (#[trigger] now[i]) < next.len() by {
                if i < at {
                    assert(now[i] == before[i]);
                } else if i > at {
                    assert(now[i] == before[i - 1]);
                }
            }
        }
        n += 1;
    }
    assert(ks.take(n as int) =~= ks);
    order
}

fn key_at_most(a: &SortKey, b: &SortKey) -> (r: bool)
    ensures
        r == key_le(a.deep_view(), b.deep_view()),
{
    if a.first == b.first {
        text::le(&a.text, &b.text)
    } else {
        a.first
    }
}

/// Moves the items to the positions that `order` gives them.
pub fn permute<T>(items: Vec<T>, order: &Vec<usize>) -> (r: Vec<T>)
    requires
        exists|keys: Seq<SortKeyView>| keys.len() == items@.len() && is_order(keys, order@),
    ensures
        r@ == permuted(items@, order@),
{
    let ghost keys = choose|keys: Seq<SortKeyView>| keys.len() == items@.len() && is_order(keys, order@);
    let ghost all = items@;
    let mut slots: Vec<Option<T>> = Vec::new();
    for x in it: items
        invariant
            it.seq() == all,
            slots@.len() == it.index(),
            forall|i: int| 0 <= i < it.index() ==> #[trigger] slots@[i] == Some(all[i]),
    {
        slots.push(Some(x));
    }
    let mut out: Vec<T> = Vec::new();
    let mut k: usize = 0;
    while k < order.len()
        invariant
            k <= order@.len() == all.len() == slots@.len() == keys.len(),
            is_order(keys, order@),
            out@ == permuted(all, order@).take(k as int),
            forall|j: int| k <= j < order@.len() ==> slots@[(#[trigger] order@[j]) as int] == Some(all[order@[j] as int]),
        decreases order.len() - k,
    {
        let at: usize = order[k];
        proof {
            assert forall|j: int| k < j < order@.len() implies (#[trigger] order@[j]) != at by {
                assert(goes_before(keys, order@[k as int] as int, order@[j] as int));
                text::lemma_text_le_reflexive(keys[at as int].text);
            }
        }
        let x: Option<T> = slots[at].take();
        out.push(x.unwrap());
        k += 1;
        assert(out@ =~= permuted(all, order@).take(k as int));
    }
    assert(permuted(all, order@).take(k as int) =~= permuted(all, order@));
    out
}

} // verus!
