//! The most frequent values of an ordered scan, each with its exact count.

use crate::encoding::bytes_less;
use crate::encoding::bytes_lt;
use crate::encoding::lemma_bytes_lt_asymmetric;
use crate::encoding::lemma_bytes_lt_total;
use crate::encoding::lemma_bytes_lt_transitive;
use vstd::prelude::*;

verus! {

/// A value with the number of times it was seen.
pub type Counted = (u32, Seq<u8>);

/// The order on counted values: by count, and by value where counts are
/// equal.
pub open spec fn counted_lt(a: Counted, b: Counted) -> bool {
    a.0 < b.0 || (a.0 == b.0 && bytes_lt(a.1, b.1))
}

/// No item sorts before one that follows it: the greatest comes first.
pub open spec fn items_descend(items: Seq<Counted>) -> bool {
    forall|i: int, j: int| 0 <= i <= j < items.len() ==> !counted_lt(items[i], items[j])
}

/// `p` is where the items that sort before `x` begin, counted from the
/// end.
pub open spec fn is_top_place(items: Seq<Counted>, x: Counted, p: int) -> bool {
    &&& 0 <= p <= items.len()
    &&& forall|i: int| p <= i < items.len() ==> counted_lt(#[trigger] items[i], x)
    &&& p > 0 ==> !counted_lt(items[p - 1], x)
}

/// Where `x` joins the items: in front of the items at the end that sort
/// before it.
pub open spec fn top_place(items: Seq<Counted>, x: Counted) -> int {
    choose|p: int| is_top_place(items, x, p)
}

/// The items after `x` was offered: `x` joins at its place, and if that
/// makes more than `n` items the last one, the least, leaves.
pub open spec fn top_push(items: Seq<Counted>, x: Counted, n: nat) -> Seq<Counted> {
    let grown = items.insert(top_place(items, x), x);
    if grown.len() > n {
        grown.drop_last()
    } else {
        grown
    }
}

/// The views of a list of counted values.
pub open spec fn counted_view(items: Seq<(u32, Vec<u8>)>) -> Seq<Counted> {
    Seq::new(items.len(), |i: int| (items[i].0, items[i].1@))
}

/// There is one place for each item.
pub proof fn lemma_top_place_unique(items: Seq<Counted>, x: Counted, p: int)
    requires
        is_top_place(items, x, p),
    ensures
        top_place(items, x) == p,
{
    let q = top_place(items, x);
    assert(is_top_place(items, x, q));
    if q < p {
        assert(counted_lt(items[p - 1], x));
    }
    if p < q {
        assert(counted_lt(items[q - 1], x));
    }
}

/// The order on counted values is a strict total order.
pub proof fn lemma_counted_order(a: Counted, b: Counted, c: Counted)
    ensures
        !(counted_lt(a, b) && counted_lt(b, a)),
        a == b || counted_lt(a, b) || counted_lt(b, a),
        counted_lt(a, b) && counted_lt(b, c) ==> counted_lt(a, c),
        !counted_lt(a, b) && !counted_lt(b, c) ==> !counted_lt(a, c),
{
    lemma_bytes_lt_asymmetric(a.1, b.1);
    lemma_bytes_lt_asymmetric(b.1, c.1);
    lemma_bytes_lt_asymmetric(a.1, c.1);
    lemma_bytes_lt_total(a.1, b.1);
    lemma_bytes_lt_total(b.1, c.1);
    lemma_bytes_lt_total(a.1, c.1);
    if bytes_lt(a.1, b.1) && bytes_lt(b.1, c.1) {
        lemma_bytes_lt_transitive(a.1, b.1, c.1);
    }
    if bytes_lt(c.1, b.1) && bytes_lt(b.1, a.1) {
        lemma_bytes_lt_transitive(c.1, b.1, a.1);
    }
    if bytes_lt(a.1, c.1) && bytes_lt(c.1, b.1) {
        lemma_bytes_lt_transitive(a.1, c.1, b.1);
    }
    if bytes_lt(b.1, a.1) && bytes_lt(a.1, c.1) {
        lemma_bytes_lt_transitive(b.1, a.1, c.1);
    }
}

/// An offer keeps the items in descending order and within `n`, and what
/// stays are the old items and the new one, but for the least of them
/// where they are too many.
pub proof fn lemma_top_push_descends(items: Seq<Counted>, x: Counted, n: nat)
    requires
        items_descend(items),
        items.len() <= n,
    ensures
        items_descend(items.insert(top_place(items, x), x)),
        items_descend(top_push(items, x, n)),
        top_push(items, x, n).len() <= n,
        is_top_place(items, x, top_place(items, x)),
{
    lemma_top_place_exists(items, x);
    let p = top_place(items, x);
    let grown = items.insert(p, x);
    assert(items_descend(grown)) by {
        assert forall|i: int, j: int| 0 <= i <= j < grown.len() implies !counted_lt(
            grown[i],
            grown[j],
        ) by {
            lemma_counted_order(x, x, x);
            if i < p && j == p {
                assert(grown[i] == items[i]);
                assert(!counted_lt(items[i], items[p - 1]));
                lemma_counted_order(items[i], items[p - 1], x);
            } else if i == p && j > p {
                assert(grown[j] == items[j - 1]);
                assert(counted_lt(items[j - 1], x));
                lemma_counted_order(items[j - 1], x, x);
            } else if i != p && j != p {
                let oi = if i < p {
                    i
                } else {
                    i - 1
                };
                let oj = if j < p {
                    j
                } else {
                    j - 1
                };
                assert(grown[i] == items[oi] && grown[j] == items[oj]);
            }
        }
    }
}

/// Every list of items has a place for every item.
pub proof fn lemma_top_place_exists(items: Seq<Counted>, x: Counted)
    ensures
        is_top_place(items, x, top_place(items, x)),
    decreases items.len(),
{
    if items.len() == 0 {
        assert(is_top_place(items, x, 0));
    } else if !counted_lt(items.last(), x) {
        assert(is_top_place(items, x, items.len() as int));
    } else {
        let front = items.drop_last();
        lemma_top_place_exists(front, x);
        let p = top_place(front, x);
        assert(is_top_place(items, x, p)) by {
            assert forall|i: int| p <= i < items.len() implies counted_lt(
                #[trigger] items[i],
                x,
            ) by {
                if i < front.len() {
                    assert(items[i] == front[i]);
                }
            }
            if p > 0 {
                assert(items[p - 1] == front[p - 1]);
            }
        }
    }
}

/// Offers `x` to the `n` greatest items kept in `items`.
pub fn offer(items: &mut Vec<(u32, Vec<u8>)>, x: (u32, Vec<u8>), n: usize)
    ensures
        counted_view(final(items)@) == top_push(counted_view(old(items)@), (x.0, x.1@), n as nat),
{
    let ghost view = counted_view(items@);
    let ghost item = (x.0, x.1@);
    let mut p: usize = items.len();
    while p > 0 && (items[p - 1].0 < x.0 || (items[p - 1].0 == x.0 && bytes_less(
        &items[p - 1].1,
        &x.1,
    )))
        invariant
            p <= items@.len(),
            view == counted_view(items@),
            item == (x.0, x.1@),
            forall|i: int| p <= i < view.len() ==> counted_lt(#[trigger] view[i], item),
        decreases p,
    {
        p -= 1;
    }
    proof {
        assert(p > 0 ==> !counted_lt(view[p - 1], item));
        lemma_top_place_unique(view, item, p as int);
    }
    items.insert(p, x);
    assert(counted_view(items@) =~= view.insert(p as int, item));
    if items.len() > n {
        items.pop();
        assert(counted_view(items@) =~= view.insert(p as int, item).drop_last());
    }
}

/// Whatever stays after an offer was there before or is the item offered.
pub proof fn lemma_top_push_members(items: Seq<Counted>, x: Counted, n: nat)
    ensures
        forall|k: int|
            0 <= k < top_push(items, x, n).len() ==> (#[trigger] top_push(items, x, n)[k]) == x
                || items.contains(top_push(items, x, n)[k]),
{
    lemma_top_place_exists(items, x);
    let p = top_place(items, x);
    let grown = items.insert(p, x);
    assert forall|k: int| 0 <= k < top_push(items, x, n).len() implies (#[trigger] top_push(
        items,
        x,
        n,
    )[k]) == x || items.contains(top_push(items, x, n)[k]) by {
        assert(top_push(items, x, n)[k] == grown[k]);
        if k < p {
            assert(grown[k] == items[k]);
        } else if k > p {
            assert(grown[k] == items[k - 1]);
        }
    }
}

/// What an offer leaves out is no greater than anything it keeps: of the
/// old items and the new one, the greatest `n` stay.
pub proof fn lemma_top_push_keeps_greatest(items: Seq<Counted>, x: Counted, n: nat)
    requires
        items_descend(items),
        items.len() <= n,
    ensures
        forall|k: int|
            0 <= k < top_push(items, x, n).len() ==> !counted_lt(
                #[trigger] top_push(items, x, n)[k],
                x,
            ) || top_push(items, x, n).contains(x),
        forall|j: int, k: int|
            0 <= j < items.len() && 0 <= k < top_push(items, x, n).len() ==> top_push(
                items,
                x,
                n,
            ).contains(#[trigger] items[j]) || !counted_lt(
                #[trigger] top_push(items, x, n)[k],
                items[j],
            ),
{
    lemma_top_place_exists(items, x);
    lemma_top_push_descends(items, x, n);
    let p = top_place(items, x);
    let grown = items.insert(p, x);
    let kept = top_push(items, x, n);
    assert forall|k: int| 0 <= k < kept.len() implies !counted_lt(#[trigger] kept[k], x)
        || kept.contains(x) by {
        if p < kept.len() {
            assert(kept[p] == x);
        } else {
            assert(kept[k] == grown[k]);
            assert(!counted_lt(grown[k], grown[p]));
        }
    }
    assert forall|j: int, k: int| 0 <= j < items.len() && 0 <= k < kept.len() implies kept.contains(
        #[trigger] items[j],
    ) || !counted_lt(#[trigger] kept[k], items[j]) by {
        let gj = if j < p {
            j
        } else {
            j + 1
        };
        assert(grown[gj] == items[j]);
        if gj < kept.len() {
            assert(kept[gj] == items[j]);
        } else {
            assert(kept[k] == grown[k]);
            assert(!counted_lt(grown[k], grown[gj]));
        }
    }
}

/// No value stands twice among the items.
pub open spec fn values_distinct(items: Seq<Counted>) -> bool {
    forall|j: int, k: int| 0 <= j < k < items.len() ==> items[j].1 != items[k].1
}

/// The counts of the items together.
pub open spec fn total_count(items: Seq<Counted>) -> nat
    decreases items.len(),
{
    if items.len() == 0 {
        0
    } else {
        total_count(items.drop_last()) + items.last().0 as nat
    }
}

/// An item that joins a list, wherever it is put, adds its count to those
/// of the list.
pub proof fn lemma_total_count_insert(items: Seq<Counted>, p: int, x: Counted)
    requires
        0 <= p <= items.len(),
    ensures
        total_count(items.insert(p, x)) == total_count(items) + x.0,
    decreases items.len(),
{
    let grown = items.insert(p, x);
    if p == items.len() {
        assert(grown.drop_last() =~= items);
    } else {
        lemma_total_count_insert(items.drop_last(), p, x);
        assert(grown.drop_last() =~= items.drop_last().insert(p, x));
        assert(grown.last() == items.last());
    }
}

/// An offer of a value that is not among the items leaves no value twice
/// among them, and raises their counts together by no more than the count
/// offered.
pub proof fn lemma_top_push_distinct(items: Seq<Counted>, x: Counted, n: nat)
    requires
        values_distinct(items),
        forall|k: int| 0 <= k < items.len() ==> (#[trigger] items[k]).1 != x.1,
    ensures
        values_distinct(top_push(items, x, n)),
        total_count(top_push(items, x, n)) <= total_count(items) + x.0,
{
    lemma_top_place_exists(items, x);
    let p = top_place(items, x);
    let grown = items.insert(p, x);
    assert(values_distinct(grown)) by {
        assert forall|j: int, k: int| 0 <= j < k < grown.len() implies grown[j].1
            != grown[k].1 by {
            let oj = if j < p {
                j
            } else {
                j - 1
            };
            let ok = if k < p {
                k
            } else {
                k - 1
            };
            if j != p {
                assert(grown[j] == items[oj]);
            }
            if k != p {
                assert(grown[k] == items[ok]);
            }
        }
    }
    lemma_total_count_insert(items, p, x);
    let kept = top_push(items, x, n);
    assert forall|j: int, k: int| 0 <= j < k < kept.len() implies kept[j].1 != kept[k].1 by {
        assert(kept[j] == grown[j] && kept[k] == grown[k]);
    }
}

/// `kept` holds the `n` greatest of the items `offered`, or all of them
/// where they are fewer: it holds items that were offered, greatest first,
/// and whatever was offered and is not held sorts after no item that is.
pub open spec fn holds_greatest(kept: Seq<Counted>, offered: Seq<Counted>, n: nat) -> bool {
    &&& items_descend(kept)
    &&& kept.len() == if offered.len() <= n {
        offered.len()
    } else {
        n
    }
    &&& forall|i: int| 0 <= i < kept.len() ==> offered.contains(#[trigger] kept[i])
    &&& forall|i: int|
        0 <= i < offered.len() ==> kept.contains(#[trigger] offered[i]) || (kept.len() == n
            && forall|j: int| 0 <= j < kept.len() ==> !counted_lt(#[trigger] kept[j], offered[i]))
}

/// What joins a list is in it afterwards, with all that was in it, and
/// nothing else is.
proof fn lemma_insert_members(items: Seq<Counted>, p: int, x: Counted)
    requires
        0 <= p <= items.len(),
    ensures
        items.insert(p, x).contains(x),
        forall|i: int| 0 <= i < items.len() ==> items.insert(p, x).contains(#[trigger] items[i]),
        forall|j: int|
            0 <= j < items.len() + 1 ==> (#[trigger] items.insert(p, x)[j]) == x
                || items.contains(items.insert(p, x)[j]),
{
    let grown = items.insert(p, x);
    assert(grown[p] == x);
    assert forall|i: int| 0 <= i < items.len() implies grown.contains(#[trigger] items[i]) by {
        if i < p {
            assert(grown[i] == items[i]);
        } else {
            assert(grown[i + 1] == items[i]);
        }
    }
    assert forall|j: int| 0 <= j < items.len() + 1 implies (#[trigger] grown[j]) == x
        || items.contains(grown[j]) by {
        if j < p {
            assert(grown[j] == items[j]);
        } else if j > p {
            assert(grown[j] == items[j - 1]);
        }
    }
}

/// What is in a list is, with one more item offered, among the items
/// offered.
proof fn lemma_offered_grows(offered: Seq<Counted>, x: Counted, y: Counted)
    requires
        y == x || offered.contains(y),
    ensures
        offered.push(x).contains(y),
{
    let next = offered.push(x);
    if offered.contains(y) {
        let o = choose|o: int| 0 <= o < offered.len() && offered[o] == y;
        assert(next[o] == y);
    } else {
        assert(next[offered.len() as int] == y);
    }
}

/// An item offered while there is room is kept with all that was kept.
proof fn lemma_top_push_with_room(kept: Seq<Counted>, offered: Seq<Counted>, x: Counted, n: nat)
    requires
        holds_greatest(kept, offered, n),
        kept.len() < n,
    ensures
        holds_greatest(top_push(kept, x, n), offered.push(x), n),
{
    let next = offered.push(x);
    lemma_top_push_descends(kept, x, n);
    let p = top_place(kept, x);
    let after = kept.insert(p, x);
    assert(top_push(kept, x, n) == after);
    lemma_insert_members(kept, p, x);
    assert forall|i: int| 0 <= i < after.len() implies next.contains(#[trigger] after[i]) by {
        lemma_offered_grows(offered, x, after[i]);
    }
    assert forall|i: int| 0 <= i < next.len() implies after.contains(#[trigger] next[i]) by {
        if i < offered.len() {
            assert(next[i] == offered[i]);
            assert(kept.contains(offered[i]));
            let q = choose|q: int| 0 <= q < kept.len() && kept[q] == offered[i];
            assert(after.contains(kept[q]));
        }
    }
}

/// An item offered to a full list joins it, and the least of them all
/// leaves.
proof fn lemma_top_push_full(kept: Seq<Counted>, offered: Seq<Counted>, x: Counted, n: nat)
    requires
        holds_greatest(kept, offered, n),
        kept.len() == n,
    ensures
        holds_greatest(top_push(kept, x, n), offered.push(x), n),
{
    let next = offered.push(x);
    lemma_top_push_descends(kept, x, n);
    let p = top_place(kept, x);
    let grown = kept.insert(p, x);
    let after = grown.drop_last();
    let least = grown.last();
    assert(top_push(kept, x, n) == after);
    lemma_insert_members(kept, p, x);
    assert forall|j: int| 0 <= j < after.len() implies !counted_lt(#[trigger] after[j], least) by {
        assert(after[j] == grown[j]);
        assert(!counted_lt(grown[j], grown[grown.len() - 1]));
    }
    assert forall|i: int| 0 <= i < after.len() implies next.contains(#[trigger] after[i]) by {
        assert(after[i] == grown[i]);
        lemma_offered_grows(offered, x, after[i]);
    }
    assert forall|y: Counted| grown.contains(y) implies after.contains(y) || y == least by {
        let q = choose|q: int| 0 <= q < grown.len() && grown[q] == y;
        if q < after.len() {
            assert(after[q] == y);
        }
    }
    assert forall|i: int| 0 <= i < next.len() implies after.contains(#[trigger] next[i]) || (
    after.len() == n && forall|j: int| 0 <= j < after.len() ==> !counted_lt(
        #[trigger] after[j],
        next[i],
    )) by {
        if i < offered.len() {
            assert(next[i] == offered[i]);
            if kept.contains(offered[i]) {
                let q = choose|q: int| 0 <= q < kept.len() && kept[q] == offered[i];
                assert(grown.contains(kept[q]));
            } else {
                assert forall|j: int| 0 <= j < after.len() implies !counted_lt(
                    #[trigger] after[j],
                    offered[i],
                ) by {
                    assert(after[j] == grown[j]);
                    if j == p {
                        // `x` stays, so the item that leaves was kept before
                        assert(least == kept[kept.len() - 1]);
                        assert(!counted_lt(kept[kept.len() - 1], offered[i]));
                        lemma_counted_order(x, least, offered[i]);
                    } else if j < p {
                        assert(grown[j] == kept[j]);
                        assert(!counted_lt(kept[j], offered[i]));
                    } else {
                        assert(grown[j] == kept[j - 1]);
                        assert(!counted_lt(kept[j - 1], offered[i]));
                    }
                }
            }
        } else {
            assert(next[i] == x);
            assert(grown.contains(x));
        }
    }
}

/// One more item offered leaves the list with the greatest of the items
/// offered so far.
pub proof fn lemma_top_push_holds_greatest(
    kept: Seq<Counted>,
    offered: Seq<Counted>,
    x: Counted,
    n: nat,
)
    requires
        holds_greatest(kept, offered, n),
    ensures
        holds_greatest(top_push(kept, x, n), offered.push(x), n),
{
    if kept.len() < n {
        lemma_top_push_with_room(kept, offered, x, n);
    } else {
        lemma_top_push_full(kept, offered, x, n);
    }
}

} // verus!
