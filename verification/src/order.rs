//! The reading order of a layout: items sorted by row, then by column, keeping
//! the input order of items at the same position (a stable sort).

use vstd::prelude::*;
use crate::item::LayoutItem;

verus! {

/// `a` comes no later than `b` in reading order: a smaller `y`, or the same `y`
/// and an `x` that is not larger.
pub open spec fn reads_before(a: LayoutItem, b: LayoutItem) -> bool {
    a.y < b.y || (a.y == b.y && a.x <= b.x)
}

/// Puts `e` into `s` just before the first item that reads strictly after `e`
/// (at the end when there is none).
pub open spec fn insert_in_order(s: Seq<LayoutItem>, e: LayoutItem) -> Seq<LayoutItem>
    decreases s.len(),
{
    if s.len() == 0 {
        seq![e]
    } else if !reads_before(s[0], e) {
        seq![e] + s
    } else {
        seq![s[0]] + insert_in_order(s.drop_first(), e)
    }
}

/// The stable sort of `s` by reading order.
pub open spec fn reading_order(s: Seq<LayoutItem>) -> Seq<LayoutItem>
    decreases s.len(),
{
    if s.len() == 0 {
        s
    } else {
        insert_in_order(reading_order(s.drop_last()), s.last())
    }
}

/// Where [`insert_in_order`] puts `e`: after a prefix of items that read no
/// later than `e`, before an item that reads after it, if any.
proof fn insert_in_order_at(s: Seq<LayoutItem>, e: LayoutItem, p: int)
    requires
        0 <= p <= s.len(),
        forall|j: int| 0 <= j < p ==> reads_before(s[j], e),
        p < s.len() ==> !reads_before(s[p], e),
    ensures
        insert_in_order(s, e) == s.insert(p, e),
    decreases s.len(),
{
    if s.len() == 0 {
        assert(s.insert(p, e) =~= seq![e]);
    } else if p == 0 {
        assert(s.insert(p, e) =~= seq![e] + s);
    } else {
        let t = s.drop_first();
        assert forall|j: int| 0 <= j < p - 1 implies reads_before(t[j], e) by {
            assert(t[j] == s[j + 1]);
        }
        insert_in_order_at(t, e, p - 1);
        assert(s.insert(p, e) =~= seq![s[0]] + t.insert(p - 1, e));
    }
}

/// Sorting keeps every item and adds none: the two layouts hold the same
/// items, counted with multiplicity.
pub proof fn reading_order_is_permutation(s: Seq<LayoutItem>)
    ensures
        reading_order(s).len() == s.len(),
        reading_order(s).to_multiset() =~= s.to_multiset(),
    decreases s.len(),
{
    broadcast use vstd::seq_lib::to_multiset_insert, vstd::seq_lib::to_multiset_build;
    if s.len() > 0 {
        let r = reading_order(s.drop_last());
        reading_order_is_permutation(s.drop_last());
        let p = first_after(r, s.last());
        first_after_meaning(r, s.last());
        insert_in_order_at(r, s.last(), p);
        assert(s.drop_last().push(s.last()) =~= s);
        assert(r.insert(p, s.last()).to_multiset() =~= r.to_multiset().insert(s.last()));
    }
}

/// The first index of `s` whose item reads strictly after `e` (or `s.len()`).
spec fn first_after(s: Seq<LayoutItem>, e: LayoutItem) -> int
    decreases s.len(),
{
    if s.len() == 0 {
        0
    } else if !reads_before(s[0], e) {
        0
    } else {
        1 + first_after(s.drop_first(), e)
    }
}

proof fn first_after_meaning(s: Seq<LayoutItem>, e: LayoutItem)
    ensures
        0 <= first_after(s, e) <= s.len(),
        forall|j: int| 0 <= j < first_after(s, e) ==> reads_before(s[j], e),
        first_after(s, e) < s.len() ==> !reads_before(s[first_after(s, e)], e),
    decreases s.len(),
{
    if s.len() > 0 && reads_before(s[0], e) {
        first_after_meaning(s.drop_first(), e);
        assert forall|j: int| 0 < j < first_after(s, e) implies reads_before(s[j], e) by {
            assert(s[j] == s.drop_first()[j - 1]);
        }
    }
}

/// Every item of the sorted layout is an item of the input.
pub proof fn reading_order_items_from_input(s: Seq<LayoutItem>, k: int)
    requires
        0 <= k < reading_order(s).len(),
    ensures
        reading_order(s).len() == s.len(),
        s.contains(reading_order(s)[k]),
{
    broadcast use vstd::seq_lib::to_multiset_contains;
    reading_order_is_permutation(s);
    assert(reading_order(s).contains(reading_order(s)[k]));
    assert(reading_order(s).to_multiset().count(reading_order(s)[k]) > 0);
}

/// Inserting into a sorted sequence keeps it sorted.
proof fn insert_in_order_sorted(s: Seq<LayoutItem>, e: LayoutItem)
    requires
        forall|i: int, j: int| 0 <= i < j < s.len() ==> reads_before(#[trigger] s[i], #[trigger] s[j]),
    ensures
        insert_in_order(s, e).len() == s.len() + 1,
        forall|i: int, j: int|
            0 <= i < j < s.len() + 1 ==> reads_before(
                #[trigger] insert_in_order(s, e)[i],
                #[trigger] insert_in_order(s, e)[j],
            ),
{
    let p = first_after(s, e);
    first_after_meaning(s, e);
    insert_in_order_at(s, e, p);
    let t = s.insert(p, e);
    assert forall|i: int, j: int| 0 <= i < j < s.len() + 1 implies reads_before(
        #[trigger] t[i],
        #[trigger] t[j],
    ) by {
        if i < p && j < p {
            assert(t[i] == s[i] && t[j] == s[j]);
        } else if i < p && j == p {
            assert(t[i] == s[i]);
        } else if i < p {
            assert(t[i] == s[i] && t[j] == s[j - 1]);
        } else if i == p {
            assert(t[j] == s[j - 1]);
            assert(!reads_before(s[p], e));
            if j - 1 > p {
                assert(reads_before(s[p], s[j - 1]));
            }
        } else {
            assert(t[i] == s[i - 1] && t[j] == s[j - 1]);
        }
    }
}

/// [`reading_order`] is sorted: each item reads no later than every item after it.
pub proof fn reading_order_sorted(s: Seq<LayoutItem>)
    ensures
        forall|i: int, j: int|
            0 <= i < j < reading_order(s).len() ==> reads_before(
                #[trigger] reading_order(s)[i],
                #[trigger] reading_order(s)[j],
            ),
    decreases s.len(),
{
    if s.len() > 0 {
        reading_order_sorted(s.drop_last());
        reading_order_is_permutation(s.drop_last());
        insert_in_order_sorted(reading_order(s.drop_last()), s.last());
    }
}

/// Sorts `layout` into reading order, keeping the order of items at the same position.
pub fn sort_by_position(layout: &mut Vec<LayoutItem>)
    ensures
        final(layout)@ == reading_order(old(layout)@),
{
    let n = layout.len();
    let mut sorted: Vec<LayoutItem> = Vec::new();
    let mut i: usize = 0;
    while i < n
        invariant
            n == layout@.len(),
            i <= n,
            sorted@ == reading_order(layout@.take(i as int)),
            sorted@.len() == i,
        decreases n - i,
    {
        let e = layout[i].clone();
        let mut p: usize = 0;
        loop
            invariant
                p <= sorted@.len(),
                forall|j: int| 0 <= j < p ==> reads_before(sorted@[j], e),
            ensures
                p <= sorted@.len(),
                forall|j: int| 0 <= j < p ==> reads_before(sorted@[j], e),
                p < sorted@.len() ==> !reads_before(sorted@[p as int], e),
            decreases sorted@.len() - p,
        {
            if p >= sorted.len() {
                break;
            }
            let before = sorted[p].y < e.y || (sorted[p].y == e.y && sorted[p].x <= e.x);
            if !before {
                break;
            }
            p = p + 1;
        }
        proof {
            insert_in_order_at(sorted@, e, p as int);
            assert(layout@.take(i + 1).drop_last() =~= layout@.take(i as int));
            assert(layout@.take(i + 1).last() == e);
        }
        sorted.insert(p, e);
        i = i + 1;
    }
    proof {
        assert(layout@.take(n as int) =~= layout@);
        reading_order_is_permutation(layout@);
    }
    *layout = sorted;
}

} // verus!
