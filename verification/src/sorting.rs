//! Sorting by a relation that a comparator computes: what the sorted sequence
//! is, what holds of it, and the sort itself.

use vstd::prelude::*;

verus! {

/// `sorted` with `item` put behind the last item that it does not precede.
pub open spec fn insert_by<T>(sorted: Seq<T>, item: T, precedes: spec_fn(T, T) -> bool) -> Seq<T>
    decreases sorted.len(),
{
    if sorted.len() > 0 && precedes(item, sorted.last()) {
        insert_by(sorted.drop_last(), item, precedes).push(sorted.last())
    } else {
        sorted.push(item)
    }
}

/// The items of `items` sorted by `precedes`: each item in turn is put behind
/// the last of those before it that it does not precede. Items of which
/// neither precedes the other keep their order.
pub open spec fn sort_by<T>(items: Seq<T>, precedes: spec_fn(T, T) -> bool) -> Seq<T>
    decreases items.len(),
{
    if items.len() == 0 {
        items
    } else {
        insert_by(sort_by(items.drop_last(), precedes), items.last(), precedes)
    }
}

/// Inserting adds one item and keeps whatever held of every item.
pub proof fn lemma_insert_by_keeps<T>(
    sorted: Seq<T>,
    item: T,
    precedes: spec_fn(T, T) -> bool,
    holds: spec_fn(T) -> bool,
)
    requires
        forall|i: int| 0 <= i < sorted.len() ==> holds(#[trigger] sorted[i]),
        holds(item),
    ensures
        insert_by(sorted, item, precedes).len() == sorted.len() + 1,
        forall|i: int|
            0 <= i < sorted.len() + 1 ==> holds(#[trigger] insert_by(sorted, item, precedes)[i]),
    decreases sorted.len(),
{
    if sorted.len() > 0 && precedes(item, sorted.last()) {
        lemma_insert_by_keeps(sorted.drop_last(), item, precedes, holds);
        assert(holds(sorted[sorted.len() - 1]));
    }
}

/// Sorting keeps the number of items and whatever held of every item.
pub proof fn lemma_sort_by_keeps<T>(
    items: Seq<T>,
    precedes: spec_fn(T, T) -> bool,
    holds: spec_fn(T) -> bool,
)
    requires
        forall|i: int| 0 <= i < items.len() ==> holds(#[trigger] items[i]),
    ensures
        sort_by(items, precedes).len() == items.len(),
        forall|i: int| 0 <= i < items.len() ==> holds(#[trigger] sort_by(items, precedes)[i]),
    decreases items.len(),
{
    if items.len() > 0 {
        lemma_sort_by_keeps(items.drop_last(), precedes, holds);
        assert(holds(items[items.len() - 1]));
        lemma_insert_by_keeps(sort_by(items.drop_last(), precedes), items.last(), precedes, holds);
    }
}

/// Whether `items` stand in the order of `precedes`: no item precedes one
/// that stands before it.
pub open spec fn ordered_by<T>(items: Seq<T>, precedes: spec_fn(T, T) -> bool) -> bool {
    forall|i: int, j: int|
        0 <= i < j < items.len() ==> !precedes(#[trigger] items[j], #[trigger] items[i])
}

/// Whether `precedes` is the strict part of a total preorder: of two items
/// at most one precedes the other, and an item that does not come after a
/// second that does not come after a third does not come after the third.
pub open spec fn strict_weak_order<T>(precedes: spec_fn(T, T) -> bool) -> bool {
    &&& forall|a: T, b: T| #[trigger] precedes(a, b) ==> !precedes(b, a)
    &&& forall|a: T, b: T, c: T|
        !(#[trigger] precedes(b, a)) && !(#[trigger] precedes(c, b)) ==> !precedes(c, a)
}

/// Inserting into items that stand in order leaves them in order.
pub proof fn lemma_insert_by_orders<T>(sorted: Seq<T>, item: T, precedes: spec_fn(T, T) -> bool)
    requires
        strict_weak_order(precedes),
        ordered_by(sorted, precedes),
    ensures
        ordered_by(insert_by(sorted, item, precedes), precedes),
    decreases sorted.len(),
{
    let result = insert_by(sorted, item, precedes);
    if sorted.len() > 0 && precedes(item, sorted.last()) {
        let rest = sorted.drop_last();
        let last = sorted.last();
        assert forall|i: int, j: int| 0 <= i < j < rest.len() implies !precedes(
            #[trigger] rest[j],
            #[trigger] rest[i],
        ) by {
            assert(!precedes(sorted[j], sorted[i]));
        }
        lemma_insert_by_orders(rest, item, precedes);
        let before = |x: T| !precedes(last, x);
        assert forall|i: int| 0 <= i < rest.len() implies before(#[trigger] rest[i]) by {
            assert(!precedes(sorted[sorted.len() - 1], sorted[i]));
        }
        lemma_insert_by_keeps(rest, item, precedes, before);
        let head = insert_by(rest, item, precedes);
        assert forall|i: int, j: int| 0 <= i < j < result.len() implies !precedes(
            #[trigger] result[j],
            #[trigger] result[i],
        ) by {
            if j < head.len() {
                assert(!precedes(head[j], head[i]));
            } else {
                assert(before(head[i]));
            }
        }
    } else {
        assert forall|i: int, j: int| 0 <= i < j < result.len() implies !precedes(
            #[trigger] result[j],
            #[trigger] result[i],
        ) by {
            if j < sorted.len() {
                assert(!precedes(sorted[j], sorted[i]));
            } else {
                assert(!precedes(sorted[sorted.len() - 1], sorted[i]) || i == sorted.len() - 1);
                assert(!precedes(item, sorted.last()));
            }
        }
    }
}

/// Sorting by the strict part of a total preorder puts the items in order.
pub proof fn lemma_sort_by_orders<T>(items: Seq<T>, precedes: spec_fn(T, T) -> bool)
    requires
        strict_weak_order(precedes),
    ensures
        ordered_by(sort_by(items, precedes), precedes),
    decreases items.len(),
{
    if items.len() > 0 {
        lemma_sort_by_orders(items.drop_last(), precedes);
        lemma_insert_by_orders(sort_by(items.drop_last(), precedes), items.last(), precedes);
    }
}

/// Sorting leaves items that stand in order as they are.
pub proof fn lemma_sort_by_keeps_order<T>(items: Seq<T>, precedes: spec_fn(T, T) -> bool)
    requires
        ordered_by(items, precedes),
    ensures
        sort_by(items, precedes) == items,
    decreases items.len(),
{
    if items.len() > 0 {
        let rest = items.drop_last();
        assert forall|i: int, j: int| 0 <= i < j < rest.len() implies !precedes(
            #[trigger] rest[j],
            #[trigger] rest[i],
        ) by {
            assert(!precedes(items[j], items[i]));
        }
        lemma_sort_by_keeps_order(rest, precedes);
        if rest.len() > 0 {
            assert(!precedes(items[items.len() - 1], items[rest.len() - 1]));
        }
        assert(rest.push(items.last()) == items);
    }
}

/// The items that tie with `x`: neither precedes the other.
pub open spec fn tied_with<T>(precedes: spec_fn(T, T) -> bool, x: T) -> spec_fn(T) -> bool {
    |y: T| !precedes(x, y) && !precedes(y, x)
}

/// Inserting by the strict part of a total preorder puts the item behind
/// the items that tie with it.
pub proof fn lemma_insert_by_is_stable<T>(
    sorted: Seq<T>,
    item: T,
    precedes: spec_fn(T, T) -> bool,
    x: T,
)
    requires
        strict_weak_order(precedes),
    ensures
        insert_by(sorted, item, precedes).filter(tied_with(precedes, x)) == sorted.push(
            item,
        ).filter(tied_with(precedes, x)),
    decreases sorted.len(),
{
    let ties = tied_with(precedes, x);
    if sorted.len() > 0 && precedes(item, sorted.last()) {
        let rest = sorted.drop_last();
        let last = sorted.last();
        lemma_insert_by_is_stable(rest, item, precedes, x);
        insert_by(rest, item, precedes).lemma_filter_push(last, ties);
        rest.lemma_filter_push(item, ties);
        rest.lemma_filter_push(last, ties);
        sorted.lemma_filter_push(item, ties);
        assert(rest.push(last) == sorted);
        if ties(item) && ties(last) {
            assert(!precedes(x, last) && !precedes(item, x));
            assert(!precedes(item, last));
        }
    }
}

/// Sorting by the strict part of a total preorder is stable: items that tie
/// with one another come in the order in which they came.
pub proof fn lemma_sort_by_is_stable<T>(items: Seq<T>, precedes: spec_fn(T, T) -> bool, x: T)
    requires
        strict_weak_order(precedes),
    ensures
        sort_by(items, precedes).filter(tied_with(precedes, x)) == items.filter(
            tied_with(precedes, x),
        ),
    decreases items.len(),
{
    let ties = tied_with(precedes, x);
    if items.len() > 0 {
        let rest = items.drop_last();
        let last = items.last();
        lemma_sort_by_is_stable(rest, precedes, x);
        lemma_insert_by_is_stable(sort_by(rest, precedes), last, precedes, x);
        sort_by(rest, precedes).lemma_filter_push(last, ties);
        rest.lemma_filter_push(last, ties);
        assert(rest.push(last) == items);
    }
}

/// Sorting rearranges: the result holds every item as often as `items` does.
pub proof fn lemma_sort_by_rearranges<T>(items: Seq<T>, precedes: spec_fn(T, T) -> bool)
    ensures
        sort_by(items, precedes).to_multiset() == items.to_multiset(),
    decreases items.len(),
{
    broadcast use vstd::seq_lib::group_to_multiset_ensures;

    if items.len() > 0 {
        let rest = items.drop_last();
        lemma_sort_by_rearranges(rest, precedes);
        lemma_insert_by_rearranges(sort_by(rest, precedes), items.last(), precedes);
        assert(rest.push(items.last()) == items);
    }
}

/// Inserting rearranges what was there and adds the item.
pub proof fn lemma_insert_by_rearranges<T>(sorted: Seq<T>, item: T, precedes: spec_fn(T, T) -> bool)
    ensures
        insert_by(sorted, item, precedes).to_multiset() == sorted.to_multiset().insert(item),
    decreases sorted.len(),
{
    broadcast use vstd::seq_lib::group_to_multiset_ensures;

    if sorted.len() > 0 && precedes(item, sorted.last()) {
        let rest = sorted.drop_last();
        lemma_insert_by_rearranges(rest, item, precedes);
        assert(rest.push(sorted.last()) == sorted);
        assert(rest.to_multiset().insert(item).insert(sorted.last()) == rest.to_multiset().insert(
            sorted.last(),
        ).insert(item));
    }
}

/// Whether `precedes` is the relation that `less` computes: whatever `less`
/// answers of two items, `precedes` holds of them exactly when the answer is
/// `true`.
pub open spec fn computes<T, L: Fn(&T, &T) -> bool>(
    less: &L,
    precedes: spec_fn(T, T) -> bool,
) -> bool {
    forall|a: &T, b: &T, r: bool| #[trigger] less.ensures((a, b), r) ==> r == precedes(*a, *b)
}

/// Put `item` into `sorted`, behind the last item that `less` does not put it
/// before.
pub fn insert_sorted<T: Copy, L: Fn(&T, &T) -> bool>(sorted: &mut Vec<T>, item: T, less: &L)
    requires
        forall|a: &T, b: &T| #[trigger] less.requires((a, b)),
    ensures
        final(sorted)@.to_multiset() == old(sorted)@.to_multiset().insert(item),
        forall|precedes: spec_fn(T, T) -> bool| #[trigger]
            computes(less, precedes) ==> final(sorted)@ == insert_by(old(sorted)@, item, precedes),
{
    broadcast use vstd::seq_lib::group_to_multiset_ensures;

    let ghost before = sorted@;
    let mut at: usize = sorted.len();
    proof {
        assert(before.take(at as int) == before);
        assert(before.skip(at as int) == Seq::<T>::empty());
        assert forall|precedes: spec_fn(T, T) -> bool| #[trigger]
            computes(less, precedes) implies insert_by(before, item, precedes) == insert_by(
            before.take(at as int),
            item,
            precedes,
        ) + before.skip(at as int) by {
            assert(insert_by(before, item, precedes) + Seq::<T>::empty() == insert_by(
                before,
                item,
                precedes,
            ));
        }
    }
    while at > 0
        invariant_except_break
            forall|precedes: spec_fn(T, T) -> bool| #[trigger]
                computes(less, precedes) ==> insert_by(before, item, precedes) == insert_by(
                    before.take(at as int),
                    item,
                    precedes,
                ) + before.skip(at as int),
        invariant
            at <= sorted.len(),
            sorted@ == before,
            forall|a: &T, b: &T| #[trigger] less.requires((a, b)),
        ensures
            forall|precedes: spec_fn(T, T) -> bool| #[trigger]
                computes(less, precedes) ==> insert_by(before, item, precedes) == before.insert(
                    at as int,
                    item,
                ),
        decreases at,
    {
        let ghost head = before.take(at as int);
        if !less(&item, &sorted[at - 1]) {
            proof {
                assert(head.last() == before[at - 1]);
                assert(head.push(item) + before.skip(at as int) == before.insert(at as int, item));
            }
            break ;
        }
        proof {
            assert(head.last() == before[at - 1]);
            assert(head.drop_last() == before.take(at - 1));
            assert forall|precedes: spec_fn(T, T) -> bool| #[trigger]
                computes(less, precedes) implies insert_by(before, item, precedes) == insert_by(
                before.take(at - 1),
                item,
                precedes,
            ) + before.skip(at - 1) by {
                assert(insert_by(before.take(at - 1), item, precedes).push(before[at - 1])
                    + before.skip(at as int) == insert_by(before.take(at - 1), item, precedes)
                    + before.skip(at - 1));
            }
        }
        at -= 1;
    }
    proof {
        if at == 0 {
            assert(before.take(0).push(item) + before.skip(0) == before.insert(0, item));
        }
    }
    sorted.insert(at, item);
}

/// The items of `items`, sorted by `less`.
pub fn sorted_by<T: Copy, L: Fn(&T, &T) -> bool>(items: &Vec<T>, less: &L) -> (r: Vec<T>)
    requires
        forall|a: &T, b: &T| #[trigger] less.requires((a, b)),
    ensures
        r@.to_multiset() == items@.to_multiset(),
        forall|precedes: spec_fn(T, T) -> bool| #[trigger]
            computes(less, precedes) ==> r@ == sort_by(items@, precedes),
{
    broadcast use vstd::seq_lib::group_to_multiset_ensures;

    let mut sorted: Vec<T> = Vec::new();
    let mut i: usize = 0;
    while i < items.len()
        invariant
            i <= items.len(),
            sorted@.to_multiset() == items@.take(i as int).to_multiset(),
            forall|precedes: spec_fn(T, T) -> bool| #[trigger]
                computes(less, precedes) ==> sorted@ == sort_by(items@.take(i as int), precedes),
            forall|a: &T, b: &T| #[trigger] less.requires((a, b)),
        decreases items.len() - i,
    {
        proof {
            assert(items@.take(i + 1).drop_last() == items@.take(i as int));
            assert(items@.take(i + 1) == items@.take(i as int).push(items@[i as int]));
            vstd::seq_lib::to_multiset_build(items@.take(i as int), items@[i as int]);
        }
        insert_sorted(&mut sorted, items[i], less);
        i += 1;
    }
    assert(items@.take(i as int) == items@);
    sorted
}

} // verus!
