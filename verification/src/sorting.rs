//! Sorting by a strict order; equal items stay in their order.
use vstd::prelude::*;
use vstd::utf8::encode_utf8;

use crate::bytes::{bytes_less, is_bytes_less};
use crate::bytes::{lemma_bytes_less_total, lemma_bytes_less_transitive};
use crate::schema::views;

verus! {

/// A type with an order on what its values stand for.
pub trait Ordered: View + Sized {
    /// Whether one comes before another.
    spec fn before(a: Self::V, b: Self::V) -> bool;

    /// Whether this comes before the other.
    fn comes_before(&self, other: &Self) -> (answer: bool)
        ensures
            answer == Self::before(self@, other@),
    ;
}

/// Items with one more put in behind all that it does not come before.
pub open spec fn inserted<V>(items: Seq<V>, item: V, before: spec_fn(V, V) -> bool) -> Seq<V>
    decreases items.len(),
{
    if items.len() > 0 && before(item, items.last()) {
        inserted(items.drop_last(), item, before).push(items.last())
    } else {
        items.push(item)
    }
}

/// The items in order.
pub open spec fn sorted<V>(items: Seq<V>, before: spec_fn(V, V) -> bool) -> Seq<V>
    decreases items.len(),
{
    if items.len() == 0 {
        items
    } else {
        inserted(sorted(items.drop_last(), before), items.last(), before)
    }
}

/// The order of a type.
pub open spec fn order_of<T: Ordered>() -> spec_fn(T::V, T::V) -> bool {
    |a: T::V, b: T::V| T::before(a, b)
}

/// Whether no item comes before one that stands ahead of it.
pub open spec fn in_order<V>(items: Seq<V>, before: spec_fn(V, V) -> bool) -> bool {
    forall|i: int, j: int|
        0 <= i < j < items.len() ==> !before(#[trigger] items[j], #[trigger] items[i])
}

/// Whether an order is transitive and excludes its opposite.
pub open spec fn strict<V>(before: spec_fn(V, V) -> bool) -> bool {
    strict_on(Set::full(), before)
}

/// Whether an order is transitive and excludes its opposite on some values.
pub open spec fn strict_on<V>(values: Set<V>, before: spec_fn(V, V) -> bool) -> bool {
    &&& forall|a: V, b: V| #[trigger]
        before(a, b) && values.contains(a) && values.contains(b) ==> !before(b, a)
    &&& forall|a: V, b: V, c: V| #[trigger]
        before(a, b) && !#[trigger] before(c, b) && values.contains(a) && values.contains(b)
            && values.contains(c) ==> before(a, c)
}

/// Which items stand in no order to a value.
pub open spec fn tied<V>(value: V, before: spec_fn(V, V) -> bool) -> spec_fn(V) -> bool {
    |item: V| !before(item, value) && !before(value, item)
}

spec fn within<V>(items: Seq<V>, values: Set<V>) -> bool {
    forall|i: int| 0 <= i < items.len() ==> values.contains(#[trigger] items[i])
}

spec fn before_none<V>(x: V, items: Seq<V>, before: spec_fn(V, V) -> bool) -> bool {
    forall|i: int| 0 <= i < items.len() ==> !before(x, #[trigger] items[i])
}

proof fn lemma_inserted<V>(values: Set<V>, items: Seq<V>, item: V, before: spec_fn(V, V) -> bool)
    requires
        strict_on(values, before),
        within(items, values),
        values.contains(item),
        in_order(items, before),
    ensures
        within(inserted(items, item, before), values),
        in_order(inserted(items, item, before), before),
        inserted(items, item, before).to_multiset() == items.to_multiset().insert(item),
        forall|x: V|
            #[trigger] before_none(x, items, before) && !before(x, item) ==> before_none(
                x,
                inserted(items, item, before),
                before,
            ),
    decreases items.len(),
{
    broadcast use vstd::seq_lib::group_to_multiset_ensures;

    let result = inserted(items, item, before);
    if items.len() > 0 && before(item, items.last()) {
        let init = items.drop_last();
        assert(in_order(init, before)) by {
            assert forall|i: int, j: int| 0 <= i < j < init.len() implies !before(
                #[trigger] init[j],
                #[trigger] init[i],
            ) by {
                assert(init[j] == items[j]);
                assert(init[i] == items[i]);
            }
        }
        assert(within(init, values)) by {
            assert forall|i: int| 0 <= i < init.len() implies values.contains(#[trigger] init[i]) by {
                assert(init[i] == items[i]);
            }
        }
        assert(values.contains(items[items.len() - 1]));
        lemma_inserted(values, init, item, before);
        let part = inserted(init, item, before);
        assert(result == part.push(items.last()));
        assert(within(result, values)) by {
            assert forall|i: int| 0 <= i < result.len() implies values.contains(
                #[trigger] result[i],
            ) by {
                if i < part.len() {
                    assert(result[i] == part[i]);
                }
            }
        }
        assert(items =~= init.push(items.last()));
        assert forall|i: int| 0 <= i < init.len() implies !before(
            items.last(),
            #[trigger] init[i],
        ) by {
            assert(init[i] == items[i]);
            assert(items.last() == items[items.len() - 1]);
        }
        assert(!before(items.last(), item));
        assert(before_none(items.last(), init, before));
        assert forall|i: int, j: int| 0 <= i < j < result.len() implies !before(
            #[trigger] result[j],
            #[trigger] result[i],
        ) by {
            if j == part.len() {
                assert(result[i] == part[i]);
            } else {
                assert(result[i] == part[i]);
                assert(result[j] == part[j]);
            }
        }
        assert(result.to_multiset() =~= items.to_multiset().insert(item));
        assert forall|x: V|
            #[trigger] before_none(x, items, before) && !before(x, item) implies before_none(
            x,
            result,
            before,
        ) by {
            assert forall|i: int| 0 <= i < init.len() implies !before(x, #[trigger] init[i]) by {
                assert(init[i] == items[i]);
            }
            assert(before_none(x, init, before));
            assert forall|i: int| 0 <= i < result.len() implies !before(x, #[trigger] result[i]) by {
                if i < part.len() {
                    assert(result[i] == part[i]);
                } else {
                    assert(result[i] == items[items.len() - 1]);
                }
            }
        }
    } else {
        assert(in_order(result, before)) by {
            assert forall|i: int, j: int| 0 <= i < j < result.len() implies !before(
                #[trigger] result[j],
                #[trigger] result[i],
            ) by {
                if j < items.len() {
                    assert(result[j] == items[j]);
                    assert(result[i] == items[i]);
                } else {
                    assert(result[i] == items[i]);
                    if before(item, items[i]) {
                        let last = items[items.len() - 1];
                        assert(values.contains(last) && values.contains(items[i]));
                        if i < items.len() - 1 {
                            assert(!before(last, items[i]));
                        }
                        assert(before(item, last));
                    }
                }
            }
        }
        assert forall|x: V|
            #[trigger] before_none(x, items, before) && !before(x, item) implies before_none(
            x,
            result,
            before,
        ) by {
            assert forall|i: int| 0 <= i < result.len() implies !before(x, #[trigger] result[i]) by {
                if i < items.len() {
                    assert(result[i] == items[i]);
                }
            }
        }
    }
}

/// Among items that stand in no order to a value, the new one comes last.
proof fn lemma_inserted_stays<V>(
    values: Set<V>,
    items: Seq<V>,
    item: V,
    before: spec_fn(V, V) -> bool,
    value: V,
)
    requires
        strict_on(values, before),
        within(items, values),
        values.contains(item),
        values.contains(value),
    ensures
        inserted(items, item, before).filter(tied(value, before)) == items.push(item).filter(
            tied(value, before),
        ),
    decreases items.len(),
{
    if items.len() > 0 && before(item, items.last()) {
        let init = items.drop_last();
        let last = items.last();
        let pred = tied(value, before);
        assert(within(init, values)) by {
            assert forall|i: int| 0 <= i < init.len() implies values.contains(#[trigger] init[i]) by {
                assert(init[i] == items[i]);
            }
        }
        assert(values.contains(items[items.len() - 1]));
        lemma_inserted_stays(values, init, item, before, value);
        lemma_filter_push(inserted(init, item, before), last, pred);
        lemma_filter_push(init, item, pred);
        lemma_filter_push(items, item, pred);
        lemma_filter_push(init, last, pred);
        assert(init.push(last) =~= items);
        assert(!(pred(item) && pred(last))) by {
            if pred(item) && pred(last) {
                assert(before(item, last) && !before(value, last));
            }
        }
    }
}

proof fn lemma_filter_push<V>(items: Seq<V>, item: V, pred: spec_fn(V) -> bool)
    ensures
        items.push(item).filter(pred) == (if pred(item) {
            items.filter(pred).push(item)
        } else {
            items.filter(pred)
        }),
{
    reveal(Seq::filter);
    assert(items.push(item).drop_last() =~= items);
}

/// Sorting keeps the items, puts them in order, and leaves those that stand in no order to each
/// other in the order that they had. The order has to be strict on the items only.
pub proof fn law_sorted<V>(items: Seq<V>, before: spec_fn(V, V) -> bool)
    requires
        strict_on(items.to_set(), before),
    ensures
        in_order(sorted(items, before), before),
        sorted(items, before).to_multiset() == items.to_multiset(),
        forall|value: V|
            items.contains(value) ==> sorted(items, before).filter(
                #[trigger] tied(value, before),
            ) == items.filter(tied(value, before)),
{
    let values = items.to_set();
    assert forall|i: int| 0 <= i < items.len() implies values.contains(#[trigger] items[i]) by {
        assert(items.contains(items[i]));
    }
    lemma_sorted(values, items, before);
    assert forall|value: V| items.contains(value) implies sorted(items, before).filter(
        #[trigger] tied(value, before),
    ) == items.filter(tied(value, before)) by {
        assert(values.contains(value));
        lemma_sorted_stays(values, items, before, value);
    }
}

proof fn lemma_sorted<V>(values: Set<V>, items: Seq<V>, before: spec_fn(V, V) -> bool)
    requires
        strict_on(values, before),
        within(items, values),
    ensures
        within(sorted(items, before), values),
        in_order(sorted(items, before), before),
        sorted(items, before).to_multiset() == items.to_multiset(),
    decreases items.len(),
{
    broadcast use vstd::seq_lib::group_to_multiset_ensures;

    if items.len() > 0 {
        let init = items.drop_last();
        assert(within(init, values)) by {
            assert forall|i: int| 0 <= i < init.len() implies values.contains(#[trigger] init[i]) by {
                assert(init[i] == items[i]);
            }
        }
        assert(values.contains(items[items.len() - 1]));
        lemma_sorted(values, init, before);
        lemma_inserted(values, sorted(init, before), items.last(), before);
        assert(items =~= init.push(items.last()));
    }
}

proof fn lemma_sorted_stays<V>(
    values: Set<V>,
    items: Seq<V>,
    before: spec_fn(V, V) -> bool,
    value: V,
)
    requires
        strict_on(values, before),
        within(items, values),
        values.contains(value),
    ensures
        sorted(items, before).filter(tied(value, before)) == items.filter(tied(value, before)),
    decreases items.len(),
{
    if items.len() > 0 {
        let init = items.drop_last();
        let last = items.last();
        assert(within(init, values)) by {
            assert forall|i: int| 0 <= i < init.len() implies values.contains(#[trigger] init[i]) by {
                assert(init[i] == items[i]);
            }
        }
        assert(values.contains(items[items.len() - 1]));
        lemma_sorted(values, init, before);
        lemma_sorted_stays(values, init, before, value);
        lemma_inserted_stays(values, sorted(init, before), last, before, value);
        lemma_filter_push(sorted(init, before), last, tied(value, before));
        lemma_filter_push(init, last, tied(value, before));
        assert(init.push(last) =~= items);
    }
}

fn insert_item<T: Ordered>(items: &mut Vec<T>, item: T)
    ensures
        views(final(items)@) == inserted(views(old(items)@), item@, order_of::<T>()),
{
    let mut at: usize = items.len();
    let ghost all = views(items@);
    let ghost before = order_of::<T>();
    assert(all.take(at as int) =~= all);
    assert(all.subrange(at as int, all.len() as int) =~= seq![]);
    assert(inserted(all, item@, before) =~= inserted(all.take(at as int), item@, before)
        + all.subrange(at as int, all.len() as int));
    while at > 0 && item.comes_before(&items[at - 1])
        invariant
            at <= items@.len(),
            all == views(items@),
            before == order_of::<T>(),
            inserted(all, item@, before) == inserted(all.take(at as int), item@, before)
                + all.subrange(at as int, all.len() as int),
        decreases at,
    {
        let ghost part = all.take(at as int);
        assert(part.drop_last() =~= all.take(at - 1));
        assert(part.last() == items@[at - 1]@);
        assert(inserted(part, item@, before) == inserted(all.take(at - 1), item@, before).push(
            all[at - 1],
        ));
        assert(inserted(all.take(at - 1), item@, before).push(all[at - 1]) + all.subrange(
            at as int,
            all.len() as int,
        ) =~= inserted(all.take(at - 1), item@, before) + all.subrange(
            at - 1,
            all.len() as int,
        ));
        at -= 1;
    }
    proof {
        let part = all.take(at as int);
        if at > 0 {
            assert(part.last() == items@[at - 1]@);
        }
        assert(inserted(part, item@, before) == part.push(item@));
    }
    items.insert(at, item);
    assert(views(items@) =~= all.take(at as int).push(item@) + all.subrange(
        at as int,
        all.len() as int,
    ));
}

/// The items in order.
pub fn sort_items<T: Ordered>(items: Vec<T>) -> (result: Vec<T>)
    ensures
        views(result@) == sorted(views(items@), order_of::<T>()),
{
    let ghost all = views(items@);
    let mut waiting = items;
    let mut result: Vec<T> = Vec::new();
    assert(views(result@) =~= sorted(all.take(0), order_of::<T>()));
    while waiting.len() > 0
        invariant
            waiting@.len() <= all.len(),
            all == views(items@),
            views(waiting@) == all.skip(all.len() - waiting@.len()),
            views(result@) == sorted(all.take(all.len() - waiting@.len()), order_of::<T>()),
        decreases waiting@.len(),
    {
        let ghost done = all.len() - waiting@.len();
        let ghost before = views(waiting@);
        let item = waiting.remove(0);
        assert(item@ == before[0]);
        assert(views(waiting@) =~= before.skip(1));
        assert(views(waiting@) =~= all.skip(done + 1));
        assert(all.take(done + 1).drop_last() =~= all.take(done));
        assert(all.take(done + 1).last() == item@);
        insert_item(&mut result, item);
    }
    assert(all.take(all.len() as int) =~= all);
    result
}

/// Texts are ordered by their UTF-8 bytes.
pub open spec fn text_less(a: Seq<char>, b: Seq<char>) -> bool {
    bytes_less(encode_utf8(a), encode_utf8(b))
}

/// Whether the first text comes before the second.
pub fn is_text_less(a: &str, b: &str) -> (less: bool)
    ensures
        less == text_less(a@, b@),
{
    is_bytes_less(a.as_bytes(), b.as_bytes())
}

impl Ordered for String {
    open spec fn before(a: Seq<char>, b: Seq<char>) -> bool {
        text_less(a, b)
    }

    fn comes_before(&self, other: &Self) -> (answer: bool) {
        is_text_less(self.as_str(), other.as_str())
    }
}

/// The order of texts is strict.
pub proof fn law_text_order_is_strict()
    ensures
        strict(order_of::<String>()),
{
    let before = order_of::<String>();
    assert forall|a: Seq<char>, b: Seq<char>| #[trigger] before(a, b) implies !before(b, a) by {
        lemma_bytes_less_total(encode_utf8(a), encode_utf8(b));
    }
    assert forall|a: Seq<char>, b: Seq<char>, c: Seq<char>| #[trigger]
        before(a, b) && !#[trigger] before(c, b) implies before(a, c) by {
        lemma_bytes_less_total(encode_utf8(b), encode_utf8(c));
        if bytes_less(encode_utf8(b), encode_utf8(c)) {
            lemma_bytes_less_transitive(encode_utf8(a), encode_utf8(b), encode_utf8(c));
        }
    }
}

} // verus!
