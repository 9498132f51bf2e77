//! Lists of items, and what is kept of them.
use vstd::prelude::*;

verus! {

/// The items that meet a condition, in their order.
pub open spec fn kept_where<V>(items: Seq<V>, keep: spec_fn(V) -> bool) -> Seq<V>
    decreases items.len(),
{
    if items.len() == 0 {
        items
    } else if keep(items.last()) {
        kept_where(items.drop_last(), keep).push(items.last())
    } else {
        kept_where(items.drop_last(), keep)
    }
}

/// What is kept meets the condition and was there before; what meets it is kept.
pub proof fn lemma_kept_where<V>(items: Seq<V>, keep: spec_fn(V) -> bool)
    ensures
        forall|i: int|
            0 <= i < kept_where(items, keep).len() ==> keep(#[trigger] kept_where(items, keep)[i])
                && items.contains(kept_where(items, keep)[i]),
        forall|i: int|
            0 <= i < items.len() && keep(#[trigger] items[i]) ==> kept_where(items, keep).contains(
                items[i],
            ),
    decreases items.len(),
{
    let result = kept_where(items, keep);
    if items.len() > 0 {
        let init = items.drop_last();
        lemma_kept_where(init, keep);
        let before = kept_where(init, keep);
        assert forall|i: int| 0 <= i < result.len() implies keep(#[trigger] result[i])
            && items.contains(result[i]) by {
            if i < before.len() {
                assert(result[i] == before[i]);
                let k = choose|k: int| 0 <= k < init.len() && init[k] == before[i];
                assert(items[k] == result[i]);
            } else {
                assert(items[items.len() - 1] == result[i]);
            }
        }
        assert forall|i: int| 0 <= i < items.len() && keep(#[trigger] items[i]) implies
            result.contains(items[i]) by {
            if i < init.len() {
                assert(init[i] == items[i]);
                let k = choose|k: int| 0 <= k < before.len() && before[k] == items[i];
                assert(result[k] == items[i]);
            } else {
                assert(result[before.len() as int] == items[i]);
            }
        }
    }
}

} // verus!
