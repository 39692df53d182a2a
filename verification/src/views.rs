//! The views of the items of a sequence.

use vstd::prelude::*;

verus! {

/// The sequence of the views of the items of `items`.
pub open spec fn views<T: View>(items: Seq<T>) -> Seq<T::V> {
    Seq::new(items.len(), |i: int| items[i]@)
}

/// The views of a sequence with one more item are the views of the sequence
/// with the view of the item behind them.
pub proof fn lemma_views_push<T: View>(items: Seq<T>, item: T)
    ensures
        views(items.push(item)) == views(items).push(item@),
{
    assert(views(items.push(item)) =~= views(items).push(item@));
}

/// The views of a part of a sequence are that part of the views.
pub proof fn lemma_views_subrange<T: View>(items: Seq<T>, from: int, to: int)
    requires
        0 <= from <= to <= items.len(),
    ensures
        views(items.subrange(from, to)) == views(items).subrange(from, to),
{
    assert(views(items.subrange(from, to)) =~= views(items).subrange(from, to));
}

} // verus!
