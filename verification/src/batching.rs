//! Cutting a list of work into batches of bounded size.

use vstd::prelude::*;
use crate::record::{models, Record};

verus! {

/// `items` cut into consecutive runs of `width`, the last one as long as what
/// is left.
pub open spec fn batches<A>(items: Seq<A>, width: int) -> Seq<Seq<A>>
    decreases items.len(),
{
    if items.len() == 0 || width <= 0 {
        Seq::empty()
    } else if items.len() <= width {
        seq![items]
    } else {
        seq![items.take(width)] + batches(items.skip(width), width)
    }
}

/// The models of the records of each batch.
pub open spec fn batch_models<T: Record>(groups: Seq<Vec<T>>) -> Seq<Seq<T::Model>> {
    Seq::new(groups.len(), |i: int| models(groups[i]@))
}

/// The batches hold every item once, in order, and each batch holds at
/// least one item and at most `width`.
pub proof fn lemma_batches_cover<A>(items: Seq<A>, width: int)
    requires
        width >= 1,
    ensures
        batches(items, width).flatten() == items,
        forall|i: int|
            0 <= i < batches(items, width).len() ==> {
                let batch = #[trigger] batches(items, width)[i];
                1 <= batch.len() <= width
            },
    decreases items.len(),
{
    let groups = batches(items, width);
    if items.len() == 0 {
        assert(groups.flatten() =~= items);
    } else if items.len() <= width {
        assert(groups.drop_first() =~= Seq::<Seq<A>>::empty());
        assert(groups.drop_first().flatten() =~= Seq::<A>::empty());
        assert(groups.first() == items);
        assert(groups.flatten() =~= items);
    } else {
        let rest = batches(items.skip(width), width);
        lemma_batches_cover(items.skip(width), width);
        assert(groups.first() == items.take(width));
        assert(groups.drop_first() =~= rest);
        assert(items.take(width) + items.skip(width) =~= items);
        assert forall|i: int| 0 <= i < groups.len() implies 1 <= (#[trigger] groups[i]).len()
            <= width by {
            if i > 0 {
                assert(groups[i] == rest[i - 1]);
            }
        }
    }
}

/// Cuts `items` into consecutive batches of `width` records; the last batch
/// holds what is left. With `width` zero there is no batch.
pub fn split_batches<T: Record>(items: &Vec<T>, width: usize) -> (groups: Vec<Vec<T>>)
    ensures
        batch_models(groups@) == batches(models(items@), width as int),
{
    let ghost all = models(items@);
    let mut groups: Vec<Vec<T>> = Vec::new();
    assert(batch_models(groups@) =~= Seq::<Seq<T::Model>>::empty());
    if width == 0 {
        return groups;
    }
    let mut start: usize = 0;
    assert(all.skip(0) =~= all);
    while start < items.len()
        invariant
            all == models(items@),
            width > 0,
            start <= all.len(),
            batches(all, width as int) == batch_models(groups@) + batches(
                all.skip(start as int),
                width as int,
            ),
        decreases all.len() - start,
    {
        let left = items.len() - start;
        let size = if left <= width { left } else { width };
        let mut group: Vec<T> = Vec::new();
        let mut i: usize = 0;
        while i < size
            invariant
                all == models(items@),
                start + size <= items.len(),
                i <= size,
                group@.len() == i,
                forall|j: int| 0 <= j < i ==> (#[trigger] group@[j]).model() == all[start + j],
            decreases size - i,
        {
            group.push(items[start + i].duplicate());
            i += 1;
        }
        let ghost rest = all.skip(start as int);
        let ghost before = batch_models(groups@);
        proof {
            assert(models(group@) =~= rest.take(size as int));
            if left <= width {
                assert(rest.take(size as int) =~= rest);
                assert(rest.skip(size as int).len() == 0);
                assert(batches(rest, width as int) =~= seq![rest] + batches(
                    rest.skip(size as int),
                    width as int,
                ));
            }
            assert(rest.skip(size as int) =~= all.skip(start + size));
        }
        groups.push(group);
        assert(batch_models(groups@) =~= before.push(rest.take(size as int)));
        assert(before + (seq![rest.take(size as int)] + batches(
            rest.skip(size as int),
            width as int,
        )) =~= before.push(rest.take(size as int)) + batches(rest.skip(size as int), width as int));
        start += size;
    }
    assert(batch_models(groups@) + Seq::<Seq<T::Model>>::empty() =~= batch_models(groups@));
    groups
}

} // verus!
