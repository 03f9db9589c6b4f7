//! Splits an id list into the bounded groups that one price request may carry.
use vstd::prelude::*;

verus! {

/// The batches of `ids` under `limit`: the first `limit` ids (or all of them,
/// when fewer are left), followed by the batches of the remaining ids.
pub open spec fn batches(ids: Seq<i32>, limit: nat) -> Seq<Seq<i32>>
    decreases ids.len(),
{
    if limit == 0 || ids.len() == 0 {
        Seq::empty()
    } else if ids.len() <= limit {
        seq![ids]
    } else {
        seq![ids.take(limit as int)] + batches(ids.skip(limit as int), limit)
    }
}

/// The contents of a list of batches, batch by batch.
pub open spec fn batch_views(groups: Seq<Vec<i32>>) -> Seq<Seq<i32>> {
    groups.map_values(|group: Vec<i32>| group@)
}

/// All ids of a list of batches, in order.
pub open spec fn concat(groups: Seq<Seq<i32>>) -> Seq<i32>
    decreases groups.len(),
{
    if groups.len() == 0 {
        Seq::empty()
    } else {
        groups[0] + concat(groups.drop_first())
    }
}

/// Splits `item_ids` into consecutive batches of at most `split_treshold` ids.
/// No ids give no batches.
pub fn split_large_id_bulks(item_ids: &Vec<i32>, split_treshold: usize) -> (result: Vec<Vec<i32>>)
    requires
        split_treshold > 0,
    ensures
        batch_views(result@) == batches(item_ids@, split_treshold as nat),
{
    let mut result: Vec<Vec<i32>> = Vec::new();
    let mut start: usize = 0;
    proof {
        assert(item_ids@.skip(0) == item_ids@);
        assert(batch_views(result@) + batches(item_ids@, split_treshold as nat) == batches(
            item_ids@,
            split_treshold as nat,
        ));
    }
    while start < item_ids.len()
        invariant
            split_treshold > 0,
            start <= item_ids.len(),
            batches(item_ids@, split_treshold as nat) == batch_views(result@) + batches(
                item_ids@.skip(start as int),
                split_treshold as nat,
            ),
        decreases item_ids.len() - start,
    {
        let rest: usize = item_ids.len() - start;
        let size: usize = if rest < split_treshold {
            rest
        } else {
            split_treshold
        };
        let mut batch: Vec<i32> = Vec::new();
        let mut taken: usize = 0;
        while taken < size
            invariant
                taken <= size,
                start + size <= item_ids.len(),
                batch@ == item_ids@.subrange(start as int, start + taken),
            decreases size - taken,
        {
            batch.push(item_ids[start + taken]);
            taken = taken + 1;
            assert(batch@ == item_ids@.subrange(start as int, start + taken));
        }
        proof {
            let tail = item_ids@.skip(start as int);
            assert(batch@ == tail.take(size as int));
            assert(tail.skip(size as int) == item_ids@.skip(start + size));
            if rest <= split_treshold {
                assert(tail.take(size as int) == tail);
                assert(tail.skip(size as int).len() == 0);
                assert(batches(tail, split_treshold as nat) == seq![batch@] + batches(
                    tail.skip(size as int),
                    split_treshold as nat,
                ));
            }
            assert(batch_views(result@.push(batch)) == batch_views(result@) + seq![batch@]);
        }
        result.push(batch);
        start = start + size;
    }
    assert(batch_views(result@) + Seq::<Seq<i32>>::empty() == batch_views(result@));
    result
}

/// Batching loses nothing and respects the limit: the batches put end to end
/// are the ids again, no batch is empty or longer than `limit`, and every
/// batch before the last holds exactly `limit` ids.
pub proof fn lemma_batches_partition(ids: Seq<i32>, limit: nat)
    requires
        limit > 0,
    ensures
        concat(batches(ids, limit)) == ids,
        forall|k: int|
            0 <= k < batches(ids, limit).len() ==> 0 < (#[trigger] batches(ids, limit)[k]).len()
                <= limit,
        forall|k: int|
            0 <= k < batches(ids, limit).len() - 1 ==> (#[trigger] batches(ids, limit)[k]).len()
                == limit,
        ids.len() == 0 <==> batches(ids, limit).len() == 0,
        0 < ids.len() <= limit ==> batches(ids, limit) == seq![ids],
    decreases ids.len(),
{
    let all = batches(ids, limit);
    if ids.len() == 0 {
        assert(concat(all) == ids);
    } else if ids.len() <= limit {
        assert(all.drop_first() == Seq::<Seq<i32>>::empty());
        assert(concat(all.drop_first()) == Seq::<i32>::empty());
        assert(concat(all) == ids);
    } else {
        let head = ids.take(limit as int);
        let rest = ids.skip(limit as int);
        lemma_batches_partition(rest, limit);
        let tail = batches(rest, limit);
        assert(all == seq![head] + tail);
        assert(all.drop_first() == tail);
        assert(head + rest == ids);
        assert(concat(all) == ids);
        assert forall|k: int| 0 <= k < all.len() implies 0 < (#[trigger] all[k]).len() <= limit by {
            if k > 0 {
                assert(all[k] == tail[k - 1]);
            }
        }
        assert forall|k: int| 0 <= k < all.len() - 1 implies (#[trigger] all[k]).len()
            == limit by {
            if k > 0 {
                assert(all[k] == tail[k - 1]);
            }
        }
    }
}

} // verus!
