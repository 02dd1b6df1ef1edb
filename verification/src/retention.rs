use crate::epoch::{EpochState, EpochView};
use crate::record::decode;
use crate::report::{ascending, epoch_views, in_id_order, lemma_in_id_order, sort_by_id};
use crate::storage::{decode_all, StoreModel, StoreOpView};
use vstd::prelude::*;

verus! {

/// The ids of the oldest epochs beyond `max`: the lowest ids, in ascending
/// order, as many as there are epochs too many.
pub open spec fn oldest_beyond(epochs: Seq<EpochView>, max: nat) -> Seq<u64> {
    if epochs.len() > max {
        in_id_order(epochs).subrange(0, epochs.len() - max).map_values(|e: EpochView| e.epoch_id)
    } else {
        Seq::empty()
    }
}

/// Whether an epoch may go: every epoch but the current one may.
pub open spec fn may_go(current_epoch: u64) -> spec_fn(u64) -> bool {
    |epoch_id: u64| epoch_id != current_epoch
}

/// The ids of the epochs that have to go so that at most `max` stay: the
/// oldest beyond `max`, in ascending order. The current epoch never goes.
pub open spec fn evicted(epochs: Seq<EpochView>, max: nat, current_epoch: u64) -> Seq<u64> {
    oldest_beyond(epochs, max).filter(may_go(current_epoch))
}

/// The writes that remove the epochs `ids`, in their order.
pub open spec fn delete_ops(ids: Seq<u64>) -> Seq<StoreOpView> {
    ids.map_values(|epoch_id: u64| StoreOpView::DeleteEpoch { epoch_id })
}

/// The ids of the epochs to evict so that at most `max_epoch_history` of
/// `epochs` stay, oldest first. The epoch `current_epoch` is never among
/// them.
pub fn evictions(epochs: Vec<EpochState>, max_epoch_history: usize, current_epoch: u64) -> (doomed:
    Vec<u64>)
    ensures
        doomed@ == evicted(epoch_views(epochs@), max_epoch_history as nat, current_epoch),
{
    let mut doomed: Vec<u64> = Vec::new();
    let count = epochs.len();
    if count <= max_epoch_history {
        return doomed;
    }
    let excess = count - max_epoch_history;
    let ghost listed = epoch_views(epochs@);
    let sorted = sort_by_id(epochs);
    proof {
        lemma_in_id_order(listed);
    }
    let ghost ordered = epoch_views(sorted@);
    let ghost oldest = oldest_beyond(listed, max_epoch_history as nat);
    let mut i: usize = 0;
    assert(oldest.subrange(0, 0) =~= Seq::empty());
    while i < excess
        invariant
            i <= excess <= sorted.len(),
            excess == oldest.len(),
            ordered == epoch_views(sorted@),
            oldest == ordered.subrange(0, excess as int).map_values(|e: EpochView| e.epoch_id),
            doomed@ == oldest.subrange(0, i as int).filter(may_go(current_epoch)),
        decreases excess - i,
    {
        let epoch_id = sorted[i].epoch_id();
        proof {
            let next = oldest.subrange(0, i + 1);
            assert(next.drop_last() =~= oldest.subrange(0, i as int));
            assert(next.last() == epoch_id);
            reveal_with_fuel(Seq::filter, 2);
        }
        if epoch_id != current_epoch {
            doomed.push(epoch_id);
        }
        i += 1;
    }
    assert(oldest.subrange(0, excess as int) =~= oldest);
    doomed
}

/// Where the current epoch is not among the oldest beyond `max`, exactly
/// these go.
pub proof fn lemma_evicted_oldest(epochs: Seq<EpochView>, max: nat, current_epoch: u64)
    requires
        !oldest_beyond(epochs, max).contains(current_epoch),
    ensures
        evicted(epochs, max, current_epoch) == oldest_beyond(epochs, max),
{
    lemma_filter_keeps(oldest_beyond(epochs, max), current_epoch);
}

/// Leaving out an id that is not there changes nothing.
proof fn lemma_filter_keeps(ids: Seq<u64>, current_epoch: u64)
    requires
        !ids.contains(current_epoch),
    ensures
        ids.filter(may_go(current_epoch)) == ids,
    decreases ids.len(),
{
    reveal_with_fuel(Seq::filter, 2);
    if ids.len() > 0 {
        let head = ids.drop_last();
        assert forall|i: int| 0 <= i < head.len() implies head[i] != current_epoch by {
            assert(ids[i] == head[i]);
        }
        lemma_filter_keeps(head, current_epoch);
        assert(ids.last() != current_epoch);
        assert(head.push(ids.last()) =~= ids);
    }
}

/// The current epoch is never evicted, and what is evicted is among the
/// oldest beyond `max`.
pub proof fn lemma_evicted_spares_current(epochs: Seq<EpochView>, max: nat, current_epoch: u64)
    ensures
        !evicted(epochs, max, current_epoch).contains(current_epoch),
        forall|epoch_id: u64|
            evicted(epochs, max, current_epoch).contains(epoch_id) ==> oldest_beyond(
                epochs,
                max,
            ).contains(epoch_id),
{
    let others = may_go(current_epoch);
    let oldest = oldest_beyond(epochs, max);
    if oldest.filter(others).contains(current_epoch) {
        let i = choose|i: int|
            0 <= i < oldest.filter(others).len() && oldest.filter(others)[i] == current_epoch;
        oldest.lemma_filter_pred(others, i);
    }
    assert forall|epoch_id: u64| oldest.filter(others).contains(epoch_id) implies oldest.contains(
        epoch_id,
    ) by {
        oldest.lemma_filter_contains_rev(others, epoch_id);
    }
}

/// Removing epochs takes exactly their keys out of the store and leaves
/// the rest, and the pointer, as they are.
pub proof fn lemma_deleted(store: StoreModel, ids: Seq<u64>)
    ensures
        store.apply_all(delete_ops(ids)).current == store.current,
        store.apply_all(delete_ops(ids)).epochs == store.epochs.remove_keys(ids.to_set()),
    decreases ids.len(),
{
    let ops = delete_ops(ids);
    if ids.len() == 0 {
        assert(store.epochs.remove_keys(ids.to_set()) =~= store.epochs);
    } else {
        let next = store.apply(ops[0]);
        let others = ids.drop_first();
        assert(ops.drop_first() =~= delete_ops(others));
        lemma_deleted(next, others);
        assert forall|id: u64| ids.to_set().contains(id) <==> id == ids[0] || others.to_set().contains(
            id,
        ) by {
            if ids.contains(id) {
                let i = choose|i: int| 0 <= i < ids.len() && ids[i] == id;
                if i > 0 {
                    assert(others[i - 1] == id);
                }
            }
            if others.contains(id) {
                let i = choose|i: int| 0 <= i < others.len() && others[i] == id;
                assert(ids[i + 1] == id);
            }
        }
        assert(next.epochs.remove_keys(others.to_set()) =~= store.epochs.remove_keys(ids.to_set()));
    }
}

/// Epochs of different ids, put in order, stand in strictly ascending
/// order, and they are the same epochs.
proof fn lemma_strictly_ordered(epochs: Seq<EpochView>)
    requires
        forall|i: int, j: int|
            0 <= i < j < epochs.len() ==> epochs[i].epoch_id != epochs[j].epoch_id,
    ensures
        in_id_order(epochs).len() == epochs.len(),
        forall|i: int, j: int|
            0 <= i < j < epochs.len() ==> in_id_order(epochs)[i].epoch_id < in_id_order(
                epochs,
            )[j].epoch_id,
        forall|i: int| 0 <= i < epochs.len() ==> epochs.contains(#[trigger] in_id_order(epochs)[i]),
        forall|i: int| 0 <= i < epochs.len() ==> in_id_order(epochs).contains(#[trigger] epochs[i]),
{
    broadcast use vstd::seq_lib::group_to_multiset_ensures;

    let sorted = in_id_order(epochs);
    lemma_in_id_order(epochs);
    assert(epochs.no_duplicates());
    epochs.lemma_multiset_has_no_duplicates();
    sorted.lemma_multiset_has_no_duplicates_conv();
    assert forall|i: int| 0 <= i < epochs.len() implies epochs.contains(#[trigger] sorted[i]) by {
        assert(sorted.contains(sorted[i]));
        assert(sorted.to_multiset().count(sorted[i]) > 0);
    }
    assert forall|i: int| 0 <= i < epochs.len() implies sorted.contains(#[trigger] epochs[i]) by {
        assert(epochs.contains(epochs[i]));
        assert(epochs.to_multiset().count(epochs[i]) > 0);
    }
    assert forall|i: int, j: int| 0 <= i < j < epochs.len() implies sorted[i].epoch_id
        < sorted[j].epoch_id by {
        assert(epochs.contains(sorted[i]));
        assert(epochs.contains(sorted[j]));
        let a = choose|a: int| 0 <= a < epochs.len() && epochs[a] == sorted[i];
        let b = choose|b: int| 0 <= b < epochs.len() && epochs[b] == sorted[j];
        assert(sorted[i] != sorted[j]);
        assert(a != b);
        assert(sorted[i].epoch_id <= sorted[j].epoch_id);
    }
}

/// Where the oldest epochs beyond `max` go from a store in which every
/// record stands under the id of its epoch, at most `max` epochs stay:
/// all where no more were there, else exactly `max`, each of them newer
/// than every one that went.
proof fn lemma_oldest_go(store: StoreModel, ids: Seq<u64>, records: Seq<Seq<u8>>, max: nat)
    requires
        store.keyed_by_id(),
        store.listed_as(ids, records),
    ensures
        decode_all(records) is Some,
        ({
            let doomed = oldest_beyond(decode_all(records)->0, max);
            let after = store.apply_all(delete_ops(doomed));
            &&& after.current == store.current
            &&& after.retained().subset_of(store.retained())
            &&& forall|id: u64| #[trigger]
                after.retained().contains(id) ==> after.epochs[id] == store.epochs[id]
            &&& store.retained().len() <= max ==> after.retained() == store.retained()
            &&& store.retained().len() > max ==> after.retained().len() == max
            &&& forall|kept: u64, gone: u64|
                after.retained().contains(kept) && store.retained().contains(gone)
                    && !after.retained().contains(gone) ==> gone < kept
        }),
{
    let count = ids.len() as int;
    assert forall|i: int| 0 <= i < count implies decode(#[trigger] records[i]) is Some && decode(
        records[i],
    )->0.epoch_id == ids[i] by {
        assert(ids.to_set().contains(ids[i]));
        assert(store.epochs.dom().contains(ids[i]));
    }
    let epochs = decode_all(records)->0;
    assert(epochs.len() == count);
    assert forall|i: int| 0 <= i < count implies (#[trigger] epochs[i]).epoch_id == ids[i] by {
        assert(decode(records[i]) is Some);
    }
    let sorted = in_id_order(epochs);
    lemma_strictly_ordered(epochs);
    ids.unique_seq_to_set();
    let doomed = oldest_beyond(epochs, max);
    let after = store.apply_all(delete_ops(doomed));
    lemma_deleted(store, doomed);
    if count <= max {
        assert(doomed.to_set() =~= Set::empty());
        assert(after.epochs =~= store.epochs);
    } else {
        let cut = count - max;
        let kept_ids = sorted.subrange(cut, count).map_values(|e: EpochView| e.epoch_id);
        assert forall|id: u64| after.retained().contains(id) <==> kept_ids.contains(id) by {
            if after.retained().contains(id) {
                assert(ids.to_set().contains(id));
                let k = choose|k: int| 0 <= k < count && ids[k] == id;
                assert(sorted.contains(epochs[k]));
                let j = choose|j: int| 0 <= j < count && sorted[j] == epochs[k];
                if j < cut {
                    assert(doomed[j] == id);
                    assert(doomed.to_set().contains(id));
                }
                assert(kept_ids[j - cut] == id);
            }
            if kept_ids.contains(id) {
                let j = choose|j: int| 0 <= j < kept_ids.len() && kept_ids[j] == id;
                assert(sorted[j + cut].epoch_id == id);
                assert(epochs.contains(sorted[j + cut]));
                let k = choose|k: int| 0 <= k < count && epochs[k] == sorted[j + cut];
                assert(ids[k] == id);
                assert(ids.to_set().contains(id));
                if doomed.to_set().contains(id) {
                    let i = choose|i: int| 0 <= i < doomed.len() && doomed[i] == id;
                    assert(sorted[i].epoch_id < sorted[j + cut].epoch_id);
                }
            }
        }
        assert(after.retained() =~= kept_ids.to_set());
        assert(kept_ids.no_duplicates()) by {
            assert forall|a: int, b: int|
                0 <= a < kept_ids.len() && 0 <= b < kept_ids.len() && a != b implies kept_ids[a]
                != kept_ids[b] by {
                if a < b {
                    assert(sorted[a + cut].epoch_id < sorted[b + cut].epoch_id);
                } else {
                    assert(sorted[b + cut].epoch_id < sorted[a + cut].epoch_id);
                }
            }
        }
        kept_ids.unique_seq_to_set();
        assert forall|kept: u64, gone: u64|
            after.retained().contains(kept) && store.retained().contains(gone)
                && !after.retained().contains(gone) implies gone < kept by {
            assert(kept_ids.contains(kept));
            let j = choose|j: int| 0 <= j < kept_ids.len() && kept_ids[j] == kept;
            assert(doomed.to_set().contains(gone));
            let i = choose|i: int| 0 <= i < doomed.len() && doomed[i] == gone;
            assert(sorted[i].epoch_id < sorted[j + cut].epoch_id);
        }
    }
}

/// Retention. `store` is a store in which every record stands under the id
/// of its epoch and no epoch is newer than the current one, which is there;
/// `records` is a scan of it, in the order `ids` of the keys; and at least
/// one epoch is to be retained. Once the writes that [`evictions`] asks for
/// are done, the store retains at most `max` epochs: where it held no more
/// than `max`, all of them; else exactly `max`, and each of them is newer
/// than every one that went. The current epoch is among them. What is
/// retained is unchanged, and so is the pointer.
pub proof fn lemma_retention(
    store: StoreModel,
    ids: Seq<u64>,
    records: Seq<Seq<u8>>,
    max: nat,
    current_epoch: u64,
)
    requires
        store.keyed_by_id(),
        store.listed_as(ids, records),
        store.retained().contains(current_epoch),
        forall|id: u64| #[trigger] store.retained().contains(id) ==> id <= current_epoch,
        max >= 1,
    ensures
        decode_all(records) is Some,
        evicted(decode_all(records)->0, max, current_epoch) == oldest_beyond(
            decode_all(records)->0,
            max,
        ),
        ({
            let doomed = evicted(decode_all(records)->0, max, current_epoch);
            let after = store.apply_all(delete_ops(doomed));
            &&& after.current == store.current
            &&& after.retained().subset_of(store.retained())
            &&& after.retained().contains(current_epoch)
            &&& forall|id: u64| #[trigger]
                after.retained().contains(id) ==> after.epochs[id] == store.epochs[id]
            &&& after.retained().len() <= max
            &&& store.retained().len() <= max ==> after.retained() == store.retained()
            &&& store.retained().len() > max ==> after.retained().len() == max
            &&& forall|kept: u64, gone: u64|
                after.retained().contains(kept) && store.retained().contains(gone)
                    && !after.retained().contains(gone) ==> gone < kept
        }),
{
    lemma_oldest_go(store, ids, records, max);
    let count = ids.len() as int;
    assert forall|i: int| 0 <= i < count implies decode(#[trigger] records[i]) is Some && decode(
        records[i],
    )->0.epoch_id == ids[i] by {
        assert(ids.to_set().contains(ids[i]));
        assert(store.epochs.dom().contains(ids[i]));
    }
    let epochs = decode_all(records)->0;
    assert forall|i: int| 0 <= i < count implies (#[trigger] epochs[i]).epoch_id == ids[i] by {
        assert(decode(records[i]) is Some);
    }
    let sorted = in_id_order(epochs);
    lemma_strictly_ordered(epochs);
    let oldest = oldest_beyond(epochs, max);
    if oldest.contains(current_epoch) {
        let i = choose|i: int| 0 <= i < oldest.len() && oldest[i] == current_epoch;
        assert(i < count - 1);
        assert(sorted[i].epoch_id < sorted[count - 1].epoch_id);
        assert(epochs.contains(sorted[count - 1]));
        let k = choose|k: int| 0 <= k < count && epochs[k] == sorted[count - 1];
        assert(ids.to_set().contains(ids[k]));
        assert(store.retained().contains(ids[k]));
    }
    lemma_evicted_oldest(epochs, max, current_epoch);
    lemma_deleted(store, oldest);
    ids.unique_seq_to_set();
}

} // verus!
