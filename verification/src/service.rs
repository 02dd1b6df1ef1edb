use crate::clock::now;
use crate::epoch::{EpochState, EpochView};
use crate::record::{decode, epoch_bytes, lemma_round_trip};
use crate::report::{build_report, in_id_order, ledger_report, out_of_range_text, reportable};
use crate::retention::{delete_ops, evicted, evictions, lemma_deleted, lemma_retention};
use crate::storage::{
    decode_all, lemma_apply_all_keeps_keys, malformed_text, op_views, record_views, store_error,
    Storage, StoreFailure, StoreModel, StoreOp, StoreOpView,
};
use crate::types::{
    BurnProof, BurnProofView, MintProof, MintProofView, PolError, PolReport, Proof, ProofView,
    Timestamp,
};
use vstd::prelude::*;

verus! {

/// What a [`PolService`] is in contracts.
pub struct ServiceView {
    /// The id of the epoch that takes the writes.
    pub current_epoch: u64,
    /// How many days an epoch lasts in reports.
    pub epoch_days: i64,
    /// How many epochs are retained.
    pub max_epoch_history: usize,
}

/// The ledger service: it decides what is written to the store and reads
/// what the store answers. Its user carries out the reads and the writes.
#[derive(Debug)]
pub struct PolService {
    storage: Storage,
    current_epoch: u64,
    epoch_duration_days: i64,
    max_epoch_history: usize,
}

impl View for PolService {
    type V = ServiceView;

    closed spec fn view(&self) -> ServiceView {
        ServiceView {
            current_epoch: self.current_epoch,
            epoch_days: self.epoch_duration_days,
            max_epoch_history: self.max_epoch_history,
        }
    }
}

impl ServiceView {
    /// The service after one rotation: the next epoch is the current one.
    pub open spec fn rotated(self) -> ServiceView {
        ServiceView { current_epoch: (self.current_epoch + 1) as u64, ..self }
    }

    /// The service after `count` rotations.
    pub open spec fn rotated_times(self, count: nat) -> ServiceView
        decreases count,
    {
        if count == 0 {
            self
        } else {
            self.rotated_times((count - 1) as nat).rotated()
        }
    }
}

/// Rotation counts up: from a ledger that was just started, whose current
/// epoch is 0, the rotation number `count` makes the epoch `count` the
/// current one. Each rotation moves to the id that follows, so no id comes
/// twice.
pub proof fn lemma_rotation_counts(service: ServiceView, count: nat)
    requires
        service.current_epoch == 0,
        count <= u64::MAX,
    ensures
        service.rotated_times(count).current_epoch == count,
        service.rotated_times(count).epoch_days == service.epoch_days,
        service.rotated_times(count).max_epoch_history == service.max_epoch_history,
        count > 0 ==> service.rotated_times(count).current_epoch > service.rotated_times(
            (count - 1) as nat,
        ).current_epoch,
    decreases count,
{
    if count > 0 {
        lemma_rotation_counts(service, (count - 1) as nat);
    }
}

/// The write that saves `epoch`.
pub open spec fn save_of(epoch: EpochView) -> StoreOpView {
    StoreOpView::SaveEpoch { epoch_id: epoch.epoch_id, record: epoch_bytes(epoch) }
}

/// The writes that open the epoch `epoch_id` at the time `now`: first its
/// record, then the pointer to it.
pub open spec fn opening_of(epoch_id: u64, now: Timestamp) -> Seq<StoreOpView> {
    seq![save_of(EpochView::empty(epoch_id, now)), StoreOpView::SaveCurrentEpoch { epoch_id }]
}

/// The writes that open an epoch are well keyed: the record that they
/// save holds the empty epoch of that id.
pub proof fn lemma_opening_keyed(epoch_id: u64, now: Timestamp)
    ensures
        forall|i: int|
            0 <= i < opening_of(epoch_id, now).len() ==> (#[trigger] opening_of(
                epoch_id,
                now,
            )[i]).well_keyed(),
{
    lemma_round_trip(EpochView::empty(epoch_id, now));
}

/// What the writes that open an epoch leave: its empty record under its
/// id, and the pointer to it.
pub proof fn lemma_opening_applied(store: StoreModel, epoch_id: u64, now: Timestamp)
    ensures
        store.apply_all(opening_of(epoch_id, now)) == (StoreModel {
            epochs: store.epochs.insert(epoch_id, epoch_bytes(EpochView::empty(epoch_id, now))),
            current: Some(epoch_id),
        }),
{
    let opening = opening_of(epoch_id, now);
    let first = store.apply(opening[0]);
    let second = first.apply(opening[1]);
    let after_first = opening.drop_first();
    let after_second = after_first.drop_first();
    assert(after_first[0] == opening[1]);
    assert(after_second.len() == 0);
    assert(second.apply_all(after_second) == second);
    assert(first.apply_all(after_first) == second.apply_all(after_second));
    assert(store.apply_all(opening) == first.apply_all(after_first));
}

/// The start of a ledger. Once the writes of the first initialization are
/// done on a store that holds no epoch, the store holds the empty epoch 0
/// under its id and nothing else, and the pointer names it.
pub proof fn lemma_first_epoch(store: StoreModel, now: Timestamp)
    requires
        store.retained() == Set::<u64>::empty(),
    ensures
        ({
            let started = store.apply_all(opening_of(0, now));
            &&& started.keyed_by_id()
            &&& started.retained() == set![0u64]
            &&& started.current == Some(0u64)
            &&& decode(started.epochs[0]) == Some(EpochView::empty(0, now))
        }),
{
    lemma_opening_applied(store, 0, now);
    lemma_round_trip(EpochView::empty(0, now));
    let started = store.apply_all(opening_of(0, now));
    assert(started.retained() =~= set![0u64]);
}

/// Retention after a rotation. `store` is a store in which every record
/// stands under the id of its epoch and no epoch is newer than the one that
/// follows the current one (that one may be left from a rotation whose
/// writes failed half way); at least one epoch is to be retained. The
/// service rotates at the time `now` and its writes are done; a scan of the store then gives
/// `records`, in the order `ids` of the keys; and the writes that
/// [`PolService::prune_epochs`] asks for are done too. After that the
/// pointer names the new epoch, the new epoch is retained, and the store
/// retains at most `max_epoch_history` epochs: all that it held where these
/// were no more, else exactly that many, each of them newer than every one
/// that went. The store is again one in which no epoch is newer than the
/// current one.
pub proof fn lemma_rotation_retains(
    store: StoreModel,
    service: ServiceView,
    now: Timestamp,
    ids: Seq<u64>,
    records: Seq<Seq<u8>>,
)
    requires
        store.keyed_by_id(),
        forall|id: u64| #[trigger]
            store.retained().contains(id) ==> id <= service.rotated().current_epoch,
        service.current_epoch < u64::MAX,
        service.max_epoch_history >= 1,
        store.apply_all(opening_of(service.rotated().current_epoch, now)).listed_as(ids, records),
    ensures
        decode_all(records) is Some,
        ({
            let new_epoch = service.rotated().current_epoch;
            let rotated = store.apply_all(opening_of(new_epoch, now));
            let pruned = rotated.apply_all(
                delete_ops(
                    evicted(decode_all(records)->0, service.max_epoch_history as nat, new_epoch),
                ),
            );
            &&& rotated.retained() == store.retained().insert(new_epoch)
            &&& pruned.keyed_by_id()
            &&& pruned.current == Some(new_epoch)
            &&& pruned.retained().contains(new_epoch)
            &&& pruned.retained().subset_of(rotated.retained())
            &&& forall|id: u64| #[trigger] pruned.retained().contains(id) ==> id <= new_epoch
            &&& pruned.retained().len() <= service.max_epoch_history
            &&& rotated.retained().len() <= service.max_epoch_history ==> pruned.retained()
                == rotated.retained()
            &&& rotated.retained().len() > service.max_epoch_history ==> pruned.retained().len()
                == service.max_epoch_history
            &&& forall|kept: u64, gone: u64|
                pruned.retained().contains(kept) && rotated.retained().contains(gone)
                    && !pruned.retained().contains(gone) ==> gone < kept
        }),
{
    let new_id = service.rotated().current_epoch;
    let opening = opening_of(new_id, now);
    let rotated = store.apply_all(opening);
    lemma_opening_applied(store, new_id, now);
    lemma_opening_keyed(new_id, now);
    lemma_apply_all_keeps_keys(store, opening);
    assert(rotated.retained() =~= store.retained().insert(new_id));
    let max = service.max_epoch_history as nat;
    let doomed = evicted(decode_all(records)->0, max, new_id);
    lemma_retention(rotated, ids, records, max, new_id);
    lemma_deleted(rotated, doomed);
    let pruned = rotated.apply_all(delete_ops(doomed));
    assert(pruned.keyed_by_id()) by {
        assert forall|id: u64| #[trigger] pruned.epochs.dom().contains(id) implies (decode(
            pruned.epochs[id],
        ) matches Some(epoch) && epoch.epoch_id == id) by {
            assert(rotated.epochs.dom().contains(id));
        }
    }
    assert forall|id: u64| #[trigger] pruned.retained().contains(id) implies id <= new_id by {
        assert(rotated.retained().contains(id));
    }
}

/// The epoch that a later lookup finds where the write saved one: what the
/// record that it saves reads back as.
pub open spec fn written_epoch(op: StoreOpView) -> Option<EpochView> {
    match op {
        StoreOpView::SaveEpoch { epoch_id, record } => decode(record),
        _ => None,
    }
}

/// The write that records the minting of `amount` with `proof` at the time
/// `now` in `epoch`.
pub open spec fn mint_write(epoch: EpochView, proof: ProofView, amount: u64, now: Timestamp)
    -> StoreOpView {
    save_of(epoch.with_mint(MintProofView { proof, amount, timestamp: now }))
}

/// The write that records the burning of `amount` with `secret` at the
/// time `now` in `epoch`.
pub open spec fn burn_write(epoch: EpochView, secret: Seq<char>, amount: u64, now: Timestamp)
    -> StoreOpView {
    save_of(epoch.with_burn(BurnProofView { secret, amount, timestamp: now }))
}

impl PolService {
    /// A service over the opened store `storage`, with epochs of
    /// `epoch_duration_days` days of which `max_epoch_history` are retained.
    /// Until it is initialized its current epoch is 0.
    pub fn new(epoch_duration_days: i64, max_epoch_history: usize, storage: Storage) -> (service:
        PolService)
        ensures
            service@ == (ServiceView {
                current_epoch: 0,
                epoch_days: epoch_duration_days,
                max_epoch_history,
            }),
    {
        PolService { storage, current_epoch: 0, epoch_duration_days, max_epoch_history }
    }

    /// The id of the epoch that takes the writes.
    pub fn current_epoch(&self) -> (epoch_id: u64)
        ensures
            epoch_id == self@.current_epoch,
    {
        self.current_epoch
    }

    /// How many days an epoch lasts in reports.
    pub fn epoch_duration_days(&self) -> (days: i64)
        ensures
            days == self@.epoch_days,
    {
        self.epoch_duration_days
    }

    /// How many epochs are retained.
    pub fn max_epoch_history(&self) -> (max: usize)
        ensures
            max == self@.max_epoch_history,
    {
        self.max_epoch_history
    }

    /// Takes up the ledger at the time `now`. `stored` is what the lookup of
    /// the current epoch found. Where one is stored, the service resumes
    /// there and writes nothing. Where none is, it starts epoch 0: the writes
    /// save the empty epoch and then the pointer to it.
    pub fn initialize_at(
        &mut self,
        stored: Result<Option<u64>, StoreFailure>,
        now: Timestamp,
    ) -> (result: Result<Vec<StoreOp>, PolError>)
        ensures
            match stored {
                Err(failure) => {
                    &&& result == Err::<Vec<StoreOp>, PolError>(store_error(failure))
                    &&& final(self)@ == old(self)@
                },
                Ok(Some(epoch_id)) => {
                    &&& result matches Ok(ops) && ops@.len() == 0
                    &&& final(self)@ == (ServiceView { current_epoch: epoch_id, ..old(self)@ })
                },
                Ok(None) => {
                    &&& result matches Ok(ops) && op_views(ops@) == opening_of(0, now)
                    &&& final(self)@ == (ServiceView { current_epoch: 0, ..old(self)@ })
                },
            },
    {
        match self.storage.get_current_epoch(stored) {
            Err(error) => Err(error),
            Ok(Some(epoch_id)) => {
                self.current_epoch = epoch_id;
                Ok(Vec::new())
            },
            Ok(None) => {
                self.current_epoch = 0;
                Ok(self.open_epoch(0, now))
            },
        }
    }

    /// Takes up the ledger now: [`PolService::initialize_at`] at the time
    /// that the clock shows.
    pub fn initialize(&mut self, stored: Result<Option<u64>, StoreFailure>) -> (result: Result<
        Vec<StoreOp>,
        PolError,
    >)
        ensures
            match stored {
                Err(failure) => {
                    &&& result == Err::<Vec<StoreOp>, PolError>(store_error(failure))
                    &&& final(self)@ == old(self)@
                },
                Ok(Some(epoch_id)) => {
                    &&& result matches Ok(ops) && ops@.len() == 0
                    &&& final(self)@ == (ServiceView { current_epoch: epoch_id, ..old(self)@ })
                },
                Ok(None) => {
                    &&& result matches Ok(ops) && exists|now: Timestamp|
                        op_views(ops@) == #[trigger] opening_of(0, now)
                    &&& final(self)@ == (ServiceView { current_epoch: 0, ..old(self)@ })
                },
            },
    {
        self.initialize_at(stored, now())
    }

    /// The writes that open the epoch `epoch_id` at `now`.
    fn open_epoch(&self, epoch_id: u64, now: Timestamp) -> (ops: Vec<StoreOp>)
        ensures
            op_views(ops@) == opening_of(epoch_id, now),
    {
        let epoch_state = EpochState::new(epoch_id, now);
        let mut ops: Vec<StoreOp> = Vec::new();
        ops.push(self.storage.save_epoch(&epoch_state));
        ops.push(self.storage.save_current_epoch(epoch_id));
        assert(op_views(ops@) =~= opening_of(epoch_id, now));
        ops
    }

    /// Records at the time `now` that `amount` was minted with `proof`.
    /// `loaded` is what the lookup of the current epoch found. The write saves
    /// that epoch with the event added to it.
    ///
    /// Fails with `EpochNotFound` where the store holds no current epoch.
    pub fn record_mint_proof_at(
        &self,
        loaded: Result<Option<Vec<u8>>, StoreFailure>,
        proof: Proof,
        amount: u64,
        now: Timestamp,
    ) -> (result: Result<StoreOp, PolError>)
        ensures
            match loaded {
                Err(failure) => result == Err::<StoreOp, PolError>(store_error(failure)),
                Ok(None) => result == Err::<StoreOp, PolError>(
                    PolError::EpochNotFound(self@.current_epoch),
                ),
                Ok(Some(record)) => match decode(record@) {
                    Some(epoch) => result matches Ok(op) && op@ == mint_write(
                        epoch,
                        proof@,
                        amount,
                        now,
                    ) && written_epoch(op@) == Some(
                        epoch.with_mint(MintProofView { proof: proof@, amount, timestamp: now }),
                    ),
                    None => result matches Err(PolError::DatabaseDeserializationError(why)) && why@
                        == malformed_text(),
                },
            },
    {
        let epoch_state = match self.storage.get_epoch(loaded) {
            Err(error) => {
                return Err(error);
            },
            Ok(None) => {
                return Err(PolError::EpochNotFound(self.current_epoch));
            },
            Ok(Some(epoch_state)) => epoch_state,
        };
        let mint_proof = MintProof { proof, amount, timestamp: now };
        let epoch_state = epoch_state.with_mint(mint_proof);
        Ok(self.storage.save_epoch(&epoch_state))
    }

    /// Records now that `amount` was minted with `proof`:
    /// [`PolService::record_mint_proof_at`] at the time that the clock shows.
    pub fn record_mint_proof(
        &self,
        loaded: Result<Option<Vec<u8>>, StoreFailure>,
        proof: Proof,
        amount: u64,
    ) -> (result: Result<StoreOp, PolError>)
        ensures
            match loaded {
                Err(failure) => result == Err::<StoreOp, PolError>(store_error(failure)),
                Ok(None) => result == Err::<StoreOp, PolError>(
                    PolError::EpochNotFound(self@.current_epoch),
                ),
                Ok(Some(record)) => match decode(record@) {
                    Some(epoch) => result matches Ok(op) && exists|now: Timestamp|
                        op@ == #[trigger] mint_write(epoch, proof@, amount, now) && written_epoch(
                            op@,
                        ) == Some(
                            epoch.with_mint(MintProofView { proof: proof@, amount, timestamp: now }),
                        ),
                    None => result matches Err(PolError::DatabaseDeserializationError(why)) && why@
                        == malformed_text(),
                },
            },
    {
        self.record_mint_proof_at(loaded, proof, amount, now())
    }

    /// Records at the time `now` that `amount` was burned with `secret`.
    /// `loaded` is what the lookup of the current epoch found. The write saves
    /// that epoch with the event added to it.
    ///
    /// Fails with `EpochNotFound` where the store holds no current epoch.
    pub fn record_burn_proof_at(
        &self,
        loaded: Result<Option<Vec<u8>>, StoreFailure>,
        secret: String,
        amount: u64,
        now: Timestamp,
    ) -> (result: Result<StoreOp, PolError>)
        ensures
            match loaded {
                Err(failure) => result == Err::<StoreOp, PolError>(store_error(failure)),
                Ok(None) => result == Err::<StoreOp, PolError>(
                    PolError::EpochNotFound(self@.current_epoch),
                ),
                Ok(Some(record)) => match decode(record@) {
                    Some(epoch) => result matches Ok(op) && op@ == burn_write(
                        epoch,
                        secret@,
                        amount,
                        now,
                    ) && written_epoch(op@) == Some(
                        epoch.with_burn(BurnProofView { secret: secret@, amount, timestamp: now }),
                    ),
                    None => result matches Err(PolError::DatabaseDeserializationError(why)) && why@
                        == malformed_text(),
                },
            },
    {
        let epoch_state = match self.storage.get_epoch(loaded) {
            Err(error) => {
                return Err(error);
            },
            Ok(None) => {
                return Err(PolError::EpochNotFound(self.current_epoch));
            },
            Ok(Some(epoch_state)) => epoch_state,
        };
        let burn_proof = BurnProof { secret, amount, timestamp: now };
        let epoch_state = epoch_state.with_burn(burn_proof);
        Ok(self.storage.save_epoch(&epoch_state))
    }

    /// Records now that `amount` was burned with `secret`:
    /// [`PolService::record_burn_proof_at`] at the time that the clock shows.
    pub fn record_burn_proof(
        &self,
        loaded: Result<Option<Vec<u8>>, StoreFailure>,
        secret: String,
        amount: u64,
    ) -> (result: Result<StoreOp, PolError>)
        ensures
            match loaded {
                Err(failure) => result == Err::<StoreOp, PolError>(store_error(failure)),
                Ok(None) => result == Err::<StoreOp, PolError>(
                    PolError::EpochNotFound(self@.current_epoch),
                ),
                Ok(Some(record)) => match decode(record@) {
                    Some(epoch) => result matches Ok(op) && exists|now: Timestamp|
                        op@ == #[trigger] burn_write(epoch, secret@, amount, now) && written_epoch(
                            op@,
                        ) == Some(
                            epoch.with_burn(BurnProofView { secret: secret@, amount, timestamp: now }),
                        ),
                    None => result matches Err(PolError::DatabaseDeserializationError(why)) && why@
                        == malformed_text(),
                },
            },
    {
        self.record_burn_proof_at(loaded, secret, amount, now())
    }

    /// Prepares the move to the next epoch at the time `now`. `loaded` is
    /// what the lookup of the current epoch found. The next epoch has the id
    /// that follows the current one; the writes save it, empty, and then the
    /// pointer to it. The service itself stays where it is: it moves on with
    /// [`PolService::rotated`], once the writes are done.
    ///
    /// Fails with `EpochNotFound` where the store holds no current epoch: a
    /// ledger is rotated only once it was initialized.
    pub fn rotate_epoch_at(
        &self,
        loaded: Result<Option<Vec<u8>>, StoreFailure>,
        now: Timestamp,
    ) -> (result: Result<(u64, Vec<StoreOp>), PolError>)
        requires
            self@.current_epoch < u64::MAX,
        ensures
            match loaded {
                Err(failure) => result == Err::<(u64, Vec<StoreOp>), PolError>(
                    store_error(failure),
                ),
                Ok(None) => result == Err::<(u64, Vec<StoreOp>), PolError>(
                    PolError::EpochNotFound(self@.current_epoch),
                ),
                Ok(Some(_)) => result matches Ok(rotation) && rotation.0 == self@.current_epoch
                    + 1 && op_views(rotation.1@) == opening_of(rotation.0, now),
            },
    {
        match loaded {
            Err(failure) => Err(self.storage.failed(failure)),
            Ok(None) => Err(PolError::EpochNotFound(self.current_epoch)),
            Ok(Some(_)) => {
                let new_epoch_id = self.current_epoch + 1;
                Ok((new_epoch_id, self.open_epoch(new_epoch_id, now)))
            },
        }
    }

    /// Prepares the move to the next epoch now:
    /// [`PolService::rotate_epoch_at`] at the time that the clock shows.
    pub fn rotate_epoch(&self, loaded: Result<Option<Vec<u8>>, StoreFailure>) -> (result: Result<
        (u64, Vec<StoreOp>),
        PolError,
    >)
        requires
            self@.current_epoch < u64::MAX,
        ensures
            match loaded {
                Err(failure) => result == Err::<(u64, Vec<StoreOp>), PolError>(
                    store_error(failure),
                ),
                Ok(None) => result == Err::<(u64, Vec<StoreOp>), PolError>(
                    PolError::EpochNotFound(self@.current_epoch),
                ),
                Ok(Some(_)) => result matches Ok(rotation) && rotation.0 == self@.current_epoch
                    + 1 && exists|now: Timestamp|
                    op_views(rotation.1@) == #[trigger] opening_of(rotation.0, now),
            },
    {
        self.rotate_epoch_at(loaded, now())
    }

    /// Moves on to the next epoch, given how the writes of
    /// [`PolService::rotate_epoch`] went. Where they are done the next epoch
    /// is the current one, and its id is returned. Where one of them failed
    /// the service stays at its epoch, which is still the one that the store
    /// points to.
    pub fn rotated(&mut self, written: Result<(), StoreFailure>) -> (result: Result<u64, PolError>)
        requires
            old(self)@.current_epoch < u64::MAX,
        ensures
            match written {
                Ok(_) => {
                    &&& result == Ok::<u64, PolError>((old(self)@.current_epoch + 1) as u64)
                    &&& final(self)@ == old(self)@.rotated()
                },
                Err(failure) => {
                    &&& result == Err::<u64, PolError>(store_error(failure))
                    &&& final(self)@ == old(self)@
                },
            },
    {
        match written {
            Ok(_) => {
                let new_epoch_id = self.current_epoch + 1;
                self.current_epoch = new_epoch_id;
                Ok(new_epoch_id)
            },
            Err(failure) => Err(self.storage.failed(failure)),
        }
    }

    /// The writes that bring the store back to the retained number of
    /// epochs. `listed` is what a scan of the epochs found. While more epochs
    /// are there than are retained, the oldest goes: the writes remove the
    /// lowest ids, in ascending order. The current epoch never goes, so the
    /// pointer always names an epoch that is there.
    pub fn prune_epochs(&self, listed: Result<Vec<Vec<u8>>, StoreFailure>) -> (result: Result<
        Vec<StoreOp>,
        PolError,
    >)
        ensures
            match listed {
                Err(failure) => result == Err::<Vec<StoreOp>, PolError>(store_error(failure)),
                Ok(records) => match decode_all(record_views(records@)) {
                    Some(epochs) => result matches Ok(ops) && op_views(ops@) == delete_ops(
                        evicted(epochs, self@.max_epoch_history as nat, self@.current_epoch),
                    ),
                    None => result matches Err(PolError::DatabaseDeserializationError(why)) && why@
                        == malformed_text(),
                },
            },
    {
        let epochs = match self.storage.list_epochs(listed) {
            Err(error) => {
                return Err(error);
            },
            Ok(epochs) => epochs,
        };
        let doomed = evictions(epochs, self.max_epoch_history, self.current_epoch);
        let mut ops: Vec<StoreOp> = Vec::new();
        let mut i: usize = 0;
        while i < doomed.len()
            invariant
                i <= doomed.len(),
                op_views(ops@) == delete_ops(doomed@.subrange(0, i as int)),
            decreases doomed.len() - i,
        {
            proof {
                assert(delete_ops(doomed@.subrange(0, i + 1)) =~= delete_ops(
                    doomed@.subrange(0, i as int),
                ).push(StoreOpView::DeleteEpoch { epoch_id: doomed@[i as int] }));
            }
            ops.push(self.storage.delete_epoch(doomed[i]));
            i += 1;
        }
        assert(doomed@.subrange(0, doomed.len() as int) =~= doomed@);
        Ok(ops)
    }

    /// The report on the retained epochs, made at the time `now`. `listed`
    /// is what a scan of the epochs found, in whatever order. The report
    /// holds one entry for each epoch, in ascending order of the ids; an
    /// epoch before the current one has ended, a configured number of days
    /// after it started.
    ///
    /// Fails with `ReportGenerationFailed` where the sum of the balances
    /// does not fit the width of an amount, or the end of an epoch is no
    /// time that exists.
    pub fn generate_report_at(
        &self,
        listed: Result<Vec<Vec<u8>>, StoreFailure>,
        now: Timestamp,
    ) -> (result: Result<PolReport, PolError>)
        ensures
            match listed {
                Err(failure) => result == Err::<PolReport, PolError>(store_error(failure)),
                Ok(records) => match decode_all(record_views(records@)) {
                    Some(epochs) => if reportable(
                        in_id_order(epochs),
                        self@.current_epoch,
                        self@.epoch_days,
                    ) {
                        &&& result matches Ok(report) && report@ == ledger_report(
                            epochs,
                            self@.current_epoch,
                            self@.epoch_days,
                            now,
                        )
                        &&& forall|i: int, j: int|
                            0 <= i < j < result->Ok_0.epoch_reports.len()
                                ==> result->Ok_0.epoch_reports[i].epoch_id
                                <= result->Ok_0.epoch_reports[j].epoch_id
                    } else {
                        result matches Err(PolError::ReportGenerationFailed(why)) && why@
                            == out_of_range_text()
                    },
                    None => result matches Err(PolError::DatabaseDeserializationError(why)) && why@
                        == malformed_text(),
                },
            },
    {
        let epochs = match self.storage.list_epochs(listed) {
            Err(error) => {
                return Err(error);
            },
            Ok(epochs) => epochs,
        };
        build_report(epochs, self.current_epoch, self.epoch_duration_days, now)
    }

    /// The report on the retained epochs, made now:
    /// [`PolService::generate_report_at`] at the time that the clock shows.
    pub fn generate_report(&self, listed: Result<Vec<Vec<u8>>, StoreFailure>) -> (result: Result<
        PolReport,
        PolError,
    >)
        ensures
            match listed {
                Err(failure) => result == Err::<PolReport, PolError>(store_error(failure)),
                Ok(records) => match decode_all(record_views(records@)) {
                    Some(epochs) => if reportable(
                        in_id_order(epochs),
                        self@.current_epoch,
                        self@.epoch_days,
                    ) {
                        &&& result matches Ok(report) && exists|now: Timestamp|
                            report@ == #[trigger] ledger_report(
                                epochs,
                                self@.current_epoch,
                                self@.epoch_days,
                                now,
                            )
                        &&& forall|i: int, j: int|
                            0 <= i < j < result->Ok_0.epoch_reports.len()
                                ==> result->Ok_0.epoch_reports[i].epoch_id
                                <= result->Ok_0.epoch_reports[j].epoch_id
                    } else {
                        result matches Err(PolError::ReportGenerationFailed(why)) && why@
                            == out_of_range_text()
                    },
                    None => result matches Err(PolError::DatabaseDeserializationError(why)) && why@
                        == malformed_text(),
                },
            },
    {
        self.generate_report_at(listed, now())
    }

    /// Whether `proof` was minted in the epoch `epoch_id`. `loaded` is what
    /// the lookup of that epoch found.
    ///
    /// Fails with `EpochNotFound` where the store no longer holds the epoch.
    pub fn verify_mint_proof(
        &self,
        loaded: Result<Option<Vec<u8>>, StoreFailure>,
        epoch_id: u64,
        proof: &Proof,
    ) -> (result: Result<bool, PolError>)
        ensures
            match loaded {
                Err(failure) => result == Err::<bool, PolError>(store_error(failure)),
                Ok(None) => result == Err::<bool, PolError>(PolError::EpochNotFound(epoch_id)),
                Ok(Some(record)) => match decode(record@) {
                    Some(epoch) => result == Ok::<bool, PolError>(epoch.minted_with(proof@)),
                    None => result matches Err(PolError::DatabaseDeserializationError(why)) && why@
                        == malformed_text(),
                },
            },
    {
        let epoch_state = match self.storage.get_epoch(loaded) {
            Err(error) => {
                return Err(error);
            },
            Ok(None) => {
                return Err(PolError::EpochNotFound(epoch_id));
            },
            Ok(Some(epoch_state)) => epoch_state,
        };
        Ok(epoch_state.has_minted(proof))
    }

    /// Whether `secret` was burned in the epoch `epoch_id`. `loaded` is what
    /// the lookup of that epoch found.
    ///
    /// Fails with `EpochNotFound` where the store no longer holds the epoch.
    pub fn verify_burn_proof(
        &self,
        loaded: Result<Option<Vec<u8>>, StoreFailure>,
        epoch_id: u64,
        secret: &str,
    ) -> (result: Result<bool, PolError>)
        ensures
            match loaded {
                Err(failure) => result == Err::<bool, PolError>(store_error(failure)),
                Ok(None) => result == Err::<bool, PolError>(PolError::EpochNotFound(epoch_id)),
                Ok(Some(record)) => match decode(record@) {
                    Some(epoch) => result == Ok::<bool, PolError>(epoch.burned_with(secret@)),
                    None => result matches Err(PolError::DatabaseDeserializationError(why)) && why@
                        == malformed_text(),
                },
            },
    {
        let epoch_state = match self.storage.get_epoch(loaded) {
            Err(error) => {
                return Err(error);
            },
            Ok(None) => {
                return Err(PolError::EpochNotFound(epoch_id));
            },
            Ok(Some(epoch_state)) => epoch_state,
        };
        Ok(epoch_state.has_burned(secret))
    }
}

} // verus!
