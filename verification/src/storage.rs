use crate::epoch::{EpochState, EpochView};
use crate::record::{decode, decode_epoch, encode_epoch, epoch_bytes};
use crate::report::epoch_views;
use crate::types::PolError;
use vstd::prelude::*;

verus! {

/// The table that holds the record of each epoch under its id.
pub const EPOCHS_TABLE: &'static str = "epochs";

/// The table that holds the pointer to the current epoch.
pub const CURRENT_EPOCH_TABLE: &'static str = "current_epoch";

/// The key of the pointer in its table.
pub const CURRENT_EPOCH_KEY: &'static str = "current";

/// The step of a store transaction at which it failed.
#[derive(Debug, Clone, Copy, PartialEq, Eq, Structural)]
pub enum StoreStage {
    /// Opening or creating the store.
    Create,
    /// Beginning the transaction.
    Begin,
    /// Opening a table.
    Table,
    /// Reading, writing or removing an entry.
    Access,
    /// Committing the transaction.
    Commit,
}

/// A failed store transaction: where it failed and what the store said.
#[derive(Debug, Clone, PartialEq, Eq)]
pub struct StoreFailure {
    pub stage: StoreStage,
    pub message: String,
}

/// One write to the store. Each is carried out as a transaction of its
/// own: it takes effect as a whole or not at all.
#[derive(Debug, Clone, PartialEq, Eq)]
pub enum StoreOp {
    /// Put `record` under the key `epoch_id` of the epochs, in place of what
    /// may be there.
    SaveEpoch { epoch_id: u64, record: Vec<u8> },
    /// Remove the key `epoch_id` from the epochs, if it is there.
    DeleteEpoch { epoch_id: u64 },
    /// Make `epoch_id` the current epoch.
    SaveCurrentEpoch { epoch_id: u64 },
}

/// What a [`StoreOp`] is in contracts.
pub enum StoreOpView {
    SaveEpoch { epoch_id: u64, record: Seq<u8> },
    DeleteEpoch { epoch_id: u64 },
    SaveCurrentEpoch { epoch_id: u64 },
}

impl View for StoreOp {
    type V = StoreOpView;

    open spec fn view(&self) -> StoreOpView {
        match *self {
            StoreOp::SaveEpoch { epoch_id, record } => StoreOpView::SaveEpoch {
                epoch_id,
                record: record@,
            },
            StoreOp::DeleteEpoch { epoch_id } => StoreOpView::DeleteEpoch { epoch_id },
            StoreOp::SaveCurrentEpoch { epoch_id } => StoreOpView::SaveCurrentEpoch { epoch_id },
        }
    }
}

impl StoreOpView {
    /// Whether the write keeps every record under the id of its epoch: a
    /// record that it saves holds an epoch, and that epoch has the id of
    /// the key.
    pub open spec fn well_keyed(self) -> bool {
        match self {
            StoreOpView::SaveEpoch { epoch_id, record } => decode(record) matches Some(epoch)
                && epoch.epoch_id == epoch_id,
            _ => true,
        }
    }
}

/// The views of a run of writes.
pub open spec fn op_views(ops: Seq<StoreOp>) -> Seq<StoreOpView> {
    ops.map_values(|op: StoreOp| op@)
}

/// The byte strings of a run of records.
pub open spec fn record_views(records: Seq<Vec<u8>>) -> Seq<Seq<u8>> {
    records.map_values(|r: Vec<u8>| r@)
}

/// What the store holds: the record of each epoch under its id, and the id
/// of the current epoch once one was saved.
pub struct StoreModel {
    pub epochs: Map<u64, Seq<u8>>,
    pub current: Option<u64>,
}

impl StoreModel {
    /// The store after the write `op`.
    pub open spec fn apply(self, op: StoreOpView) -> StoreModel {
        match op {
            StoreOpView::SaveEpoch { epoch_id, record } => StoreModel {
                epochs: self.epochs.insert(epoch_id, record),
                ..self
            },
            StoreOpView::DeleteEpoch { epoch_id } => StoreModel {
                epochs: self.epochs.remove(epoch_id),
                ..self
            },
            StoreOpView::SaveCurrentEpoch { epoch_id } => StoreModel {
                current: Some(epoch_id),
                ..self
            },
        }
    }

    /// The store after the writes `ops`, carried out in their order.
    pub open spec fn apply_all(self, ops: Seq<StoreOpView>) -> StoreModel
        decreases ops.len(),
    {
        if ops.len() == 0 {
            self
        } else {
            self.apply(ops[0]).apply_all(ops.drop_first())
        }
    }

    /// The ids of the epochs that the store retains.
    pub open spec fn retained(self) -> Set<u64> {
        self.epochs.dom()
    }

    /// Whether `records` is a scan of the store, in the order `ids` of the
    /// keys: the record of every retained epoch, once.
    pub open spec fn listed_as(self, ids: Seq<u64>, records: Seq<Seq<u8>>) -> bool {
        &&& ids.no_duplicates()
        &&& ids.to_set() == self.epochs.dom()
        &&& records.len() == ids.len()
        &&& forall|i: int| 0 <= i < ids.len() ==> records[i] == self.epochs[#[trigger] ids[i]]
    }

    /// Every record was written for the key under which it stands.
    pub open spec fn keyed_by_id(self) -> bool {
        forall|id: u64| #[trigger]
            self.epochs.dom().contains(id) ==> (decode(self.epochs[id]) matches Some(epoch)
                && epoch.epoch_id == id)
    }
}

/// A write that is well keyed leaves every record under the id of its
/// epoch.
pub proof fn lemma_apply_keeps_keys(store: StoreModel, op: StoreOpView)
    requires
        store.keyed_by_id(),
        op.well_keyed(),
    ensures
        store.apply(op).keyed_by_id(),
{
}

/// Writes that are well keyed leave every record under the id of its
/// epoch.
pub proof fn lemma_apply_all_keeps_keys(store: StoreModel, ops: Seq<StoreOpView>)
    requires
        store.keyed_by_id(),
        forall|i: int| 0 <= i < ops.len() ==> (#[trigger] ops[i]).well_keyed(),
    ensures
        store.apply_all(ops).keyed_by_id(),
    decreases ops.len(),
{
    if ops.len() > 0 {
        lemma_apply_keeps_keys(store, ops[0]);
        let others = ops.drop_first();
        assert forall|i: int| 0 <= i < others.len() implies (#[trigger] others[i]).well_keyed() by {
            assert(others[i] == ops[i + 1]);
        }
        lemma_apply_all_keeps_keys(store.apply(ops[0]), others);
    }
}

/// What a failed transaction becomes when the store is opened: a failure
/// to begin or to commit is a transaction error, any other an
/// initialization error.
pub open spec fn open_error(failure: StoreFailure) -> PolError {
    match failure.stage {
        StoreStage::Begin | StoreStage::Commit => PolError::DatabaseTransactionError(
            failure.message,
        ),
        _ => PolError::DatabaseInitializationError(failure.message),
    }
}

/// What a failed transaction becomes once the store is open: a failure to
/// begin or to commit is a transaction error, any other a database error.
pub open spec fn store_error(failure: StoreFailure) -> PolError {
    match failure.stage {
        StoreStage::Begin | StoreStage::Commit => PolError::DatabaseTransactionError(
            failure.message,
        ),
        _ => PolError::DatabaseError(failure.message),
    }
}

/// What is said of a record that holds no epoch.
pub open spec fn malformed_text() -> Seq<char> {
    "the record holds no epoch"@
}

/// The epochs that the records hold, where each holds one.
pub open spec fn decode_all(records: Seq<Seq<u8>>) -> Option<Seq<EpochView>> {
    if forall|i: int| 0 <= i < records.len() ==> decode(#[trigger] records[i]) is Some {
        Some(Seq::new(records.len(), |i: int| decode(records[i])->0))
    } else {
        None
    }
}

/// The adapter between the ledger and its store. It says what is written
/// under which key and reads what the store answers; the transactions
/// themselves are carried out by its user.
#[derive(Debug, Clone, Copy, PartialEq, Eq)]
pub struct Storage {
    opened: (),
}

impl Storage {
    /// The adapter for a store, given how opening the store and creating
    /// its tables went.
    pub fn new(opened: Result<(), StoreFailure>) -> (storage: Result<Storage, PolError>)
        ensures
            match opened {
                Ok(_) => storage is Ok,
                Err(failure) => storage == Err::<Storage, PolError>(open_error(failure)),
            },
    {
        match opened {
            Ok(_) => Ok(Storage { opened: () }),
            Err(failure) => match failure.stage {
                StoreStage::Begin | StoreStage::Commit => Err(
                    PolError::DatabaseTransactionError(failure.message),
                ),
                _ => Err(PolError::DatabaseInitializationError(failure.message)),
            },
        }
    }

    /// The error for a transaction that failed on the open store.
    pub fn failed(&self, failure: StoreFailure) -> (error: PolError)
        ensures
            error == store_error(failure),
    {
        match failure.stage {
            StoreStage::Begin | StoreStage::Commit => PolError::DatabaseTransactionError(
                failure.message,
            ),
            _ => PolError::DatabaseError(failure.message),
        }
    }

    /// How a write went.
    pub fn written(&self, outcome: Result<(), StoreFailure>) -> (result: Result<(), PolError>)
        ensures
            match outcome {
                Ok(_) => result is Ok,
                Err(failure) => result == Err::<(), PolError>(store_error(failure)),
            },
    {
        match outcome {
            Ok(_) => Ok(()),
            Err(failure) => Err(self.failed(failure)),
        }
    }

    /// The write that saves `epoch_state`: its record, under its id.
    pub fn save_epoch(&self, epoch_state: &EpochState) -> (op: StoreOp)
        ensures
            op@ == (StoreOpView::SaveEpoch {
                epoch_id: epoch_state@.epoch_id,
                record: epoch_bytes(epoch_state@),
            }),
            decode(epoch_bytes(epoch_state@)) == Some(epoch_state@),
            op@.well_keyed(),
    {
        StoreOp::SaveEpoch { epoch_id: epoch_state.epoch_id(), record: encode_epoch(epoch_state) }
    }

    /// The epoch that a lookup found: `found` is what the store answered,
    /// the record under the key or `None` where the key is not there.
    pub fn get_epoch(&self, found: Result<Option<Vec<u8>>, StoreFailure>) -> (result: Result<
        Option<EpochState>,
        PolError,
    >)
        ensures
            match found {
                Err(failure) => result == Err::<Option<EpochState>, PolError>(
                    store_error(failure),
                ),
                Ok(None) => result matches Ok(None),
                Ok(Some(record)) => match decode(record@) {
                    Some(view) => result matches Ok(Some(epoch)) && epoch@ == view,
                    None => result matches Err(PolError::DatabaseDeserializationError(why)) && why@
                        == malformed_text(),
                },
            },
    {
        match found {
            Err(failure) => Err(self.failed(failure)),
            Ok(None) => Ok(None),
            Ok(Some(record)) => match decode_epoch(record.as_slice()) {
                Some(epoch) => Ok(Some(epoch)),
                None => Err(
                    PolError::DatabaseDeserializationError("the record holds no epoch".to_owned()),
                ),
            },
        }
    }

    /// The epochs that a scan found: `found` is what the store answered,
    /// the records in the order of the scan.
    pub fn list_epochs(&self, found: Result<Vec<Vec<u8>>, StoreFailure>) -> (result: Result<
        Vec<EpochState>,
        PolError,
    >)
        ensures
            match found {
                Err(failure) => result == Err::<Vec<EpochState>, PolError>(store_error(failure)),
                Ok(records) => match decode_all(record_views(records@)) {
                    Some(views) => result matches Ok(epochs) && epoch_views(epochs@) == views,
                    None => result matches Err(PolError::DatabaseDeserializationError(why)) && why@
                        == malformed_text(),
                },
            },
    {
        let records = match found {
            Err(failure) => {
                return Err(self.failed(failure));
            },
            Ok(records) => records,
        };
        let ghost raw = record_views(records@);
        let mut epochs: Vec<EpochState> = Vec::new();
        let mut i: usize = 0;
        while i < records.len()
            invariant
                i <= records.len(),
                found == Ok::<Vec<Vec<u8>>, StoreFailure>(records),
                raw == record_views(records@),
                epochs.len() == i,
                forall|j: int|
                    0 <= j < i ==> decode(#[trigger] raw[j]) == Some(epoch_views(epochs@)[j]),
            decreases records.len() - i,
        {
            match decode_epoch(records[i].as_slice()) {
                Some(epoch) => {
                    assert(raw[i as int] == records[i as int]@);
                    epochs.push(epoch);
                },
                None => {
                    assert(raw[i as int] == records[i as int]@);
                    return Err(
                        PolError::DatabaseDeserializationError(
                            "the record holds no epoch".to_owned(),
                        ),
                    );
                },
            }
            i += 1;
        }
        proof {
            let views = decode_all(raw);
            assert(views is Some);
            assert(epoch_views(epochs@) =~= views->0);
        }
        Ok(epochs)
    }

    /// The write that removes the epoch `epoch_id`.
    pub fn delete_epoch(&self, epoch_id: u64) -> (op: StoreOp)
        ensures
            op@ == (StoreOpView::DeleteEpoch { epoch_id }),
    {
        StoreOp::DeleteEpoch { epoch_id }
    }

    /// The write that makes `epoch_id` the current epoch.
    pub fn save_current_epoch(&self, epoch_id: u64) -> (op: StoreOp)
        ensures
            op@ == (StoreOpView::SaveCurrentEpoch { epoch_id }),
    {
        StoreOp::SaveCurrentEpoch { epoch_id }
    }

    /// The current epoch that a lookup found: `found` is what the store
    /// answered, `None` where none was saved yet.
    pub fn get_current_epoch(&self, found: Result<Option<u64>, StoreFailure>) -> (result: Result<
        Option<u64>,
        PolError,
    >)
        ensures
            match found {
                Err(failure) => result == Err::<Option<u64>, PolError>(store_error(failure)),
                Ok(current) => result == Ok::<Option<u64>, PolError>(current),
            },
    {
        match found {
            Err(failure) => Err(self.failed(failure)),
            Ok(current) => Ok(current),
        }
    }
}

} // verus!
