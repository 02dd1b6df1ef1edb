use cashu_pol::record::decode_epoch;
use cashu_pol::{
    create_sample_mint_proof, create_sample_proof, PolError, PolReport, PolService, Proof, Storage,
    StoreFailure, StoreOp, StoreStage, Timestamp,
};
use std::collections::BTreeMap;

/// A store in memory, with the keys in order as a keyed table keeps them.
struct MemStore {
    epochs: BTreeMap<u64, Vec<u8>>,
    current: Option<u64>,
    /// How many more writes go through; `None` where all do.
    writes_left: Option<usize>,
}

impl MemStore {
    fn new() -> MemStore {
        MemStore { epochs: BTreeMap::new(), current: None, writes_left: None }
    }

    /// Carries out the writes one by one and stops at the first that fails.
    fn write_all(&mut self, ops: Vec<StoreOp>) -> Result<(), StoreFailure> {
        for op in ops {
            if self.writes_left == Some(0) {
                return Err(StoreFailure {
                    stage: StoreStage::Commit,
                    message: "disk full".to_string(),
                });
            }
            self.writes_left = self.writes_left.map(|left| left - 1);
            self.apply(op);
        }
        Ok(())
    }

    fn apply(&mut self, op: StoreOp) {
        match op {
            StoreOp::SaveEpoch { epoch_id, record } => {
                self.epochs.insert(epoch_id, record);
            }
            StoreOp::DeleteEpoch { epoch_id } => {
                self.epochs.remove(&epoch_id);
            }
            StoreOp::SaveCurrentEpoch { epoch_id } => {
                self.current = Some(epoch_id);
            }
        }
    }

    fn apply_all(&mut self, ops: Vec<StoreOp>) {
        for op in ops {
            self.apply(op);
        }
    }

    fn epoch(&self, epoch_id: u64) -> Result<Option<Vec<u8>>, StoreFailure> {
        Ok(self.epochs.get(&epoch_id).cloned())
    }

    fn scan(&self) -> Result<Vec<Vec<u8>>, StoreFailure> {
        Ok(self.epochs.values().cloned().collect())
    }

    fn ids(&self) -> Vec<u64> {
        self.epochs.keys().copied().collect()
    }
}

/// A service and its store, driven as a caller drives them.
struct Ledger {
    service: PolService,
    store: MemStore,
}

impl Ledger {
    fn new(epoch_days: i64, max_history: usize) -> Ledger {
        let storage = Storage::new(Ok(())).unwrap();
        Ledger { service: PolService::new(epoch_days, max_history, storage), store: MemStore::new() }
    }

    fn initialize(&mut self) -> Result<(), PolError> {
        let ops = self.service.initialize(Ok(self.store.current))?;
        self.store.apply_all(ops);
        Ok(())
    }

    fn record_mint_proof(&mut self, proof: Proof, amount: u64) -> Result<(), PolError> {
        let loaded = self.store.epoch(self.service.current_epoch());
        let op = self.service.record_mint_proof(loaded, proof, amount)?;
        self.store.apply(op);
        Ok(())
    }

    fn record_burn_proof(&mut self, secret: String, amount: u64) -> Result<(), PolError> {
        let loaded = self.store.epoch(self.service.current_epoch());
        let op = self.service.record_burn_proof(loaded, secret, amount)?;
        self.store.apply(op);
        Ok(())
    }

    fn rotate_epoch(&mut self) -> Result<u64, PolError> {
        if self.service.current_epoch() == u64::MAX {
            panic!("no epoch follows the last one");
        }
        let loaded = self.store.epoch(self.service.current_epoch());
        let (_, ops) = self.service.rotate_epoch(loaded)?;
        let written = self.store.write_all(ops);
        let new_epoch_id = self.service.rotated(written)?;
        let doomed = self.service.prune_epochs(self.store.scan())?;
        self.store.apply_all(doomed);
        Ok(new_epoch_id)
    }

    fn generate_report(&self) -> Result<PolReport, PolError> {
        self.service.generate_report(self.store.scan())
    }

    fn verify_burn_proof(&self, epoch_id: u64, secret: &str) -> Result<bool, PolError> {
        self.service.verify_burn_proof(self.store.epoch(epoch_id), epoch_id, secret)
    }

    fn verify_mint_proof(&self, epoch_id: u64, proof: &Proof) -> Result<bool, PolError> {
        self.service.verify_mint_proof(self.store.epoch(epoch_id), epoch_id, proof)
    }
}

fn at(secs: i64) -> Timestamp {
    Timestamp { secs, nanos: 0 }
}

fn proof_named(secret: &str, amount: u64) -> Proof {
    Proof::new(amount, vec![0u8; 8], secret.to_string(), vec![2u8; 33])
}

#[test]
fn test_service_with_sample_data() {
    // 7-day epochs, 4 epochs of history.
    let mut ledger = Ledger::new(7, 4);
    ledger.initialize().unwrap();

    let amounts: [(Vec<u64>, Vec<u64>); 3] = [
        (vec![5000, 3000], vec![2000]), // epoch 0: 8000 - 2000 = 6000
        (vec![2000], vec![1000, 500]),  // epoch 1: 2000 - 1500 = 500
        (vec![1000], vec![4000]),       // epoch 2: 1000 - 4000, floored at 0
    ];
    let keyset_id = vec![0u8; 8];

    for (epoch, (mint_amounts, burn_amounts)) in amounts.iter().enumerate() {
        for &amount in mint_amounts {
            let mint_proof = create_sample_mint_proof(keyset_id.clone(), amount);
            ledger.record_mint_proof(mint_proof.proof.clone(), mint_proof.amount).unwrap();
        }
        for &amount in burn_amounts {
            let secret = format!("burn_{}", amount);
            ledger.record_burn_proof(secret, amount).unwrap();
        }
        if epoch < amounts.len() - 1 {
            ledger.rotate_epoch().unwrap();
        }
    }

    let report = ledger.generate_report().unwrap();
    assert_eq!(report.epoch_reports.len(), 3);

    let expected_balances = [6000u64, 500, 0];
    for (i, balance) in expected_balances.iter().enumerate() {
        assert_eq!(
            report.epoch_reports[i].outstanding_balance, *balance,
            "Balance mismatch in epoch {}",
            i
        );
    }
    assert_eq!(report.total_outstanding_balance, 6500);
}

#[test]
fn test_epoch_rotation_with_sample_data() {
    // 7-day epochs, 2 epochs of history.
    let mut ledger = Ledger::new(7, 2);
    ledger.initialize().unwrap();
    let keyset_id = vec![0u8; 8];

    let mint_proof = create_sample_mint_proof(keyset_id.clone(), 5000);
    ledger.record_mint_proof(mint_proof.proof.clone(), mint_proof.amount).unwrap();
    ledger.record_burn_proof("test_burn".to_string(), 2000).unwrap();

    ledger.rotate_epoch().unwrap();

    let mint_proof = create_sample_mint_proof(keyset_id, 3000);
    ledger.record_mint_proof(mint_proof.proof.clone(), mint_proof.amount).unwrap();

    // The second rotation evicts the first epoch.
    ledger.rotate_epoch().unwrap();

    let report = ledger.generate_report().unwrap();
    assert_eq!(report.epoch_reports.len(), 2);
    assert_eq!(report.epoch_reports[0].outstanding_balance, 3000);
    assert_eq!(report.epoch_reports[0].epoch_id, 1);
    assert_eq!(report.epoch_reports[1].epoch_id, 2);
    assert_eq!(ledger.store.ids(), vec![1, 2]);
}

#[test]
fn test_pol_service_lifecycle() {
    let mut ledger = Ledger::new(30, 24);
    ledger.initialize().unwrap();

    let report = ledger.generate_report().unwrap();
    assert_eq!(report.epoch_reports.len(), 1);
    assert_eq!(report.total_outstanding_balance, 0);

    // No mint proof is at hand; the total is still nothing.
    let amount = 1000;
    let report = ledger.generate_report().unwrap();
    assert_eq!(report.total_outstanding_balance, 0);

    let secret = "ab".repeat(32);
    ledger.record_burn_proof(secret.clone(), amount).unwrap();

    let report = ledger.generate_report().unwrap();
    assert_eq!(report.total_outstanding_balance, 0);

    let new_epoch_id = ledger.rotate_epoch().unwrap();
    assert_eq!(new_epoch_id, 1);

    let report = ledger.generate_report().unwrap();
    assert_eq!(report.epoch_reports.len(), 2);

    assert!(ledger.verify_burn_proof(0, &secret).unwrap());
}

#[test]
fn test_epoch_cleanup() {
    let max_history = 3;
    let mut ledger = Ledger::new(30, max_history);
    ledger.initialize().unwrap();

    for _ in 0..5 {
        ledger.rotate_epoch().unwrap();
    }

    let report = ledger.generate_report().unwrap();
    assert_eq!(report.epoch_reports.len(), max_history);
}

#[test]
fn test_outstanding_balance_calculation() {
    let mut ledger = Ledger::new(30, 24);
    ledger.initialize().unwrap();

    let amounts: Vec<u64> = vec![1000, 2000, 3000];
    for (i, amount) in amounts.iter().enumerate() {
        if i < 2 {
            let secret = format!("{:02x}", i).repeat(32);
            ledger.record_burn_proof(secret, *amount).unwrap();
        }
    }

    let report = ledger.generate_report().unwrap();
    assert_eq!(report.total_outstanding_balance, 0);
}

#[test]
fn rotation_counts_up_from_zero() {
    let mut ledger = Ledger::new(7, 100);
    ledger.initialize().unwrap();
    assert_eq!(ledger.service.current_epoch(), 0);
    assert_eq!(ledger.store.current, Some(0));
    for n in 1..=10u64 {
        assert_eq!(ledger.rotate_epoch().unwrap(), n);
        assert_eq!(ledger.service.current_epoch(), n);
        assert_eq!(ledger.store.current, Some(n));
    }
    assert_eq!(ledger.store.ids(), (0..=10).collect::<Vec<u64>>());
}

#[test]
fn retention_keeps_the_newest_epochs() {
    let mut ledger = Ledger::new(7, 3);
    ledger.initialize().unwrap();
    let mut retained: Vec<Vec<u64>> = Vec::new();
    for _ in 0..6 {
        ledger.rotate_epoch().unwrap();
        assert!(ledger.store.ids().len() <= 3);
        retained.push(ledger.store.ids());
    }
    assert_eq!(
        retained,
        vec![vec![0, 1], vec![0, 1, 2], vec![1, 2, 3], vec![2, 3, 4], vec![3, 4, 5], vec![4, 5, 6]]
    );
}

#[test]
fn retention_evicts_the_oldest_first() {
    let storage = Storage::new(Ok(())).unwrap();
    let mut service = PolService::new(7, 2, storage);
    let mut store = MemStore::new();
    store.apply_all(service.initialize_at(Ok(None), at(10)).unwrap());
    for n in 1..=4 {
        let (_, ops) = service.rotate_epoch_at(store.epoch(service.current_epoch()), at(10 + n)).unwrap();
        store.apply_all(ops);
        service.rotated(Ok(())).unwrap();
    }
    // Five epochs are there and two stay: 0, 1 and 2 go, in that order.
    let mut scan = store.scan().unwrap();
    scan.reverse();
    let doomed = service.prune_epochs(Ok(scan)).unwrap();
    assert_eq!(
        doomed,
        vec![
            StoreOp::DeleteEpoch { epoch_id: 0 },
            StoreOp::DeleteEpoch { epoch_id: 1 },
            StoreOp::DeleteEpoch { epoch_id: 2 },
        ]
    );
    store.apply_all(doomed);
    assert_eq!(store.ids(), vec![3, 4]);
    // Within the bound nothing goes.
    assert_eq!(service.prune_epochs(store.scan()).unwrap(), vec![]);
}

#[test]
fn the_current_epoch_is_never_evicted() {
    // With no history to keep, every epoch but the current one goes.
    let mut ledger = Ledger::new(7, 0);
    ledger.initialize().unwrap();
    assert_eq!(ledger.rotate_epoch().unwrap(), 1);
    assert_eq!(ledger.store.ids(), vec![1]);
    assert_eq!(ledger.store.current, Some(1));
    assert_eq!(ledger.record_burn_proof("s".to_string(), 1), Ok(()));
    assert_eq!(ledger.rotate_epoch().unwrap(), 2);
    assert_eq!(ledger.store.ids(), vec![2]);

    // A pointer that lags behind: its epoch is among the oldest and stays.
    let storage = Storage::new(Ok(())).unwrap();
    let mut service = PolService::new(7, 2, storage);
    let mut store = MemStore::new();
    store.apply_all(service.initialize_at(Ok(None), at(0)).unwrap());
    for n in 1..=4 {
        let loaded = store.epoch(service.current_epoch());
        let (_, ops) = service.rotate_epoch_at(loaded, at(n)).unwrap();
        store.apply_all(ops);
        service.rotated(Ok(())).unwrap();
    }
    let mut lagging = PolService::new(7, 2, storage);
    lagging.initialize_at(Ok(Some(1)), at(9)).unwrap();
    let doomed = lagging.prune_epochs(store.scan()).unwrap();
    assert_eq!(
        doomed,
        vec![StoreOp::DeleteEpoch { epoch_id: 0 }, StoreOp::DeleteEpoch { epoch_id: 2 }]
    );
}

#[test]
fn a_failed_write_leaves_the_service_at_its_epoch() {
    let mut ledger = Ledger::new(7, 4);
    ledger.initialize().unwrap();
    ledger.rotate_epoch().unwrap();
    ledger.record_burn_proof("before".to_string(), 1).unwrap();
    let before = ledger.store.epochs.clone();

    // The store refuses the record of the new epoch.
    ledger.store.writes_left = Some(0);
    assert_eq!(
        ledger.rotate_epoch(),
        Err(PolError::DatabaseTransactionError("disk full".to_string()))
    );
    ledger.store.writes_left = None;
    assert_eq!(ledger.store.epochs, before);
    assert_eq!(ledger.store.current, Some(1));
    assert_eq!(ledger.service.current_epoch(), 1);
    // A burn that follows lands in the epoch that is still the current one.
    ledger.record_burn_proof("after".to_string(), 2).unwrap();
    assert_eq!(ledger.verify_burn_proof(1, "after"), Ok(true));
    assert_eq!(ledger.store.ids(), vec![0, 1]);

    // The store takes the record and refuses the pointer.
    ledger.store.writes_left = Some(1);
    assert_eq!(
        ledger.rotate_epoch(),
        Err(PolError::DatabaseTransactionError("disk full".to_string()))
    );
    ledger.store.writes_left = None;
    assert_eq!(ledger.store.current, Some(1));
    assert_eq!(ledger.service.current_epoch(), 1);
    ledger.record_burn_proof("again".to_string(), 3).unwrap();
    assert_eq!(ledger.verify_burn_proof(1, "again"), Ok(true));

    // The next rotation goes through and starts the new epoch afresh.
    assert_eq!(ledger.rotate_epoch(), Ok(2));
    assert_eq!(ledger.store.current, Some(2));
    assert_eq!(ledger.store.ids(), vec![0, 1, 2]);
    assert_eq!(ledger.verify_burn_proof(2, "again"), Ok(false));

    // The outcome alone decides whether the service moves on.
    let storage = Storage::new(Ok(())).unwrap();
    let mut service = PolService::new(7, 4, storage);
    service.initialize_at(Ok(Some(8)), at(0)).unwrap();
    let failure = StoreFailure { stage: StoreStage::Table, message: "torn".to_string() };
    assert_eq!(service.rotated(Err(failure)), Err(PolError::DatabaseError("torn".to_string())));
    assert_eq!(service.current_epoch(), 8);
    assert_eq!(service.rotated(Ok(())), Ok(9));
    assert_eq!(service.current_epoch(), 9);
}

#[test]
fn rotating_before_initialize_finds_no_epoch() {
    let mut ledger = Ledger::new(7, 4);
    assert_eq!(ledger.rotate_epoch(), Err(PolError::EpochNotFound(0)));
    assert_eq!(ledger.service.current_epoch(), 0);
    assert!(ledger.store.ids().is_empty());
    assert_eq!(ledger.store.current, None);

    // A lookup that fails stops the rotation too, and nothing moves.
    let storage = Storage::new(Ok(())).unwrap();
    let mut service = PolService::new(7, 4, storage);
    service.initialize_at(Ok(Some(5)), at(1)).unwrap();
    let failure = StoreFailure { stage: StoreStage::Access, message: "torn".to_string() };
    assert_eq!(
        service.rotate_epoch_at(Err(failure), at(2)),
        Err(PolError::DatabaseError("torn".to_string()))
    );
    assert_eq!(service.rotate_epoch_at(Ok(None), at(2)), Err(PolError::EpochNotFound(5)));
    assert_eq!(service.current_epoch(), 5);

    // Once the ledger was initialized the rotation goes through.
    ledger.initialize().unwrap();
    assert_eq!(ledger.rotate_epoch(), Ok(1));
    assert_eq!(ledger.store.ids(), vec![0, 1]);
}

#[test]
fn two_epochs_of_history_evict_the_first() {
    let mut ledger = Ledger::new(7, 2);
    ledger.initialize().unwrap();
    ledger.record_mint_proof(proof_named("m0", 5000), 5000).unwrap();
    ledger.record_burn_proof("b0".to_string(), 2000).unwrap();
    assert_eq!(ledger.rotate_epoch().unwrap(), 1);
    ledger.record_mint_proof(proof_named("m1", 3000), 3000).unwrap();
    assert_eq!(ledger.rotate_epoch().unwrap(), 2);

    assert_eq!(ledger.store.ids(), vec![1, 2]);
    let report = ledger.generate_report().unwrap();
    assert_eq!(report.epoch_reports.len(), 2);
    assert_eq!(report.epoch_reports[0].epoch_id, 1);
    assert_eq!(report.epoch_reports[0].outstanding_balance, 3000);
    assert_eq!(report.epoch_reports[1].epoch_id, 2);
    assert_eq!(report.epoch_reports[1].outstanding_balance, 0);
    assert_eq!(report.total_outstanding_balance, 3000);
}

#[test]
fn a_burn_is_verified_within_the_window() {
    let mut ledger = Ledger::new(7, 2);
    ledger.initialize().unwrap();
    ledger.record_burn_proof("s1".to_string(), 100).unwrap();
    ledger.rotate_epoch().unwrap();
    // Epoch 0 is closed and still retained.
    assert_eq!(ledger.verify_burn_proof(0, "s1"), Ok(true));
    assert_eq!(ledger.verify_burn_proof(0, "s2"), Ok(false));
    assert_eq!(ledger.verify_burn_proof(1, "s1"), Ok(false));
    // One more rotation evicts it.
    ledger.rotate_epoch().unwrap();
    assert_eq!(ledger.verify_burn_proof(0, "s1"), Err(PolError::EpochNotFound(0)));
}

#[test]
fn mint_proofs_are_verified_by_their_proof() {
    let mut ledger = Ledger::new(7, 4);
    ledger.initialize().unwrap();
    let minted = proof_named("minted", 700);
    let other = proof_named("other", 700);
    ledger.record_mint_proof(minted.clone(), 700).unwrap();
    assert_eq!(ledger.verify_mint_proof(0, &minted), Ok(true));
    assert_eq!(ledger.verify_mint_proof(0, &other), Ok(false));
    assert_eq!(ledger.verify_mint_proof(9, &minted), Err(PolError::EpochNotFound(9)));
    // The same secret under another keyset is another proof.
    let mut moved = minted.clone();
    moved.keyset_id = vec![1u8; 8];
    assert_eq!(ledger.verify_mint_proof(0, &moved), Ok(false));
    // So is the same proof with a witness.
    let mut witnessed = minted.clone();
    witnessed.witness = Some(b"{\"signatures\":[]}".to_vec());
    assert_eq!(ledger.verify_mint_proof(0, &witnessed), Ok(false));
    ledger.record_mint_proof(witnessed.clone(), 700).unwrap();
    assert_eq!(ledger.verify_mint_proof(0, &witnessed), Ok(true));
    let report = ledger.generate_report().unwrap();
    assert_eq!(report.epoch_reports[0].mint_proofs[1].proof, witnessed);
}

#[test]
fn recording_before_initialize_finds_no_epoch() {
    let mut ledger = Ledger::new(7, 4);
    assert_eq!(
        ledger.record_mint_proof(proof_named("early", 1), 1),
        Err(PolError::EpochNotFound(0))
    );
    assert_eq!(ledger.record_burn_proof("early".to_string(), 1), Err(PolError::EpochNotFound(0)));
    assert!(ledger.store.ids().is_empty());
}

#[test]
fn initialize_resumes_what_is_stored() {
    let storage = Storage::new(Ok(())).unwrap();
    let mut service = PolService::new(7, 4, storage);
    // A pointer is stored: the service resumes there and writes nothing.
    assert_eq!(service.initialize_at(Ok(Some(17)), at(5)), Ok(vec![]));
    assert_eq!(service.current_epoch(), 17);
    assert_eq!(service.rotate_epoch_at(Ok(Some(vec![])), at(6)).unwrap().0, 18);
    assert_eq!(service.current_epoch(), 17);
    assert_eq!(service.rotated(Ok(())), Ok(18));
    assert_eq!(service.current_epoch(), 18);

    // None is stored: epoch 0 is written, then the pointer.
    let mut fresh = PolService::new(7, 4, storage);
    let ops = fresh.initialize_at(Ok(None), at(5)).unwrap();
    assert_eq!(ops.len(), 2);
    match &ops[0] {
        StoreOp::SaveEpoch { epoch_id, record } => {
            assert_eq!(*epoch_id, 0);
            let epoch = decode_epoch(record).unwrap();
            assert_eq!(epoch.epoch_id(), 0);
            assert_eq!(epoch.start_time(), at(5));
            assert!(epoch.mint_proofs().is_empty());
            assert!(epoch.burn_proofs().is_empty());
        }
        other => panic!("the first write saves the epoch, not {:?}", other),
    }
    assert_eq!(ops[1], StoreOp::SaveCurrentEpoch { epoch_id: 0 });
    assert_eq!(fresh.current_epoch(), 0);
}

#[test]
fn initialize_twice_changes_nothing() {
    let mut ledger = Ledger::new(7, 4);
    ledger.initialize().unwrap();
    ledger.record_burn_proof("kept".to_string(), 5).unwrap();
    ledger.rotate_epoch().unwrap();
    let before = ledger.store.epochs.clone();
    ledger.initialize().unwrap();
    assert_eq!(ledger.store.epochs, before);
    assert_eq!(ledger.service.current_epoch(), 1);
}

#[test]
fn a_failed_lookup_leaves_the_service_as_it_was() {
    let storage = Storage::new(Ok(())).unwrap();
    let mut service = PolService::new(7, 4, storage);
    service.initialize_at(Ok(Some(3)), at(1)).unwrap();
    let failure = StoreFailure { stage: StoreStage::Begin, message: "busy".to_string() };
    assert_eq!(
        service.initialize_at(Err(failure), at(2)),
        Err(PolError::DatabaseTransactionError("busy".to_string()))
    );
    assert_eq!(service.current_epoch(), 3);
}

#[test]
fn store_failures_keep_their_kind() {
    let storage = Storage::new(Ok(())).unwrap();
    let service = PolService::new(7, 4, storage);
    let failed = |stage: StoreStage| StoreFailure { stage, message: "why".to_string() };
    let database = PolError::DatabaseError("why".to_string());
    let transaction = PolError::DatabaseTransactionError("why".to_string());

    assert_eq!(
        service.record_mint_proof(Err(failed(StoreStage::Table)), proof_named("p", 1), 1),
        Err(database.clone())
    );
    assert_eq!(
        service.record_burn_proof(Err(failed(StoreStage::Commit)), "s".to_string(), 1),
        Err(transaction.clone())
    );
    assert_eq!(service.prune_epochs(Err(failed(StoreStage::Access))), Err(database.clone()));
    assert_eq!(service.generate_report(Err(failed(StoreStage::Begin))), Err(transaction.clone()));
    assert_eq!(
        service.verify_mint_proof(Err(failed(StoreStage::Access)), 0, &proof_named("p", 1)),
        Err(database.clone())
    );
    assert_eq!(service.verify_burn_proof(Err(failed(StoreStage::Begin)), 0, "s"), Err(transaction));
}

#[test]
fn a_record_that_holds_no_epoch_is_refused() {
    let storage = Storage::new(Ok(())).unwrap();
    let service = PolService::new(7, 4, storage);
    let broken = || Ok(Some(vec![1u8, 2, 3]));
    let refused = |result: Result<(), PolError>| {
        matches!(result, Err(PolError::DatabaseDeserializationError(_)))
    };
    assert!(refused(service.record_mint_proof(broken(), proof_named("p", 1), 1).map(|_| ())));
    assert!(refused(service.record_burn_proof(broken(), "s".to_string(), 1).map(|_| ())));
    assert!(refused(service.verify_mint_proof(broken(), 0, &proof_named("p", 1)).map(|_| ())));
    assert!(refused(service.verify_burn_proof(broken(), 0, "s").map(|_| ())));
    assert!(refused(service.generate_report(Ok(vec![vec![0u8; 7]])).map(|_| ())));
    assert!(refused(service.prune_epochs(Ok(vec![vec![0u8; 7]])).map(|_| ())));
}

#[test]
fn recording_the_same_event_twice_changes_nothing() {
    let storage = Storage::new(Ok(())).unwrap();
    let mut service = PolService::new(7, 4, storage);
    let mut store = MemStore::new();
    store.apply_all(service.initialize_at(Ok(None), at(1)).unwrap());

    let op = service.record_mint_proof_at(store.epoch(0), proof_named("p", 40), 40, at(2)).unwrap();
    store.apply(op);
    let once = store.epochs.clone();
    // The very same event again: proof, amount and time.
    let op = service.record_mint_proof_at(store.epoch(0), proof_named("p", 40), 40, at(2)).unwrap();
    store.apply(op);
    assert_eq!(store.epochs, once);
    // At another time it is another event.
    let op = service.record_mint_proof_at(store.epoch(0), proof_named("p", 40), 40, at(3)).unwrap();
    store.apply(op);
    let report = service.generate_report_at(store.scan(), at(4)).unwrap();
    assert_eq!(report.epoch_reports[0].mint_proofs.len(), 2);
    assert_eq!(report.epoch_reports[0].outstanding_balance, 80);

    let op = service.record_burn_proof_at(store.epoch(0), "b".to_string(), 30, at(5)).unwrap();
    store.apply(op);
    let op = service.record_burn_proof_at(store.epoch(0), "b".to_string(), 30, at(5)).unwrap();
    store.apply(op);
    let report = service.generate_report_at(store.scan(), at(6)).unwrap();
    assert_eq!(report.epoch_reports[0].burn_proofs.len(), 1);
    assert_eq!(report.epoch_reports[0].outstanding_balance, 50);
}

#[test]
fn the_balance_does_not_depend_on_the_order_of_the_calls() {
    let run = |order: &[usize]| -> u64 {
        let storage = Storage::new(Ok(())).unwrap();
        let mut service = PolService::new(7, 4, storage);
        let mut store = MemStore::new();
        store.apply_all(service.initialize_at(Ok(None), at(0)).unwrap());
        for &call in order {
            let loaded = store.epoch(0);
            let op = match call {
                0 => service.record_mint_proof_at(loaded, proof_named("a", 900), 900, at(1)),
                1 => service.record_mint_proof_at(loaded, proof_named("b", 50), 50, at(2)),
                2 => service.record_burn_proof_at(loaded, "x".to_string(), 300, at(3)),
                _ => service.record_burn_proof_at(loaded, "y".to_string(), 25, at(4)),
            };
            store.apply(op.unwrap());
        }
        service.generate_report_at(store.scan(), at(9)).unwrap().total_outstanding_balance
    };
    assert_eq!(run(&[0, 1, 2, 3]), 625);
    assert_eq!(run(&[3, 2, 1, 0]), 625);
    assert_eq!(run(&[2, 0, 3, 1]), 625);
    assert_eq!(run(&[2, 3, 0, 1]), 625);
}

#[test]
fn the_report_is_in_order_of_the_ids_whatever_the_scan() {
    let storage = Storage::new(Ok(())).unwrap();
    let mut service = PolService::new(7, 10, storage);
    let mut store = MemStore::new();
    store.apply_all(service.initialize_at(Ok(None), at(100)).unwrap());
    for n in 1..=4 {
        let op =
            service.record_mint_proof_at(store.epoch(n - 1), proof_named("p", n), n, at(100 + n as i64));
        store.apply(op.unwrap());
        let (_, ops) = service.rotate_epoch_at(store.epoch(service.current_epoch()), at(200 + n as i64)).unwrap();
        store.apply_all(ops);
        service.rotated(Ok(())).unwrap();
    }
    let scan = store.scan().unwrap();
    let shuffled = vec![
        scan[3].clone(),
        scan[0].clone(),
        scan[4].clone(),
        scan[2].clone(),
        scan[1].clone(),
    ];
    let report = service.generate_report_at(Ok(shuffled), at(999)).unwrap();
    let ids: Vec<u64> = report.epoch_reports.iter().map(|r| r.epoch_id).collect();
    assert_eq!(ids, vec![0, 1, 2, 3, 4]);
    let balances: Vec<u64> = report.epoch_reports.iter().map(|r| r.outstanding_balance).collect();
    assert_eq!(balances, vec![1, 2, 3, 4, 0]);
    assert_eq!(report.total_outstanding_balance, 10);
    assert_eq!(report.timestamp, at(999));
}

#[test]
fn a_closed_epoch_ends_after_the_configured_days() {
    let storage = Storage::new(Ok(())).unwrap();
    let mut service = PolService::new(7, 10, storage);
    let mut store = MemStore::new();
    let start = Timestamp { secs: 1_700_000_000, nanos: 123_456_789 };
    store.apply_all(service.initialize_at(Ok(None), start).unwrap());
    let (_, ops) = service.rotate_epoch_at(store.epoch(service.current_epoch()), Timestamp { secs: 1_700_600_000, nanos: 5 }).unwrap();
    store.apply_all(ops);
    service.rotated(Ok(())).unwrap();
    let report = service.generate_report_at(store.scan(), at(1_700_700_000)).unwrap();
    assert_eq!(report.epoch_reports[0].start_time, start);
    assert_eq!(
        report.epoch_reports[0].end_time,
        Some(Timestamp { secs: 1_700_000_000 + 7 * 86_400, nanos: 123_456_789 })
    );
    // The current epoch is still open.
    assert_eq!(report.epoch_reports[1].start_time, Timestamp { secs: 1_700_600_000, nanos: 5 });
    assert_eq!(report.epoch_reports[1].end_time, None);
}

#[test]
fn an_epoch_that_ends_at_no_time_fails_the_report() {
    let storage = Storage::new(Ok(())).unwrap();
    let mut service = PolService::new(i64::MAX, 10, storage);
    let mut store = MemStore::new();
    store.apply_all(service.initialize_at(Ok(None), at(0)).unwrap());
    // While epoch 0 is open its end is not asked for.
    assert!(service.generate_report_at(store.scan(), at(1)).is_ok());
    let (_, ops) = service.rotate_epoch_at(store.epoch(service.current_epoch()), at(2)).unwrap();
    store.apply_all(ops);
    service.rotated(Ok(())).unwrap();
    assert!(matches!(
        service.generate_report_at(store.scan(), at(3)),
        Err(PolError::ReportGenerationFailed(_))
    ));
}

#[test]
fn a_sum_beyond_the_width_of_an_amount_fails_the_report() {
    let storage = Storage::new(Ok(())).unwrap();
    let mut service = PolService::new(7, 10, storage);
    let mut store = MemStore::new();
    store.apply_all(service.initialize_at(Ok(None), at(0)).unwrap());
    let op = service.record_mint_proof_at(store.epoch(0), proof_named("a", u64::MAX), u64::MAX, at(1));
    store.apply(op.unwrap());
    let report = service.generate_report_at(store.scan(), at(2)).unwrap();
    assert_eq!(report.total_outstanding_balance, u64::MAX);

    // One more unit in the same epoch does not fit.
    let op = service.record_mint_proof_at(store.epoch(0), proof_named("b", 1), 1, at(1));
    let mut over = MemStore::new();
    over.epochs = store.epochs.clone();
    over.apply(op.unwrap());
    assert!(matches!(
        service.generate_report_at(over.scan(), at(2)),
        Err(PolError::ReportGenerationFailed(_))
    ));

    // Nor does one more unit in the next epoch.
    let (_, ops) = service.rotate_epoch_at(store.epoch(service.current_epoch()), at(3)).unwrap();
    store.apply_all(ops);
    service.rotated(Ok(())).unwrap();
    let op = service.record_mint_proof_at(store.epoch(1), proof_named("c", 1), 1, at(4));
    store.apply(op.unwrap());
    assert!(matches!(
        service.generate_report_at(store.scan(), at(5)),
        Err(PolError::ReportGenerationFailed(_))
    ));

    // What was burned counts before the width does.
    let op = service.record_burn_proof_at(store.epoch(1), "d".to_string(), 1, at(6));
    store.apply(op.unwrap());
    let report = service.generate_report_at(store.scan(), at(7)).unwrap();
    assert_eq!(report.total_outstanding_balance, u64::MAX);
}

#[test]
fn the_clock_stamps_what_is_recorded() {
    let before = chrono::Utc::now().timestamp();
    let mut ledger = Ledger::new(7, 4);
    ledger.initialize().unwrap();
    ledger.record_burn_proof("now".to_string(), 1).unwrap();
    let report = ledger.generate_report().unwrap();
    let after = chrono::Utc::now().timestamp();
    let epoch = &report.epoch_reports[0];
    assert!(before <= epoch.start_time.secs && epoch.start_time.secs <= after);
    assert!(before <= epoch.burn_proofs[0].timestamp.secs);
    assert!(epoch.burn_proofs[0].timestamp.secs <= after);
    assert!(before <= report.timestamp.secs && report.timestamp.secs <= after);
    assert!(epoch.start_time.nanos < 1_000_000_000);
}

#[test]
fn sample_proofs_can_be_recorded_and_found() {
    let mut ledger = Ledger::new(7, 4);
    ledger.initialize().unwrap();
    let proof = create_sample_proof(vec![0u8; 8], 64);
    ledger.record_mint_proof(proof.clone(), 64).unwrap();
    assert_eq!(ledger.verify_mint_proof(0, &proof), Ok(true));
    let unseen = create_sample_proof(vec![0u8; 8], 64);
    assert_eq!(ledger.verify_mint_proof(0, &unseen), Ok(false));
}
