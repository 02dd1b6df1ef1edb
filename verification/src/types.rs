use vstd::prelude::*;

verus! {

/// A point in time: whole seconds since the Unix epoch and the nanoseconds
/// into that second.
#[derive(Debug, Clone, Copy, PartialEq, Eq, Hash, Structural)]
pub struct Timestamp {
    pub secs: i64,
    pub nanos: u32,
}

/// An issued token. The ledger never looks inside it: it keeps every
/// field as it came and only tells two proofs apart.
#[derive(Debug, Clone, PartialEq, Eq, Hash)]
pub struct Proof {
    pub amount: u64,
    pub keyset_id: Vec<u8>,
    pub secret: String,
    /// The unblinded signature.
    pub c: Vec<u8>,
    /// The witness, where the proof carries one, as its bytes.
    pub witness: Option<Vec<u8>>,
    /// The proof of discrete-log equality, where the proof carries one, as
    /// its bytes.
    pub dleq: Option<Vec<u8>>,
    /// The ephemeral public key, where the proof carries one.
    pub p2pk_e: Option<Vec<u8>>,
}

/// What a [`Proof`] is in contracts.
pub struct ProofView {
    pub amount: u64,
    pub keyset_id: Seq<u8>,
    pub secret: Seq<char>,
    pub c: Seq<u8>,
    pub witness: Option<Seq<u8>>,
    pub dleq: Option<Seq<u8>>,
    pub p2pk_e: Option<Seq<u8>>,
}

/// The bytes of a byte string that may be absent.
pub open spec fn optional_view(bytes: Option<Vec<u8>>) -> Option<Seq<u8>> {
    match bytes {
        Some(bytes) => Some(bytes@),
        None => None,
    }
}

impl View for Proof {
    type V = ProofView;

    open spec fn view(&self) -> ProofView {
        ProofView {
            amount: self.amount,
            keyset_id: self.keyset_id@,
            secret: self.secret@,
            c: self.c@,
            witness: optional_view(self.witness),
            dleq: optional_view(self.dleq),
            p2pk_e: optional_view(self.p2pk_e),
        }
    }
}

/// A recorded issuance.
#[derive(Debug, Clone, PartialEq, Eq, Hash)]
pub struct MintProof {
    pub proof: Proof,
    pub amount: u64,
    pub timestamp: Timestamp,
}

/// What a [`MintProof`] is in contracts.
pub struct MintProofView {
    pub proof: ProofView,
    pub amount: u64,
    pub timestamp: Timestamp,
}

impl View for MintProof {
    type V = MintProofView;

    open spec fn view(&self) -> MintProofView {
        MintProofView { proof: self.proof@, amount: self.amount, timestamp: self.timestamp }
    }
}

/// A recorded redemption.
#[derive(Debug, Clone, PartialEq, Eq, Hash)]
pub struct BurnProof {
    pub secret: String,
    pub amount: u64,
    pub timestamp: Timestamp,
}

/// What a [`BurnProof`] is in contracts.
pub struct BurnProofView {
    pub secret: Seq<char>,
    pub amount: u64,
    pub timestamp: Timestamp,
}

impl View for BurnProof {
    type V = BurnProofView;

    open spec fn view(&self) -> BurnProofView {
        BurnProofView { secret: self.secret@, amount: self.amount, timestamp: self.timestamp }
    }
}

/// Whether two byte strings hold the same bytes.
pub fn same_bytes(a: &Vec<u8>, b: &Vec<u8>) -> (same: bool)
    ensures
        same == (a@ == b@),
{
    if a.len() != b.len() {
        return false;
    }
    let mut i: usize = 0;
    while i < a.len()
        invariant
            i <= a.len(),
            a.len() == b.len(),
            a@.subrange(0, i as int) == b@.subrange(0, i as int),
        decreases a.len() - i,
    {
        if a[i] != b[i] {
            assert(a@[i as int] != b@[i as int]);
            return false;
        }
        assert(a@.subrange(0, i + 1) == a@.subrange(0, i as int).push(a@[i as int]));
        assert(b@.subrange(0, i + 1) == b@.subrange(0, i as int).push(b@[i as int]));
        i += 1;
    }
    assert(a@ == a@.subrange(0, a.len() as int));
    assert(b@ == b@.subrange(0, b.len() as int));
    true
}

/// Whether two byte strings that may be absent are both absent or hold the
/// same bytes.
pub fn same_optional_bytes(a: &Option<Vec<u8>>, b: &Option<Vec<u8>>) -> (same: bool)
    ensures
        same == (optional_view(*a) == optional_view(*b)),
{
    match (a, b) {
        (Some(a), Some(b)) => same_bytes(a, b),
        (None, None) => true,
        _ => false,
    }
}

impl Proof {
    /// A proof of `amount` under the keyset `keyset_id`, with its secret and
    /// its unblinded signature `c`, and with no witness, no proof of
    /// discrete-log equality and no ephemeral key.
    pub fn new(amount: u64, keyset_id: Vec<u8>, secret: String, c: Vec<u8>) -> (proof: Proof)
        ensures
            proof@ == (ProofView {
                amount,
                keyset_id: keyset_id@,
                secret: secret@,
                c: c@,
                witness: None,
                dleq: None,
                p2pk_e: None,
            }),
    {
        Proof { amount, keyset_id, secret, c, witness: None, dleq: None, p2pk_e: None }
    }

    /// Whether `self` and `other` are the same proof: every field is the
    /// same.
    pub fn same(&self, other: &Proof) -> (same: bool)
        ensures
            same == (self@ == other@),
    {
        self.amount == other.amount && same_bytes(&self.keyset_id, &other.keyset_id)
            && self.secret == other.secret && same_bytes(&self.c, &other.c)
            && same_optional_bytes(&self.witness, &other.witness) && same_optional_bytes(
            &self.dleq,
            &other.dleq,
        ) && same_optional_bytes(&self.p2pk_e, &other.p2pk_e)
    }
}

impl MintProof {
    /// Whether `self` and `other` are the same event.
    pub fn same(&self, other: &MintProof) -> (same: bool)
        ensures
            same == (self@ == other@),
    {
        self.proof.same(&other.proof) && self.amount == other.amount && self.timestamp
            == other.timestamp
    }
}

impl BurnProof {
    /// Whether `self` and `other` are the same event.
    pub fn same(&self, other: &BurnProof) -> (same: bool)
        ensures
            same == (self@ == other@),
    {
        self.secret == other.secret && self.amount == other.amount && self.timestamp
            == other.timestamp
    }
}

/// The views of a run of mint events, in stored order.
pub open spec fn mint_views(events: Seq<MintProof>) -> Seq<MintProofView> {
    events.map_values(|m: MintProof| m@)
}

/// The views of a run of burn events, in stored order.
pub open spec fn burn_views(events: Seq<BurnProof>) -> Seq<BurnProofView> {
    events.map_values(|b: BurnProof| b@)
}

/// One epoch of a report: its events and what it still owes.
#[derive(Debug, Clone, PartialEq, Eq)]
pub struct EpochReport {
    pub epoch_id: u64,
    pub start_time: Timestamp,
    /// When the epoch ended; `None` while it is the current one.
    pub end_time: Option<Timestamp>,
    pub mint_proofs: Vec<MintProof>,
    pub burn_proofs: Vec<BurnProof>,
    pub outstanding_balance: u64,
}

/// What an [`EpochReport`] is in contracts.
pub struct EpochReportView {
    pub epoch_id: u64,
    pub start_time: Timestamp,
    pub end_time: Option<Timestamp>,
    pub mint_proofs: Seq<MintProofView>,
    pub burn_proofs: Seq<BurnProofView>,
    pub outstanding_balance: u64,
}

impl View for EpochReport {
    type V = EpochReportView;

    open spec fn view(&self) -> EpochReportView {
        EpochReportView {
            epoch_id: self.epoch_id,
            start_time: self.start_time,
            end_time: self.end_time,
            mint_proofs: mint_views(self.mint_proofs@),
            burn_proofs: burn_views(self.burn_proofs@),
            outstanding_balance: self.outstanding_balance,
        }
    }
}

/// The views of a run of epoch reports.
pub open spec fn report_views(reports: Seq<EpochReport>) -> Seq<EpochReportView> {
    reports.map_values(|r: EpochReport| r@)
}

/// The liabilities of every retained epoch and their sum.
#[derive(Debug, Clone, PartialEq, Eq)]
pub struct PolReport {
    pub epoch_reports: Vec<EpochReport>,
    pub total_outstanding_balance: u64,
    pub timestamp: Timestamp,
}

/// What a [`PolReport`] is in contracts.
pub struct PolReportView {
    pub epoch_reports: Seq<EpochReportView>,
    pub total_outstanding_balance: u64,
    pub timestamp: Timestamp,
}

impl View for PolReport {
    type V = PolReportView;

    open spec fn view(&self) -> PolReportView {
        PolReportView {
            epoch_reports: report_views(self.epoch_reports@),
            total_outstanding_balance: self.total_outstanding_balance,
            timestamp: self.timestamp,
        }
    }
}

/// How an operation of the ledger fails.
#[derive(Debug, Clone, PartialEq, Eq)]
pub enum PolError {
    InvalidEpoch(String),
    ProofVerificationFailed(String),
    ReportGenerationFailed(String),
    DatabaseError(String),
    DatabaseTransactionError(String),
    DatabaseSerializationError(String),
    DatabaseDeserializationError(String),
    DatabaseInitializationError(String),
    EpochNotFound(u64),
    InvalidProof(String),
    InvalidAmount(String),
}

} // verus!
