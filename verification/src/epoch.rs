use crate::types::{
    burn_views, mint_views, BurnProof, BurnProofView, MintProof, MintProofView, Proof, ProofView,
    Timestamp,
};
use vstd::prelude::*;
use vstd::set::fold::*;

verus! {

/// The sum of the amounts of a set of mint events.
pub open spec fn minted(events: Set<MintProofView>) -> nat {
    events.fold(0nat, |sum: nat, m: MintProofView| sum + m.amount as nat)
}

/// The sum of the amounts of a set of burn events.
pub open spec fn burned(events: Set<BurnProofView>) -> nat {
    events.fold(0nat, |sum: nat, b: BurnProofView| sum + b.amount as nat)
}

/// What is still owed when `minted` was issued and `burned` redeemed: the
/// difference, and nothing where more was redeemed than issued.
pub open spec fn outstanding(minted: nat, burned: nat) -> nat {
    if minted >= burned {
        (minted - burned) as nat
    } else {
        0
    }
}

/// Nothing was minted where there is no event.
pub proof fn lemma_minted_none()
    ensures
        minted(Seq::<MintProofView>::empty().to_set()) == 0,
{
    assert(Seq::<MintProofView>::empty().to_set() =~= Set::empty());
    lemma_fold_empty(0nat, |sum: nat, m: MintProofView| sum + m.amount as nat);
}

/// One more mint event adds its amount.
pub proof fn lemma_minted_push(events: Seq<MintProofView>, event: MintProofView)
    requires
        !events.contains(event),
    ensures
        minted(events.push(event).to_set()) == minted(events.to_set()) + event.amount,
{
    let f = |sum: nat, m: MintProofView| sum + m.amount as nat;
    assert(is_fun_commutative(f));
    vstd::seq_lib::seq_to_set_is_finite(events);
    events.lemma_push_to_set_commute(event);
    lemma_fold_insert(events.to_set(), 0nat, f, event);
}

/// Nothing was burned where there is no event.
pub proof fn lemma_burned_none()
    ensures
        burned(Seq::<BurnProofView>::empty().to_set()) == 0,
{
    assert(Seq::<BurnProofView>::empty().to_set() =~= Set::empty());
    lemma_fold_empty(0nat, |sum: nat, b: BurnProofView| sum + b.amount as nat);
}

/// One more burn event adds its amount.
pub proof fn lemma_burned_push(events: Seq<BurnProofView>, event: BurnProofView)
    requires
        !events.contains(event),
    ensures
        burned(events.push(event).to_set()) == burned(events.to_set()) + event.amount,
{
    let f = |sum: nat, b: BurnProofView| sum + b.amount as nat;
    assert(is_fun_commutative(f));
    vstd::seq_lib::seq_to_set_is_finite(events);
    events.lemma_push_to_set_commute(event);
    lemma_fold_insert(events.to_set(), 0nat, f, event);
}

/// What an [`EpochState`] is in contracts. The events are kept in the order
/// in which they are stored; the ledger reads them as sets.
pub struct EpochView {
    pub epoch_id: u64,
    pub start_time: Timestamp,
    pub mint_proofs: Seq<MintProofView>,
    pub burn_proofs: Seq<BurnProofView>,
}

impl EpochView {
    /// No event is stored twice.
    pub open spec fn wf(self) -> bool {
        self.mint_proofs.no_duplicates() && self.burn_proofs.no_duplicates()
    }

    /// A new epoch: no event yet.
    pub open spec fn empty(epoch_id: u64, start_time: Timestamp) -> EpochView {
        EpochView { epoch_id, start_time, mint_proofs: Seq::empty(), burn_proofs: Seq::empty() }
    }

    /// The mint events of the epoch.
    pub open spec fn mints(self) -> Set<MintProofView> {
        self.mint_proofs.to_set()
    }

    /// The burn events of the epoch.
    pub open spec fn burns(self) -> Set<BurnProofView> {
        self.burn_proofs.to_set()
    }

    /// The epoch after `event` was recorded. An event that is already there
    /// leaves the epoch as it is.
    pub open spec fn with_mint(self, event: MintProofView) -> EpochView {
        if self.mint_proofs.contains(event) {
            self
        } else {
            EpochView { mint_proofs: self.mint_proofs.push(event), ..self }
        }
    }

    /// The epoch after `event` was recorded. An event that is already there
    /// leaves the epoch as it is.
    pub open spec fn with_burn(self, event: BurnProofView) -> EpochView {
        if self.burn_proofs.contains(event) {
            self
        } else {
            EpochView { burn_proofs: self.burn_proofs.push(event), ..self }
        }
    }

    /// Whether a mint event of the epoch carries `proof`.
    pub open spec fn minted_with(self, proof: ProofView) -> bool {
        exists|i: int|
            0 <= i < self.mint_proofs.len() && (#[trigger] self.mint_proofs[i]).proof == proof
    }

    /// Whether a burn event of the epoch carries `secret`.
    pub open spec fn burned_with(self, secret: Seq<char>) -> bool {
        exists|i: int|
            0 <= i < self.burn_proofs.len() && (#[trigger] self.burn_proofs[i]).secret == secret
    }

    /// The sum of all amounts minted in the epoch.
    pub open spec fn total_minted(self) -> nat {
        minted(self.mints())
    }

    /// The sum of all amounts burned in the epoch.
    pub open spec fn total_burned(self) -> nat {
        burned(self.burns())
    }

    /// What the epoch still owes.
    pub open spec fn balance(self) -> nat {
        outstanding(self.total_minted(), self.total_burned())
    }
}

/// One call that records an event: a mint or a burn.
pub enum ProofEvent {
    Mint(MintProofView),
    Burn(BurnProofView),
}

impl EpochView {
    /// The epoch after `event` was recorded.
    pub open spec fn record(self, event: ProofEvent) -> EpochView {
        match event {
            ProofEvent::Mint(mint) => self.with_mint(mint),
            ProofEvent::Burn(burn) => self.with_burn(burn),
        }
    }

    /// The epoch after the `events` were recorded, one after the other.
    pub open spec fn record_all(self, events: Seq<ProofEvent>) -> EpochView
        decreases events.len(),
    {
        if events.len() == 0 {
            self
        } else {
            self.record(events[0]).record_all(events.drop_first())
        }
    }
}

/// Recording an event adds it to the events of its kind and leaves the
/// others alone; each event still stands there once.
pub proof fn lemma_record(epoch: EpochView, event: ProofEvent)
    requires
        epoch.wf(),
    ensures
        epoch.record(event).wf(),
        epoch.record(event).epoch_id == epoch.epoch_id,
        epoch.record(event).start_time == epoch.start_time,
        match event {
            ProofEvent::Mint(mint) => {
                &&& epoch.record(event).mints() == epoch.mints().insert(mint)
                &&& epoch.record(event).burns() == epoch.burns()
            },
            ProofEvent::Burn(burn) => {
                &&& epoch.record(event).mints() == epoch.mints()
                &&& epoch.record(event).burns() == epoch.burns().insert(burn)
            },
        },
{
    match event {
        ProofEvent::Mint(mint) => {
            if epoch.mint_proofs.contains(mint) {
                assert(epoch.mints().insert(mint) =~= epoch.mints());
            } else {
                epoch.mint_proofs.lemma_push_to_set_commute(mint);
            }
        },
        ProofEvent::Burn(burn) => {
            if epoch.burn_proofs.contains(burn) {
                assert(epoch.burns().insert(burn) =~= epoch.burns());
            } else {
                epoch.burn_proofs.lemma_push_to_set_commute(burn);
            }
        },
    }
}

/// After a run of calls the epoch holds what it held before and every
/// event that a call recorded, whatever the order of the calls.
pub proof fn lemma_record_all(epoch: EpochView, events: Seq<ProofEvent>)
    requires
        epoch.wf(),
    ensures
        epoch.record_all(events).wf(),
        epoch.record_all(events).epoch_id == epoch.epoch_id,
        epoch.record_all(events).start_time == epoch.start_time,
        forall|mint: MintProofView|
            #![trigger epoch.record_all(events).mints().contains(mint)]
            epoch.record_all(events).mints().contains(mint) <==> epoch.mints().contains(mint)
                || events.contains(ProofEvent::Mint(mint)),
        forall|burn: BurnProofView|
            #![trigger epoch.record_all(events).burns().contains(burn)]
            epoch.record_all(events).burns().contains(burn) <==> epoch.burns().contains(burn)
                || events.contains(ProofEvent::Burn(burn)),
    decreases events.len(),
{
    if events.len() > 0 {
        let next = epoch.record(events[0]);
        let others = events.drop_first();
        lemma_record(epoch, events[0]);
        lemma_record_all(next, others);
        assert forall|event: ProofEvent| events.contains(event) <==> event == events[0]
            || others.contains(event) by {
            if events.contains(event) {
                let i = choose|i: int| 0 <= i < events.len() && events[i] == event;
                if i > 0 {
                    assert(others[i - 1] == event);
                }
            }
            if others.contains(event) {
                let i = choose|i: int| 0 <= i < others.len() && others[i] == event;
                assert(events[i + 1] == event);
            }
        }
        assert(epoch.record_all(events) == next.record_all(others));
        assert forall|mint: MintProofView|
            #![trigger epoch.record_all(events).mints().contains(mint)]
            epoch.record_all(events).mints().contains(mint) <==> epoch.mints().contains(mint)
                || events.contains(ProofEvent::Mint(mint)) by {
            assert(next.record_all(others).mints().contains(mint) <==> next.mints().contains(mint)
                || others.contains(ProofEvent::Mint(mint)));
            assert(events.contains(ProofEvent::Mint(mint)) <==> ProofEvent::Mint(mint) == events[0]
                || others.contains(ProofEvent::Mint(mint)));
        }
        assert forall|burn: BurnProofView|
            #![trigger epoch.record_all(events).burns().contains(burn)]
            epoch.record_all(events).burns().contains(burn) <==> epoch.burns().contains(burn)
                || events.contains(ProofEvent::Burn(burn)) by {
            assert(next.record_all(others).burns().contains(burn) <==> next.burns().contains(burn)
                || others.contains(ProofEvent::Burn(burn)));
            assert(events.contains(ProofEvent::Burn(burn)) <==> ProofEvent::Burn(burn) == events[0]
                || others.contains(ProofEvent::Burn(burn)));
        }
    }
}

/// The balance of an epoch is the sum of what was minted in it less the sum
/// of what was burned, and nothing where more was burned. It does not
/// depend on the order of the calls that recorded the events: two runs of
/// the same calls, in whatever order, leave the same events and so the same
/// sums and the same balance.
pub proof fn lemma_balance_ignores_order(
    epoch: EpochView,
    calls: Seq<ProofEvent>,
    reordered: Seq<ProofEvent>,
)
    requires
        epoch.wf(),
        calls.to_multiset() == reordered.to_multiset(),
    ensures
        epoch.record_all(calls).mints() == epoch.record_all(reordered).mints(),
        epoch.record_all(calls).burns() == epoch.record_all(reordered).burns(),
        epoch.record_all(calls).balance() == epoch.record_all(reordered).balance(),
        epoch.record_all(calls).balance() == outstanding(
            minted(epoch.record_all(calls).mints()),
            burned(epoch.record_all(calls).burns()),
        ),
{
    broadcast use vstd::seq_lib::group_to_multiset_ensures;

    lemma_record_all(epoch, calls);
    lemma_record_all(epoch, reordered);
    assert forall|event: ProofEvent|
        #![trigger calls.contains(event)]
        #![trigger reordered.contains(event)]
        calls.contains(event) <==> reordered.contains(event) by {
        assert(calls.contains(event) <==> calls.to_multiset().count(event) > 0);
        assert(reordered.contains(event) <==> reordered.to_multiset().count(event) > 0);
    }
    assert forall|mint: MintProofView|
        epoch.record_all(calls).mints().contains(mint) <==> epoch.record_all(
            reordered,
        ).mints().contains(mint) by {
        assert(calls.contains(ProofEvent::Mint(mint)) <==> reordered.contains(
            ProofEvent::Mint(mint),
        ));
    }
    assert forall|burn: BurnProofView|
        epoch.record_all(calls).burns().contains(burn) <==> epoch.record_all(
            reordered,
        ).burns().contains(burn) by {
        assert(calls.contains(ProofEvent::Burn(burn)) <==> reordered.contains(
            ProofEvent::Burn(burn),
        ));
    }
    assert(epoch.record_all(calls).mints() =~= epoch.record_all(reordered).mints());
    assert(epoch.record_all(calls).burns() =~= epoch.record_all(reordered).burns());
}

/// A mint event that the epoch does not hold yet raises what was minted by
/// its amount; one that it holds changes nothing.
pub proof fn lemma_minted_after(epoch: EpochView, mint: MintProofView)
    requires
        epoch.wf(),
    ensures
        epoch.mints().contains(mint) ==> epoch.with_mint(mint).total_minted()
            == epoch.total_minted(),
        !epoch.mints().contains(mint) ==> epoch.with_mint(mint).total_minted()
            == epoch.total_minted() + mint.amount,
        epoch.with_mint(mint).total_burned() == epoch.total_burned(),
{
    if !epoch.mint_proofs.contains(mint) {
        lemma_minted_push(epoch.mint_proofs, mint);
    }
}

/// A burn event that the epoch does not hold yet raises what was burned by
/// its amount; one that it holds changes nothing.
pub proof fn lemma_burned_after(epoch: EpochView, burn: BurnProofView)
    requires
        epoch.wf(),
    ensures
        epoch.burns().contains(burn) ==> epoch.with_burn(burn).total_burned()
            == epoch.total_burned(),
        !epoch.burns().contains(burn) ==> epoch.with_burn(burn).total_burned()
            == epoch.total_burned() + burn.amount,
        epoch.with_burn(burn).total_minted() == epoch.total_minted(),
{
    if !epoch.burn_proofs.contains(burn) {
        lemma_burned_push(epoch.burn_proofs, burn);
    }
}

/// The events of one accounting period. They form two sets: no event is
/// held twice. They are kept in the order in which they were recorded, so
/// that the record of an epoch is told by the epoch alone and reads back as
/// the same epoch.
#[derive(Debug, PartialEq, Eq)]
pub struct EpochState {
    epoch_id: u64,
    start_time: Timestamp,
    mint_proofs: Vec<MintProof>,
    burn_proofs: Vec<BurnProof>,
}

impl View for EpochState {
    type V = EpochView;

    closed spec fn view(&self) -> EpochView {
        EpochView {
            epoch_id: self.epoch_id,
            start_time: self.start_time,
            mint_proofs: mint_views(self.mint_proofs@),
            burn_proofs: burn_views(self.burn_proofs@),
        }
    }
}

impl EpochState {
    /// Every epoch state holds each event once.
    #[verifier::type_invariant]
    pub open spec fn inv(self) -> bool {
        self@.wf()
    }

    /// The empty epoch `epoch_id` that starts at `start_time`.
    pub fn new(epoch_id: u64, start_time: Timestamp) -> (epoch: EpochState)
        ensures
            epoch@ == EpochView::empty(epoch_id, start_time),
    {
        let mint_proofs: Vec<MintProof> = Vec::new();
        let burn_proofs: Vec<BurnProof> = Vec::new();
        assert(mint_views(mint_proofs@) =~= Seq::empty());
        assert(burn_views(burn_proofs@) =~= Seq::empty());
        EpochState { epoch_id, start_time, mint_proofs, burn_proofs }
    }

    /// The id of the epoch.
    pub fn epoch_id(&self) -> (id: u64)
        ensures
            id == self@.epoch_id,
    {
        self.epoch_id
    }

    /// When the epoch started.
    pub fn start_time(&self) -> (start: Timestamp)
        ensures
            start == self@.start_time,
    {
        self.start_time
    }

    /// The mint events, in stored order.
    pub fn mint_proofs(&self) -> (events: &Vec<MintProof>)
        ensures
            mint_views(events@) == self@.mint_proofs,
    {
        &self.mint_proofs
    }

    /// The burn events, in stored order.
    pub fn burn_proofs(&self) -> (events: &Vec<BurnProof>)
        ensures
            burn_views(events@) == self@.burn_proofs,
    {
        &self.burn_proofs
    }

    /// Whether `event` is among the mint events.
    pub fn has_mint(&self, event: &MintProof) -> (found: bool)
        ensures
            found == self@.mints().contains(event@),
    {
        let mut i: usize = 0;
        while i < self.mint_proofs.len()
            invariant
                i <= self.mint_proofs.len(),
                forall|j: int| 0 <= j < i ==> mint_views(self.mint_proofs@)[j] != event@,
            decreases self.mint_proofs.len() - i,
        {
            if self.mint_proofs[i].same(event) {
                assert(mint_views(self.mint_proofs@)[i as int] == event@);
                return true;
            }
            i += 1;
        }
        false
    }

    /// Whether `event` is among the burn events.
    pub fn has_burn(&self, event: &BurnProof) -> (found: bool)
        ensures
            found == self@.burns().contains(event@),
    {
        let mut i: usize = 0;
        while i < self.burn_proofs.len()
            invariant
                i <= self.burn_proofs.len(),
                forall|j: int| 0 <= j < i ==> burn_views(self.burn_proofs@)[j] != event@,
            decreases self.burn_proofs.len() - i,
        {
            if self.burn_proofs[i].same(event) {
                assert(burn_views(self.burn_proofs@)[i as int] == event@);
                return true;
            }
            i += 1;
        }
        false
    }

    /// Whether a mint event of the epoch carries `proof`.
    pub fn has_minted(&self, proof: &Proof) -> (found: bool)
        ensures
            found == self@.minted_with(proof@),
    {
        let mut i: usize = 0;
        while i < self.mint_proofs.len()
            invariant
                i <= self.mint_proofs.len(),
                forall|j: int|
                    0 <= j < i ==> (#[trigger] mint_views(self.mint_proofs@)[j]).proof != proof@,
            decreases self.mint_proofs.len() - i,
        {
            if self.mint_proofs[i].proof.same(proof) {
                assert(self@.mint_proofs[i as int].proof == proof@);
                return true;
            }
            i += 1;
        }
        false
    }

    /// Whether a burn event of the epoch carries `secret`.
    pub fn has_burned(&self, secret: &str) -> (found: bool)
        ensures
            found == self@.burned_with(secret@),
    {
        let wanted = secret.to_owned();
        let mut i: usize = 0;
        while i < self.burn_proofs.len()
            invariant
                i <= self.burn_proofs.len(),
                wanted@ == secret@,
                forall|j: int|
                    0 <= j < i ==> (#[trigger] burn_views(self.burn_proofs@)[j]).secret != secret@,
            decreases self.burn_proofs.len() - i,
        {
            if self.burn_proofs[i].secret == wanted {
                assert(self@.burn_proofs[i as int].secret == secret@);
                return true;
            }
            i += 1;
        }
        false
    }

    /// The epoch with `event` recorded. The events are a set: one that is
    /// already there is not recorded again.
    pub fn with_mint(self, event: MintProof) -> (epoch: EpochState)
        ensures
            epoch@ == self@.with_mint(event@),
    {
        if self.has_mint(&event) {
            return self;
        }
        proof {
            use_type_invariant(&self);
            assert(mint_views(self.mint_proofs@.push(event)) == mint_views(self.mint_proofs@).push(
                event@,
            ));
        }
        let EpochState { epoch_id, start_time, mut mint_proofs, burn_proofs } = self;
        mint_proofs.push(event);
        EpochState { epoch_id, start_time, mint_proofs, burn_proofs }
    }

    /// The epoch with `event` recorded. The events are a set: one that is
    /// already there is not recorded again.
    pub fn with_burn(self, event: BurnProof) -> (epoch: EpochState)
        ensures
            epoch@ == self@.with_burn(event@),
    {
        if self.has_burn(&event) {
            return self;
        }
        proof {
            use_type_invariant(&self);
            assert(burn_views(self.burn_proofs@.push(event)) == burn_views(self.burn_proofs@).push(
                event@,
            ));
        }
        let EpochState { epoch_id, start_time, mint_proofs, mut burn_proofs } = self;
        burn_proofs.push(event);
        EpochState { epoch_id, start_time, mint_proofs, burn_proofs }
    }

    /// The sum of the amounts minted in the epoch.
    pub fn total_minted(&self) -> (total: u128)
        ensures
            total == self@.total_minted(),
    {
        proof {
            use_type_invariant(self);
            lemma_minted_none();
        }
        let ghost events = mint_views(self.mint_proofs@);
        let mut total: u128 = 0;
        let mut i: usize = 0;
        assert(events.subrange(0, 0) =~= Seq::empty());
        while i < self.mint_proofs.len()
            invariant
                i <= self.mint_proofs.len(),
                events == mint_views(self.mint_proofs@),
                events.no_duplicates(),
                total == minted(events.subrange(0, i as int).to_set()),
                total <= i * 0xffff_ffff_ffff_ffff,
            decreases self.mint_proofs.len() - i,
        {
            proof {
                let seen = events.subrange(0, i as int);
                assert(events.subrange(0, i + 1) =~= seen.push(events[i as int]));
                assert(!seen.contains(events[i as int]));
                lemma_minted_push(seen, events[i as int]);
            }
            total = total + self.mint_proofs[i].amount as u128;
            i += 1;
        }
        assert(events.subrange(0, i as int) =~= events);
        total
    }

    /// The sum of the amounts burned in the epoch.
    pub fn total_burned(&self) -> (total: u128)
        ensures
            total == self@.total_burned(),
    {
        proof {
            use_type_invariant(self);
            lemma_burned_none();
        }
        let ghost events = burn_views(self.burn_proofs@);
        let mut total: u128 = 0;
        let mut i: usize = 0;
        assert(events.subrange(0, 0) =~= Seq::empty());
        while i < self.burn_proofs.len()
            invariant
                i <= self.burn_proofs.len(),
                events == burn_views(self.burn_proofs@),
                events.no_duplicates(),
                total == burned(events.subrange(0, i as int).to_set()),
                total <= i * 0xffff_ffff_ffff_ffff,
            decreases self.burn_proofs.len() - i,
        {
            proof {
                let seen = events.subrange(0, i as int);
                assert(events.subrange(0, i + 1) =~= seen.push(events[i as int]));
                assert(!seen.contains(events[i as int]));
                lemma_burned_push(seen, events[i as int]);
            }
            total = total + self.burn_proofs[i].amount as u128;
            i += 1;
        }
        assert(events.subrange(0, i as int) =~= events);
        total
    }

    /// What the epoch still owes, where that fits the width of an amount.
    pub fn outstanding_balance(&self) -> (balance: Option<u64>)
        ensures
            self@.balance() <= u64::MAX ==> balance == Some(self@.balance() as u64),
            self@.balance() > u64::MAX ==> balance is None,
    {
        let minted = self.total_minted();
        let burned = self.total_burned();
        let owed: u128 = if minted >= burned {
            minted - burned
        } else {
            0
        };
        if owed <= u64::MAX as u128 {
            Some(owed as u64)
        } else {
            None
        }
    }

    /// Gives up the events of the epoch, in stored order.
    pub fn into_events(self) -> (events: (Vec<MintProof>, Vec<BurnProof>))
        ensures
            mint_views(events.0@) == self@.mint_proofs,
            burn_views(events.1@) == self@.burn_proofs,
    {
        let EpochState { epoch_id: _, start_time: _, mint_proofs, burn_proofs } = self;
        (mint_proofs, burn_proofs)
    }
}

} // verus!
