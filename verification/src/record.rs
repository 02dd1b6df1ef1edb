use crate::codec::{
    burn_bytes, burn_fits, get_burn, get_mint, get_timestamp, get_u64, lemma_joined_bytes,
    lemma_parse_burn,
    lemma_parse_mint, lemma_parse_timestamp, lemma_parse_u64, mint_bytes, mint_fits, parse_burn,
    parse_mint, parse_timestamp, parse_u64, put_burn, put_mint, put_timestamp, put_u64,
    timestamp_bytes, u64_bytes,
};
use crate::epoch::{EpochState, EpochView};
use crate::types::{
    burn_views, mint_views, BurnProof, BurnProofView, MintProof, MintProofView, Timestamp,
};
use vstd::prelude::*;

verus! {

/// The mint events of a record, one after the other.
pub open spec fn mints_bytes(events: Seq<MintProofView>) -> Seq<u8>
    decreases events.len(),
{
    if events.len() == 0 {
        Seq::empty()
    } else {
        mint_bytes(events[0]) + mints_bytes(events.drop_first())
    }
}

/// Reads `count` mint events from the front of `bytes`.
pub open spec fn parse_mints(bytes: Seq<u8>, count: nat) -> Option<(Seq<MintProofView>, Seq<u8>)>
    decreases count,
{
    if count == 0 {
        Some((Seq::empty(), bytes))
    } else {
        match parse_mint(bytes) {
            Some((first, rest)) => match parse_mints(rest, (count - 1) as nat) {
                Some((others, rest)) => Some((seq![first] + others, rest)),
                None => None,
            },
            None => None,
        }
    }
}

/// The burn events of a record, one after the other.
pub open spec fn burns_bytes(events: Seq<BurnProofView>) -> Seq<u8>
    decreases events.len(),
{
    if events.len() == 0 {
        Seq::empty()
    } else {
        burn_bytes(events[0]) + burns_bytes(events.drop_first())
    }
}

/// Reads `count` burn events from the front of `bytes`.
pub open spec fn parse_burns(bytes: Seq<u8>, count: nat) -> Option<(Seq<BurnProofView>, Seq<u8>)>
    decreases count,
{
    if count == 0 {
        Some((Seq::empty(), bytes))
    } else {
        match parse_burn(bytes) {
            Some((first, rest)) => match parse_burns(rest, (count - 1) as nat) {
                Some((others, rest)) => Some((seq![first] + others, rest)),
                None => None,
            },
            None => None,
        }
    }
}

/// The record of an epoch: its id, its start, the number of its mint
/// events and the events, the number of its burn events and the events.
pub open spec fn epoch_bytes(epoch: EpochView) -> Seq<u8> {
    u64_bytes(epoch.epoch_id) + timestamp_bytes(epoch.start_time) + u64_bytes(
        epoch.mint_proofs.len() as u64,
    ) + mints_bytes(epoch.mint_proofs) + u64_bytes(epoch.burn_proofs.len() as u64) + burns_bytes(
        epoch.burn_proofs,
    )
}

/// Reads an epoch from the front of `bytes`.
pub open spec fn parse_epoch(bytes: Seq<u8>) -> Option<(EpochView, Seq<u8>)> {
    match parse_u64(bytes) {
        Some((epoch_id, rest)) => match parse_timestamp(rest) {
            Some((start_time, rest)) => match parse_u64(rest) {
                Some((mints, rest)) => match parse_mints(rest, mints as nat) {
                    Some((mint_proofs, rest)) => match parse_u64(rest) {
                        Some((burns, rest)) => match parse_burns(rest, burns as nat) {
                            Some((burn_proofs, rest)) => Some(
                                (EpochView { epoch_id, start_time, mint_proofs, burn_proofs }, rest),
                            ),
                            None => None,
                        },
                        None => None,
                    },
                    None => None,
                },
                None => None,
            },
            None => None,
        },
        None => None,
    }
}

/// The epoch that a record holds: the bytes spell one epoch and nothing
/// more, and no event stands in it twice.
pub open spec fn decode(bytes: Seq<u8>) -> Option<EpochView> {
    match parse_epoch(bytes) {
        Some((epoch, rest)) => if rest.len() == 0 && epoch.wf() {
            Some(epoch)
        } else {
            None
        },
        None => None,
    }
}

/// Whether every length inside the epoch can be written as a 64-bit number.
pub open spec fn epoch_fits(epoch: EpochView) -> bool {
    &&& epoch.mint_proofs.len() <= u64::MAX
    &&& epoch.burn_proofs.len() <= u64::MAX
    &&& forall|i: int| 0 <= i < epoch.mint_proofs.len() ==> mint_fits(#[trigger] epoch.mint_proofs[i])
    &&& forall|i: int| 0 <= i < epoch.burn_proofs.len() ==> burn_fits(#[trigger] epoch.burn_proofs[i])
}

/// One more mint event adds its bytes behind those of the others.
pub proof fn lemma_mints_bytes_push(events: Seq<MintProofView>, event: MintProofView)
    ensures
        mints_bytes(events.push(event)) == mints_bytes(events) + mint_bytes(event),
    decreases events.len(),
{
    let all = events.push(event);
    if events.len() == 0 {
        assert(all.drop_first() =~= Seq::empty());
        assert(mints_bytes(all.drop_first()) =~= Seq::empty());
        assert(mints_bytes(events) =~= Seq::empty());
        assert(mints_bytes(all) =~= mints_bytes(events) + mint_bytes(event));
    } else {
        lemma_mints_bytes_push(events.drop_first(), event);
        assert(all.drop_first() =~= events.drop_first().push(event));
        assert(mints_bytes(all) =~= mints_bytes(events) + mint_bytes(event));
    }
}

/// One more burn event adds its bytes behind those of the others.
pub proof fn lemma_burns_bytes_push(events: Seq<BurnProofView>, event: BurnProofView)
    ensures
        burns_bytes(events.push(event)) == burns_bytes(events) + burn_bytes(event),
    decreases events.len(),
{
    let all = events.push(event);
    if events.len() == 0 {
        assert(all.drop_first() =~= Seq::empty());
        assert(burns_bytes(all.drop_first()) =~= Seq::empty());
        assert(burns_bytes(events) =~= Seq::empty());
        assert(burns_bytes(all) =~= burns_bytes(events) + burn_bytes(event));
    } else {
        lemma_burns_bytes_push(events.drop_first(), event);
        assert(all.drop_first() =~= events.drop_first().push(event));
        assert(burns_bytes(all) =~= burns_bytes(events) + burn_bytes(event));
    }
}

/// A run of mint events is read back from its bytes, whatever follows
/// them.
pub proof fn lemma_parse_mints(events: Seq<MintProofView>, rest: Seq<u8>)
    requires
        forall|i: int| 0 <= i < events.len() ==> mint_fits(#[trigger] events[i]),
    ensures
        parse_mints(mints_bytes(events) + rest, events.len()) == Some((events, rest)),
    decreases events.len(),
{
    if events.len() == 0 {
        assert(mints_bytes(events) + rest =~= rest);
    } else {
        let others = events.drop_first();
        assert forall|i: int| 0 <= i < others.len() implies mint_fits(#[trigger] others[i]) by {
            assert(others[i] == events[i + 1]);
        }
        lemma_parse_mint(events[0], mints_bytes(others) + rest);
        lemma_parse_mints(others, rest);
        assert(mints_bytes(events) + rest =~= mint_bytes(events[0]) + (mints_bytes(others) + rest));
        assert(seq![events[0]] + others =~= events);
    }
}

/// A run of burn events is read back from its bytes, whatever follows
/// them.
pub proof fn lemma_parse_burns(events: Seq<BurnProofView>, rest: Seq<u8>)
    requires
        forall|i: int| 0 <= i < events.len() ==> burn_fits(#[trigger] events[i]),
    ensures
        parse_burns(burns_bytes(events) + rest, events.len()) == Some((events, rest)),
    decreases events.len(),
{
    if events.len() == 0 {
        assert(burns_bytes(events) + rest =~= rest);
    } else {
        let others = events.drop_first();
        assert forall|i: int| 0 <= i < others.len() implies burn_fits(#[trigger] others[i]) by {
            assert(others[i] == events[i + 1]);
        }
        lemma_parse_burn(events[0], burns_bytes(others) + rest);
        lemma_parse_burns(others, rest);
        assert(burns_bytes(events) + rest =~= burn_bytes(events[0]) + (burns_bytes(others) + rest));
        assert(seq![events[0]] + others =~= events);
    }
}

/// An epoch is read back from its bytes, whatever follows them.
pub proof fn lemma_parse_epoch(epoch: EpochView, rest: Seq<u8>)
    requires
        epoch_fits(epoch),
    ensures
        parse_epoch(epoch_bytes(epoch) + rest) == Some((epoch, rest)),
{
    let mints = epoch.mint_proofs.len() as u64;
    let burns = epoch.burn_proofs.len() as u64;
    let id_part = u64_bytes(epoch.epoch_id);
    let start_part = timestamp_bytes(epoch.start_time);
    let mints_part = mints_bytes(epoch.mint_proofs);
    let burns_part = burns_bytes(epoch.burn_proofs);
    let after_burns = burns_part + rest;
    let after_mints = u64_bytes(burns) + after_burns;
    let after_count = mints_part + after_mints;
    let after_start = u64_bytes(mints) + after_count;
    let after_id = start_part + after_start;
    assert(epoch_bytes(epoch) + rest == id_part + after_id) by {
        lemma_joined_bytes(id_part + start_part + u64_bytes(mints) + mints_part + u64_bytes(burns), burns_part, rest);
        lemma_joined_bytes(id_part + start_part + u64_bytes(mints) + mints_part, u64_bytes(burns), after_burns);
        lemma_joined_bytes(id_part + start_part + u64_bytes(mints), mints_part, after_mints);
        lemma_joined_bytes(id_part + start_part, u64_bytes(mints), after_count);
        lemma_joined_bytes(id_part, start_part, after_start);
    }
    assert(parse_u64(id_part + after_id) == Some((epoch.epoch_id, after_id))) by {
        lemma_parse_u64(epoch.epoch_id, after_id);
    }
    assert(parse_timestamp(after_id) == Some((epoch.start_time, after_start))) by {
        lemma_parse_timestamp(epoch.start_time, after_start);
    }
    assert(parse_u64(after_start) == Some((mints, after_count))) by {
        lemma_parse_u64(mints, after_count);
    }
    assert(parse_mints(after_count, mints as nat) == Some((epoch.mint_proofs, after_mints))) by {
        lemma_parse_mints(epoch.mint_proofs, after_mints);
    }
    assert(parse_u64(after_mints) == Some((burns, after_burns))) by {
        lemma_parse_u64(burns, after_burns);
    }
    assert(parse_burns(after_burns, burns as nat) == Some((epoch.burn_proofs, rest))) by {
        lemma_parse_burns(epoch.burn_proofs, rest);
    }
}

/// Writing an epoch and reading the record again gives the epoch back,
/// event for event: nothing is lost, added or moved.
pub proof fn lemma_round_trip(epoch: EpochView)
    requires
        epoch.wf(),
        epoch_fits(epoch),
    ensures
        decode(epoch_bytes(epoch)) == Some(epoch),
{
    lemma_parse_epoch(epoch, Seq::empty());
    assert(epoch_bytes(epoch) + Seq::<u8>::empty() =~= epoch_bytes(epoch));
}

/// What was read so far, followed by what the rest of the record gives.
pub open spec fn mints_then(
    done: Seq<MintProofView>,
    more: Option<(Seq<MintProofView>, Seq<u8>)>,
) -> Option<(Seq<MintProofView>, Seq<u8>)> {
    match more {
        Some((others, rest)) => Some((done + others, rest)),
        None => None,
    }
}

/// What was read so far, followed by what the rest of the record gives.
pub open spec fn burns_then(
    done: Seq<BurnProofView>,
    more: Option<(Seq<BurnProofView>, Seq<u8>)>,
) -> Option<(Seq<BurnProofView>, Seq<u8>)> {
    match more {
        Some((others, rest)) => Some((done + others, rest)),
        None => None,
    }
}

/// Reads `count` mint events at `at`.
pub(crate) fn get_mints(bytes: &[u8], at: usize, count: u64) -> (read: Option<(Vec<MintProof>, usize)>)
    requires
        at <= bytes@.len(),
    ensures
        match parse_mints(bytes@.skip(at as int), count as nat) {
            Some((value, rest)) => read matches Some((got, next)) && mint_views(got@) == value
                && at <= next <= bytes@.len() && rest == bytes@.skip(next as int),
            None => read is None,
        },
{
    let ghost whole = parse_mints(bytes@.skip(at as int), count as nat);
    let mut events: Vec<MintProof> = Vec::new();
    let mut next: usize = at;
    let mut i: u64 = 0;
    assert(mints_then(mint_views(events@), whole) == whole) by {
        if let Some((others, rest)) = whole {
            assert(mint_views(events@) + others =~= others);
        }
    }
    while i < count
        invariant
            i <= count,
            at <= next <= bytes@.len(),
            whole == parse_mints(bytes@.skip(at as int), count as nat),
            whole == mints_then(
                mint_views(events@),
                parse_mints(bytes@.skip(next as int), (count - i) as nat),
            ),
        decreases count - i,
    {
        let ghost done = mint_views(events@);
        let (event, after) = match get_mint(bytes, next) {
            Some(read) => read,
            None => {
                return None;
            },
        };
        proof {
            let later = parse_mints(bytes@.skip(after as int), (count - i - 1) as nat);
            assert(mint_views(events@.push(event)) =~= done.push(event@));
            if let Some((others, rest)) = later {
                assert(done + (seq![event@] + others) =~= done.push(event@) + others);
            }
        }
        events.push(event);
        next = after;
        i += 1;
    }
    assert(mint_views(events@) + Seq::<MintProofView>::empty() =~= mint_views(events@));
    Some((events, next))
}

/// Reads `count` burn events at `at`.
pub(crate) fn get_burns(bytes: &[u8], at: usize, count: u64) -> (read: Option<(Vec<BurnProof>, usize)>)
    requires
        at <= bytes@.len(),
    ensures
        match parse_burns(bytes@.skip(at as int), count as nat) {
            Some((value, rest)) => read matches Some((got, next)) && burn_views(got@) == value
                && at <= next <= bytes@.len() && rest == bytes@.skip(next as int),
            None => read is None,
        },
{
    let ghost whole = parse_burns(bytes@.skip(at as int), count as nat);
    let mut events: Vec<BurnProof> = Vec::new();
    let mut next: usize = at;
    let mut i: u64 = 0;
    assert(burns_then(burn_views(events@), whole) == whole) by {
        if let Some((others, rest)) = whole {
            assert(burn_views(events@) + others =~= others);
        }
    }
    while i < count
        invariant
            i <= count,
            at <= next <= bytes@.len(),
            whole == parse_burns(bytes@.skip(at as int), count as nat),
            whole == burns_then(
                burn_views(events@),
                parse_burns(bytes@.skip(next as int), (count - i) as nat),
            ),
        decreases count - i,
    {
        let ghost done = burn_views(events@);
        let (event, after) = match get_burn(bytes, next) {
            Some(read) => read,
            None => {
                return None;
            },
        };
        proof {
            let later = parse_burns(bytes@.skip(after as int), (count - i - 1) as nat);
            assert(burn_views(events@.push(event)) =~= done.push(event@));
            if let Some((others, rest)) = later {
                assert(done + (seq![event@] + others) =~= done.push(event@) + others);
            }
        }
        events.push(event);
        next = after;
        i += 1;
    }
    assert(burn_views(events@) + Seq::<BurnProofView>::empty() =~= burn_views(events@));
    Some((events, next))
}

/// The record of `epoch`. Reading it again gives the epoch back.
pub fn encode_epoch(epoch: &EpochState) -> (bytes: Vec<u8>)
    ensures
        bytes@ == epoch_bytes(epoch@),
        decode(bytes@) == Some(epoch@),
{
    let mints = epoch.mint_proofs();
    let burns = epoch.burn_proofs();
    let ghost mint_events = mint_views(mints@);
    let ghost burn_events = burn_views(burns@);
    let mut bytes: Vec<u8> = Vec::new();
    put_u64(&mut bytes, epoch.epoch_id());
    put_timestamp(&mut bytes, epoch.start_time());
    put_u64(&mut bytes, mints.len() as u64);
    let ghost head = bytes@;
    let mut i: usize = 0;
    assert(mints_bytes(mint_events.subrange(0, 0)) =~= Seq::empty());
    assert(head + Seq::<u8>::empty() =~= head);
    while i < mints.len()
        invariant
            i <= mints.len(),
            mint_events == mint_views(mints@),
            bytes@ == head + mints_bytes(mint_events.subrange(0, i as int)),
            forall|j: int| 0 <= j < i ==> mint_fits(#[trigger] mint_events[j]),
        decreases mints.len() - i,
    {
        put_mint(&mut bytes, &mints[i]);
        proof {
            let done = mint_events.subrange(0, i as int);
            lemma_mints_bytes_push(done, mint_events[i as int]);
            assert(mint_events.subrange(0, i + 1) =~= done.push(mint_events[i as int]));
            lemma_joined_bytes(head, mints_bytes(done), mint_bytes(mint_events[i as int]));
        }
        i += 1;
    }
    assert(mint_events.subrange(0, mints.len() as int) =~= mint_events);
    put_u64(&mut bytes, burns.len() as u64);
    let ghost head = bytes@;
    let mut i: usize = 0;
    assert(burns_bytes(burn_events.subrange(0, 0)) =~= Seq::empty());
    assert(head + Seq::<u8>::empty() =~= head);
    while i < burns.len()
        invariant
            i <= burns.len(),
            burn_events == burn_views(burns@),
            bytes@ == head + burns_bytes(burn_events.subrange(0, i as int)),
            forall|j: int| 0 <= j < i ==> burn_fits(#[trigger] burn_events[j]),
        decreases burns.len() - i,
    {
        put_burn(&mut bytes, &burns[i]);
        proof {
            let done = burn_events.subrange(0, i as int);
            lemma_burns_bytes_push(done, burn_events[i as int]);
            assert(burn_events.subrange(0, i + 1) =~= done.push(burn_events[i as int]));
            lemma_joined_bytes(head, burns_bytes(done), burn_bytes(burn_events[i as int]));
        }
        i += 1;
    }
    assert(burn_events.subrange(0, burns.len() as int) =~= burn_events);
    proof {
        use_type_invariant(epoch);
        lemma_round_trip(epoch@);
    }
    bytes
}

/// The epoch that the record `bytes` holds, if it holds one.
pub fn decode_epoch(bytes: &[u8]) -> (epoch: Option<EpochState>)
    ensures
        match decode(bytes@) {
            Some(view) => epoch matches Some(state) && state@ == view,
            None => epoch is None,
        },
{
    assert(bytes@.skip(0) =~= bytes@);
    let (epoch_id, at) = match get_u64(bytes, 0) {
        Some(read) => read,
        None => {
            return None;
        },
    };
    let (start_time, at) = match get_timestamp(bytes, at) {
        Some(read) => read,
        None => {
            return None;
        },
    };
    let (mint_count, at) = match get_u64(bytes, at) {
        Some(read) => read,
        None => {
            return None;
        },
    };
    let (mints, at) = match get_mints(bytes, at, mint_count) {
        Some(read) => read,
        None => {
            return None;
        },
    };
    let (burn_count, at) = match get_u64(bytes, at) {
        Some(read) => read,
        None => {
            return None;
        },
    };
    let (burns, at) = match get_burns(bytes, at, burn_count) {
        Some(read) => read,
        None => {
            return None;
        },
    };
    if at != bytes.len() {
        return None;
    }
    let ghost mint_events = mint_views(mints@);
    let ghost burn_events = burn_views(burns@);
    let ghost target = EpochView {
        epoch_id,
        start_time,
        mint_proofs: mint_events,
        burn_proofs: burn_events,
    };
    assert(decode(bytes@) == if target.wf() {
        Some(target)
    } else {
        None
    });
    let mut state = EpochState::new(epoch_id, start_time);
    assert(mint_events.subrange(0, 0) =~= Seq::empty());
    for event in it: mints
        invariant
            it.seq() == mints@,
            mint_events == mint_views(mints@),
            target.mint_proofs == mint_events,
            decode(bytes@) == if target.wf() {
                Some(target)
            } else {
                None
            },
            state@ == (EpochView {
                epoch_id,
                start_time,
                mint_proofs: mint_events.subrange(0, it.index() as int),
                burn_proofs: Seq::empty(),
            }),
    {
        if state.has_mint(&event) {
            proof {
                let twin = choose|k: int|
                    0 <= k < it.index() && mint_events.subrange(0, it.index() as int)[k] == event@;
                assert(mint_events[twin] == mint_events[it.index() as int]);
            }
            return None;
        }
        proof {
            assert(mint_events.subrange(0, it.index() + 1) =~= mint_events.subrange(
                0,
                it.index() as int,
            ).push(event@));
        }
        state = state.with_mint(event);
    }
    assert(mint_events.subrange(0, mints@.len() as int) =~= mint_events);
    assert(burn_events.subrange(0, 0) =~= Seq::empty());
    for event in it: burns
        invariant
            it.seq() == burns@,
            burn_events == burn_views(burns@),
            target.burn_proofs == burn_events,
            decode(bytes@) == if target.wf() {
                Some(target)
            } else {
                None
            },
            state@ == (EpochView {
                epoch_id,
                start_time,
                mint_proofs: mint_events,
                burn_proofs: burn_events.subrange(0, it.index() as int),
            }),
    {
        if state.has_burn(&event) {
            proof {
                let twin = choose|k: int|
                    0 <= k < it.index() && burn_events.subrange(0, it.index() as int)[k] == event@;
                assert(burn_events[twin] == burn_events[it.index() as int]);
            }
            return None;
        }
        proof {
            assert(burn_events.subrange(0, it.index() + 1) =~= burn_events.subrange(
                0,
                it.index() as int,
            ).push(event@));
        }
        state = state.with_burn(event);
    }
    assert(burn_events.subrange(0, burns@.len() as int) =~= burn_events);
    proof {
        use_type_invariant(&state);
    }
    Some(state)
}

} // verus!
