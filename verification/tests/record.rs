use cashu_pol::record::{decode_epoch, encode_epoch};
use cashu_pol::{BurnProof, EpochState, MintProof, Proof, Timestamp};

fn sample_epoch() -> EpochState {
    let epoch = EpochState::new(3, Timestamp { secs: -5, nanos: 999_999_999 });
    let epoch = epoch.with_mint(MintProof {
        proof: Proof::new(8, vec![0, 1, 2, 3, 4, 5, 6, 7], "søcret ✓".to_string(), vec![2u8; 33]),
        amount: 8,
        timestamp: Timestamp { secs: i64::MAX, nanos: 0 },
    });
    let mut carrying = Proof::new(u64::MAX, vec![], String::new(), vec![]);
    carrying.witness = Some(b"{\"signatures\":[\"ab\"]}".to_vec());
    carrying.dleq = Some(vec![]);
    carrying.p2pk_e = Some(vec![3u8; 33]);
    let epoch = epoch.with_mint(MintProof {
        proof: carrying,
        amount: u64::MAX,
        timestamp: Timestamp { secs: i64::MIN, nanos: u32::MAX },
    });
    epoch.with_burn(BurnProof {
        secret: "burned \u{1F525}".to_string(),
        amount: 77,
        timestamp: Timestamp { secs: 1_700_000_000, nanos: 1 },
    })
}

#[test]
fn a_record_gives_its_epoch_back() {
    let epoch = sample_epoch();
    let bytes = encode_epoch(&epoch);
    let back = decode_epoch(&bytes).unwrap();
    assert_eq!(back, epoch);
    assert_eq!(back.epoch_id(), 3);
    assert_eq!(back.start_time(), Timestamp { secs: -5, nanos: 999_999_999 });
    assert_eq!(back.mint_proofs().len(), 2);
    assert_eq!(back.mint_proofs()[0].proof.secret, "søcret ✓");
    assert_eq!(back.mint_proofs()[1].timestamp, Timestamp { secs: i64::MIN, nanos: u32::MAX });
    assert_eq!(back.mint_proofs()[0].proof.witness, None);
    assert_eq!(
        back.mint_proofs()[1].proof.witness,
        Some(b"{\"signatures\":[\"ab\"]}".to_vec())
    );
    assert_eq!(back.mint_proofs()[1].proof.dleq, Some(vec![]));
    assert_eq!(back.mint_proofs()[1].proof.p2pk_e, Some(vec![3u8; 33]));
    assert_eq!(back.burn_proofs().len(), 1);
    assert_eq!(back.burn_proofs()[0].secret, "burned \u{1F525}");
    // Writing what was read gives the same bytes.
    assert_eq!(encode_epoch(&back), bytes);
}

#[test]
fn the_empty_epoch_gives_itself_back() {
    let epoch = EpochState::new(0, Timestamp { secs: 0, nanos: 0 });
    let bytes = encode_epoch(&epoch);
    assert_eq!(bytes.len(), 8 + 12 + 8 + 8);
    assert_eq!(decode_epoch(&bytes), Some(epoch));
}

#[test]
fn a_burn_event_is_written_field_by_field() {
    let epoch = EpochState::new(1, Timestamp { secs: 2, nanos: 3 }).with_burn(BurnProof {
        secret: "ab".to_string(),
        amount: 0x0102,
        timestamp: Timestamp { secs: -1, nanos: 4 },
    });
    assert_eq!(
        encode_epoch(&epoch),
        vec![
            1, 0, 0, 0, 0, 0, 0, 0, // the id
            2, 0, 0, 0, 0, 0, 0, 0x80, 3, 0, 0, 0, // the start
            0, 0, 0, 0, 0, 0, 0, 0, // no mint event
            1, 0, 0, 0, 0, 0, 0, 0, // one burn event
            2, 0, 0, 0, 0, 0, 0, 0, b'a', b'b', // its secret
            2, 1, 0, 0, 0, 0, 0, 0, // its amount
            0xff, 0xff, 0xff, 0xff, 0xff, 0xff, 0xff, 0x7f, 4, 0, 0, 0, // its time
        ]
    );
}

#[test]
fn a_record_cut_short_holds_no_epoch() {
    let bytes = encode_epoch(&sample_epoch());
    for len in 0..bytes.len() {
        assert_eq!(decode_epoch(&bytes[..len]), None, "cut to {} bytes", len);
    }
}

#[test]
fn bytes_behind_the_epoch_are_refused() {
    let mut bytes = encode_epoch(&sample_epoch());
    bytes.push(0);
    assert_eq!(decode_epoch(&bytes), None);
}

#[test]
fn an_event_that_stands_twice_is_refused() {
    let burn = BurnProof {
        secret: "twice".to_string(),
        amount: 1,
        timestamp: Timestamp { secs: 1, nanos: 1 },
    };
    let once = encode_epoch(&EpochState::new(0, Timestamp { secs: 0, nanos: 0 }).with_burn(burn));
    // The head is the id, the start and the two counts; the event follows.
    let head = 8 + 12 + 8 + 8;
    let event = once[head..].to_vec();
    let mut twice = once.clone();
    twice[head - 8] = 2;
    twice.extend_from_slice(&event);
    assert_eq!(decode_epoch(&twice), None);
    // With another amount the second is another event.
    let at = twice.len() - event.len() + 8 + 5;
    twice[at] = 9;
    let epoch = decode_epoch(&twice).unwrap();
    assert_eq!(epoch.burn_proofs().len(), 2);
    assert_eq!(epoch.burn_proofs()[1].amount, 9);
}

#[test]
fn a_secret_that_is_no_text_is_refused() {
    let burn = BurnProof {
        secret: "ok".to_string(),
        amount: 1,
        timestamp: Timestamp { secs: 1, nanos: 1 },
    };
    let mut bytes =
        encode_epoch(&EpochState::new(0, Timestamp { secs: 0, nanos: 0 }).with_burn(burn));
    let head = 8 + 12 + 8 + 8;
    assert!(decode_epoch(&bytes).is_some());
    bytes[head + 8] = 0xff;
    assert_eq!(decode_epoch(&bytes), None);
    // A length that runs past the end.
    bytes[head + 8] = b'o';
    bytes[head] = 200;
    assert_eq!(decode_epoch(&bytes), None);
    // A count of events that are not there.
    bytes[head] = 2;
    bytes[head - 8] = 3;
    assert_eq!(decode_epoch(&bytes), None);
}

#[test]
fn a_mint_event_is_written_field_by_field() {
    let mut proof = Proof::new(5, vec![9], "s".to_string(), vec![2, 2]);
    proof.dleq = Some(vec![7]);
    let epoch = EpochState::new(0, Timestamp { secs: 0, nanos: 0 }).with_mint(MintProof {
        proof,
        amount: 6,
        timestamp: Timestamp { secs: 0, nanos: 1 },
    });
    assert_eq!(
        encode_epoch(&epoch),
        vec![
            0, 0, 0, 0, 0, 0, 0, 0, // the id
            0, 0, 0, 0, 0, 0, 0, 0x80, 0, 0, 0, 0, // the start
            1, 0, 0, 0, 0, 0, 0, 0, // one mint event
            5, 0, 0, 0, 0, 0, 0, 0, // the amount of its proof
            1, 0, 0, 0, 0, 0, 0, 0, 9, // the keyset id
            1, 0, 0, 0, 0, 0, 0, 0, b's', // the secret
            2, 0, 0, 0, 0, 0, 0, 0, 2, 2, // the signature
            0, // no witness
            1, 1, 0, 0, 0, 0, 0, 0, 0, 7, // the proof of discrete-log equality
            0, // no ephemeral key
            6, 0, 0, 0, 0, 0, 0, 0, // its amount
            0, 0, 0, 0, 0, 0, 0, 0x80, 1, 0, 0, 0, // its time
            0, 0, 0, 0, 0, 0, 0, 0, // no burn event
        ]
    );
}

#[test]
fn a_mark_that_is_neither_there_nor_absent_is_refused() {
    let epoch = EpochState::new(0, Timestamp { secs: 0, nanos: 0 }).with_mint(MintProof {
        proof: Proof::new(5, vec![9], "s".to_string(), vec![2, 2]),
        amount: 6,
        timestamp: Timestamp { secs: 0, nanos: 1 },
    });
    let mut bytes = encode_epoch(&epoch);
    let witness_mark = 8 + 12 + 8 + 8 + 9 + 9 + 10;
    assert_eq!(bytes[witness_mark], 0);
    assert!(decode_epoch(&bytes).is_some());
    bytes[witness_mark] = 2;
    assert_eq!(decode_epoch(&bytes), None);
}
