use cashu_pol::{BurnProof, EpochState, MintProof, Proof, Timestamp};

fn mint(secret: &str, amount: u64, secs: i64) -> MintProof {
    MintProof {
        proof: Proof::new(amount, vec![0u8; 8], secret.to_string(), vec![2u8; 33]),
        amount,
        timestamp: Timestamp { secs, nanos: 0 },
    }
}

fn burn(secret: &str, amount: u64, secs: i64) -> BurnProof {
    BurnProof { secret: secret.to_string(), amount, timestamp: Timestamp { secs, nanos: 0 } }
}

fn empty() -> EpochState {
    EpochState::new(0, Timestamp { secs: 0, nanos: 0 })
}

#[test]
fn a_new_epoch_is_empty() {
    let epoch = EpochState::new(12, Timestamp { secs: 34, nanos: 56 });
    assert_eq!(epoch.epoch_id(), 12);
    assert_eq!(epoch.start_time(), Timestamp { secs: 34, nanos: 56 });
    assert!(epoch.mint_proofs().is_empty());
    assert!(epoch.burn_proofs().is_empty());
    assert_eq!(epoch.total_minted(), 0);
    assert_eq!(epoch.total_burned(), 0);
    assert_eq!(epoch.outstanding_balance(), Some(0));
}

#[test]
fn the_balance_is_what_was_minted_less_what_was_burned() {
    let epoch = empty()
        .with_mint(mint("a", 5000, 1))
        .with_mint(mint("b", 3000, 2))
        .with_burn(burn("x", 2000, 3));
    assert_eq!(epoch.total_minted(), 8000);
    assert_eq!(epoch.total_burned(), 2000);
    assert_eq!(epoch.outstanding_balance(), Some(6000));
}

#[test]
fn the_balance_is_never_below_zero() {
    let epoch = empty().with_mint(mint("a", 1000, 1)).with_burn(burn("x", 4000, 2));
    assert_eq!(epoch.total_minted(), 1000);
    assert_eq!(epoch.total_burned(), 4000);
    assert_eq!(epoch.outstanding_balance(), Some(0));
    let even = empty().with_mint(mint("a", 7, 1)).with_burn(burn("x", 7, 2));
    assert_eq!(even.outstanding_balance(), Some(0));
}

#[test]
fn the_order_of_the_events_does_not_change_the_balance() {
    let one = empty()
        .with_mint(mint("a", 10, 1))
        .with_burn(burn("x", 4, 2))
        .with_mint(mint("b", 20, 3))
        .with_burn(burn("y", 5, 4));
    let other = empty()
        .with_burn(burn("y", 5, 4))
        .with_burn(burn("x", 4, 2))
        .with_mint(mint("b", 20, 3))
        .with_mint(mint("a", 10, 1));
    assert_eq!(one.outstanding_balance(), Some(21));
    assert_eq!(other.outstanding_balance(), Some(21));
    assert_eq!(one.total_minted(), other.total_minted());
    assert_eq!(one.total_burned(), other.total_burned());
}

#[test]
fn an_event_is_held_once() {
    let epoch = empty().with_mint(mint("a", 10, 1)).with_mint(mint("a", 10, 1));
    assert_eq!(epoch.mint_proofs().len(), 1);
    assert_eq!(epoch.total_minted(), 10);
    // Another time, amount or proof makes another event.
    let epoch = epoch.with_mint(mint("a", 10, 2)).with_mint(mint("a", 11, 1));
    let epoch = epoch.with_mint(mint("b", 10, 1));
    assert_eq!(epoch.mint_proofs().len(), 4);
    assert_eq!(epoch.total_minted(), 41);

    let epoch = epoch.with_burn(burn("x", 3, 1)).with_burn(burn("x", 3, 1));
    assert_eq!(epoch.burn_proofs().len(), 1);
    let epoch = epoch.with_burn(burn("x", 3, 2));
    assert_eq!(epoch.burn_proofs().len(), 2);
    assert_eq!(epoch.total_burned(), 6);
}

#[test]
fn events_are_found_again() {
    let epoch = empty().with_mint(mint("a", 10, 1)).with_burn(burn("x", 3, 1));
    assert!(epoch.has_mint(&mint("a", 10, 1)));
    assert!(!epoch.has_mint(&mint("a", 10, 2)));
    assert!(epoch.has_burn(&burn("x", 3, 1)));
    assert!(!epoch.has_burn(&burn("x", 4, 1)));
    assert!(epoch.has_minted(&mint("a", 10, 7).proof));
    assert!(!epoch.has_minted(&mint("b", 10, 1).proof));
    assert!(epoch.has_burned("x"));
    assert!(!epoch.has_burned("a"));
    assert!(!epoch.has_burned(""));
}

#[test]
fn sums_beyond_the_width_of_an_amount_are_exact() {
    let epoch = empty().with_mint(mint("a", u64::MAX, 1)).with_mint(mint("b", u64::MAX, 2));
    assert_eq!(epoch.total_minted(), 2 * (u64::MAX as u128));
    assert_eq!(epoch.outstanding_balance(), None);
    let epoch = epoch.with_burn(burn("x", u64::MAX, 3));
    assert_eq!(epoch.outstanding_balance(), Some(u64::MAX));
    let epoch = epoch.with_burn(burn("y", u64::MAX, 4)).with_burn(burn("z", 1, 5));
    assert_eq!(epoch.total_burned(), 2 * (u64::MAX as u128) + 1);
    assert_eq!(epoch.outstanding_balance(), Some(0));
}

#[test]
fn an_epoch_gives_up_its_events_in_stored_order() {
    let epoch = empty()
        .with_mint(mint("a", 1, 1))
        .with_burn(burn("x", 2, 2))
        .with_mint(mint("b", 3, 3));
    let (mints, burns) = epoch.into_events();
    assert_eq!(mints, vec![mint("a", 1, 1), mint("b", 3, 3)]);
    assert_eq!(burns, vec![burn("x", 2, 2)]);
}

#[test]
fn proofs_are_told_apart_field_by_field() {
    let proof = Proof::new(5, vec![1, 2], "s".to_string(), vec![3, 4]);
    assert!(proof.same(&Proof::new(5, vec![1, 2], "s".to_string(), vec![3, 4])));
    assert!(!proof.same(&Proof::new(6, vec![1, 2], "s".to_string(), vec![3, 4])));
    assert!(!proof.same(&Proof::new(5, vec![1, 3], "s".to_string(), vec![3, 4])));
    assert!(!proof.same(&Proof::new(5, vec![1], "s".to_string(), vec![3, 4])));
    assert!(!proof.same(&Proof::new(5, vec![1, 2], "t".to_string(), vec![3, 4])));
    assert!(!proof.same(&Proof::new(5, vec![1, 2], "s".to_string(), vec![3, 4, 5])));
    let mut witnessed = proof.clone();
    witnessed.witness = Some(vec![1]);
    assert!(!proof.same(&witnessed));
    assert!(witnessed.same(&witnessed.clone()));
    let mut other_witness = witnessed.clone();
    other_witness.witness = Some(vec![2]);
    assert!(!witnessed.same(&other_witness));
    let mut with_dleq = proof.clone();
    with_dleq.dleq = Some(vec![]);
    assert!(!proof.same(&with_dleq));
    let mut with_key = proof.clone();
    with_key.p2pk_e = Some(vec![2; 33]);
    assert!(!proof.same(&with_key));
    assert!(!with_dleq.same(&with_key));
    assert!(mint("a", 1, 1).same(&mint("a", 1, 1)));
    assert!(!mint("a", 1, 1).same(&mint("a", 1, 2)));
    assert!(burn("a", 1, 1).same(&burn("a", 1, 1)));
    assert!(!burn("a", 1, 1).same(&burn("b", 1, 1)));
}
