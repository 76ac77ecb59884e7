use pallet_staking_ddpos::pallet::{Config, DispatchError, Error, Event, Origin, Pallet};

const ALICE: u64 = 1;
const BOB: u64 = 2;

const EXISTENTIAL_DEPOSIT: u128 = 10;
const FREE_BALANCE: u128 = 100;

fn default_pallet() -> Pallet {
    Pallet::new(Config { minimum_validator_count: 1, maximum_validator_count: 2 })
}

fn plain_bond(pallet: &mut Pallet, who: u64, amount: u128) -> Result<(), DispatchError> {
    pallet.bond(
        Origin::Signed(who),
        amount,
        FREE_BALANCE,
        EXISTENTIAL_DEPOSIT,
        true,
    )
}

#[test]
fn bond_dust_creates_no_entry() {
    let mut staking = default_pallet();
    assert_eq!(
        plain_bond(&mut staking, ALICE, EXISTENTIAL_DEPOSIT - 1),
        Err(DispatchError::Module(Error::InsufficientBond))
    );
    assert_eq!(staking.bonded(ALICE), None);
    assert_eq!(*staking.events(), vec![]);
}

#[test]
fn bond_clamps_to_free_balance() {
    let mut staking = default_pallet();
    assert_eq!(plain_bond(&mut staking, ALICE, 500), Ok(()));
    assert_eq!(staking.bonded(ALICE), Some(FREE_BALANCE));
    assert_eq!(*staking.events(), vec![Event::Bonded(ALICE, FREE_BALANCE)]);
    // "Bond everything I have": the largest possible request locks the free
    // balance exactly.
    let mut other = default_pallet();
    assert_eq!(plain_bond(&mut other, BOB, u128::MAX), Ok(()));
    assert_eq!(other.bonded(BOB), Some(FREE_BALANCE));
}

#[test]
fn bond_within_free_balance_records_the_request() {
    let mut staking = default_pallet();
    assert_eq!(plain_bond(&mut staking, ALICE, 42), Ok(()));
    assert_eq!(staking.bonded(ALICE), Some(42));
}

#[test]
fn bond_refused_when_consumer_bookkeeping_fails() {
    let mut staking = default_pallet();
    assert_eq!(
        staking.bond(Origin::Signed(ALICE), 42, FREE_BALANCE, EXISTENTIAL_DEPOSIT, false),
        Err(DispatchError::Module(Error::BadState))
    );
    assert_eq!(staking.bonded(ALICE), None);
    assert_eq!(*staking.events(), vec![]);
}

#[test]
fn bond_needs_a_signed_origin() {
    let mut staking = default_pallet();
    assert_eq!(
        staking.bond(Origin::Root, 42, FREE_BALANCE, EXISTENTIAL_DEPOSIT, true),
        Err(DispatchError::BadOrigin)
    );
    assert_eq!(
        staking.unbond(Origin::Root),
        Err(DispatchError::BadOrigin)
    );
}

#[test]
fn rebond_after_unbond_is_a_fresh_entry() {
    let mut staking = default_pallet();
    assert_eq!(plain_bond(&mut staking, ALICE, 42), Ok(()));
    assert_eq!(staking.unbond(Origin::Signed(ALICE)), Ok(()));
    assert_eq!(staking.bonded(ALICE), None);
    assert_eq!(plain_bond(&mut staking, ALICE, 17), Ok(()));
    assert_eq!(staking.bonded(ALICE), Some(17));
    assert_eq!(staking.bonds_snapshot(), vec![(ALICE, 17)]);
}

#[test]
fn selection_below_minimum_declines() {
    let mut staking = Pallet::new(Config {
        minimum_validator_count: 2,
        maximum_validator_count: 3,
    });
    assert_eq!(plain_bond(&mut staking, ALICE, 42), Ok(()));
    assert_eq!(staking.new_session(0), None);
    assert_eq!(plain_bond(&mut staking, BOB, 42), Ok(()));
    assert_eq!(staking.new_session(0), Some(vec![ALICE, BOB]));
}

#[test]
fn end_to_end_equal_stakes_keep_insertion_order() {
    let mut staking = default_pallet();
    assert_eq!(plain_bond(&mut staking, ALICE, 10), Ok(()));
    assert_eq!(plain_bond(&mut staking, BOB, 10), Ok(()));
    assert_eq!(staking.minimum_validator_count(), 1);
    assert_eq!(staking.maximum_validator_count(), 2);
    // Ties are broken by the ledger's insertion order: Alice bonded first.
    assert_eq!(staking.new_session(0), Some(vec![ALICE, BOB]));
}

#[test]
fn bounds_unchanged_after_refused_updates() {
    let mut staking = default_pallet();
    assert!(staking.set_minimum_validator_count(Origin::Root, 0).is_err());
    assert!(staking.set_minimum_validator_count(Origin::Root, 3).is_err());
    assert!(staking.set_maximum_validator_count(Origin::Root, 0).is_err());
    assert!(staking
        .set_maximum_validator_count(Origin::Signed(ALICE), 5)
        .is_err());
    assert_eq!(staking.minimum_validator_count(), 1);
    assert_eq!(staking.maximum_validator_count(), 2);
}

#[test]
fn vote_checks_the_origin_and_records_nothing() {
    let mut staking = default_pallet();
    assert_eq!(staking.vote(Origin::Signed(ALICE), BOB), Ok(()));
    assert_eq!(staking.vote(Origin::Root, BOB), Err(DispatchError::BadOrigin));
    assert_eq!(*staking.events(), vec![]);
    assert_eq!(staking.bonds_snapshot(), vec![]);
}

#[test]
fn genesis_planning_always_declines() {
    let mut staking = default_pallet();
    assert_eq!(plain_bond(&mut staking, ALICE, 42), Ok(()));
    assert_eq!(staking.new_session_genesis(0), None);
}

#[test]
fn session_notifications_are_inert() {
    let mut staking = default_pallet();
    assert_eq!(plain_bond(&mut staking, ALICE, 42), Ok(()));
    staking.start_session(1);
    staking.end_session(1);
    assert_eq!(staking.bonds_snapshot(), vec![(ALICE, 42)]);
    assert_eq!(*staking.events(), vec![Event::Bonded(ALICE, 42)]);
}

#[test]
fn snapshot_reflects_all_prior_operations() {
    let mut staking = default_pallet();
    assert_eq!(plain_bond(&mut staking, ALICE, 30), Ok(()));
    assert_eq!(plain_bond(&mut staking, BOB, 20), Ok(()));
    assert_eq!(staking.bonds_snapshot(), vec![(ALICE, 30), (BOB, 20)]);
    assert_eq!(staking.unbond(Origin::Signed(ALICE)), Ok(()));
    assert_eq!(staking.bonds_snapshot(), vec![(BOB, 20)]);
}
