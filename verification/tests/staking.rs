use pallet_staking_ddpos::pallet::{Config, DispatchError, Error, Event, Origin, Pallet};

const ALICE: u64 = 1;
const BOB: u64 = 2;
const CHARLIE: u64 = 3;

/// The currency host's minimum balance (existential deposit) in these tests.
const EXISTENTIAL_DEPOSIT: u128 = 10;
/// Every test account holds this free balance.
const FREE_BALANCE: u128 = 100;

fn new_test_pallet() -> Pallet {
    Pallet::new(Config { minimum_validator_count: 1, maximum_validator_count: 2 })
}

fn bond(pallet: &mut Pallet, who: u64, amount: u128) -> Result<(), DispatchError> {
    pallet.bond(
        Origin::Signed(who),
        amount,
        FREE_BALANCE,
        EXISTENTIAL_DEPOSIT,
        true,
    )
}

#[test]
fn bond_less_than_minimum_should_fail() {
    let mut staking = new_test_pallet();
    let amount = EXISTENTIAL_DEPOSIT - 1;
    assert_eq!(
        bond(&mut staking, ALICE, amount),
        Err(DispatchError::Module(Error::InsufficientBond))
    );
}

#[test]
fn bond_equal_to_minimum_should_be_ok() {
    let mut staking = new_test_pallet();
    let amount = EXISTENTIAL_DEPOSIT;
    assert_eq!(bond(&mut staking, ALICE, amount), Ok(()));
}

#[test]
fn bond_all_balance_should_succeed() {
    let mut staking = new_test_pallet();
    let free_balance = FREE_BALANCE;
    assert_eq!(bond(&mut staking, ALICE, free_balance), Ok(()));
}

#[test]
fn bond_twice_should_fail() {
    let mut staking = new_test_pallet();
    let balance = 100;
    assert_eq!(bond(&mut staking, ALICE, balance), Ok(()));
    assert_eq!(
        bond(&mut staking, ALICE, balance),
        Err(DispatchError::Module(Error::AlreadyBonded))
    );
}

#[test]
fn unbond_the_unbounded_should_fail() {
    let mut staking = new_test_pallet();
    assert_eq!(
        staking.unbond(Origin::Signed(ALICE)),
        Err(DispatchError::Module(Error::NotStash))
    );
}

#[test]
fn bond_unbond_bond_should_succeed() {
    let mut staking = new_test_pallet();
    assert_eq!(bond(&mut staking, ALICE, 10), Ok(()));
    assert_eq!(staking.unbond(Origin::Signed(ALICE)), Ok(()));
    assert_eq!(bond(&mut staking, ALICE, 10), Ok(()));
}

#[test]
fn bond_unbond_events() {
    let mut staking = new_test_pallet();
    assert_eq!(bond(&mut staking, ALICE, 10), Ok(()));
    assert_eq!(*staking.events(), vec![Event::Bonded(ALICE, 10)]);
    assert_eq!(staking.unbond(Origin::Signed(ALICE)), Ok(()));
    assert_eq!(
        *staking.events(),
        vec![Event::Bonded(ALICE, 10), Event::Unbonded(ALICE)]
    );
}

#[test]
fn new_session_with_no_validators_should_return_none() {
    let staking = new_test_pallet();
    assert!(staking.new_session(0).is_none());
}

#[test]
fn new_session_with_validators_should_return_validators() {
    let mut staking = new_test_pallet();
    assert_eq!(staking.new_session(0), None);
    assert_eq!(bond(&mut staking, ALICE, 10), Ok(()));
    assert_eq!(staking.new_session(0), Some(vec![ALICE]));
    assert_eq!(bond(&mut staking, BOB, 10), Ok(()));
    assert_eq!(staking.new_session(0), Some(vec![ALICE, BOB]));
}

#[test]
fn minimum_validator_count_default() {
    let staking = new_test_pallet();
    assert_eq!(staking.minimum_validator_count(), 1);
}

#[test]
fn maximum_validator_count_default() {
    let staking = new_test_pallet();
    assert_eq!(staking.maximum_validator_count(), 2);
}

#[test]
fn set_minimum_validator_should_be_called_by_root() {
    let mut staking = new_test_pallet();
    let counter = staking.minimum_validator_count();
    assert_eq!(
        staking.set_minimum_validator_count(Origin::Signed(ALICE), counter + 1),
        Err(DispatchError::BadOrigin)
    );
    assert_eq!(
        staking.set_minimum_validator_count(Origin::Root, counter + 1),
        Ok(())
    );
    assert_eq!(staking.minimum_validator_count(), counter + 1);
}

#[test]
fn set_minimum_should_not_0_and_major_than_maximum() {
    let mut staking = new_test_pallet();
    assert_eq!(
        staking.set_minimum_validator_count(Origin::Root, 0),
        Err(DispatchError::Module(Error::InvalidNumberOfValidators))
    );
    let counter = staking.maximum_validator_count();
    assert_eq!(
        staking.set_minimum_validator_count(Origin::Root, counter + 1),
        Err(DispatchError::Module(Error::InvalidNumberOfValidators))
    );
    assert_eq!(
        staking.set_minimum_validator_count(Origin::Root, counter),
        Ok(())
    );
}

#[test]
fn set_maximum_validator_should_be_called_by_root() {
    let mut staking = new_test_pallet();
    let counter = staking.maximum_validator_count();
    assert_eq!(
        staking.set_maximum_validator_count(Origin::Signed(ALICE), counter + 1),
        Err(DispatchError::BadOrigin)
    );
    assert_eq!(
        staking.set_maximum_validator_count(Origin::Root, counter + 1),
        Ok(())
    );
    assert_eq!(staking.maximum_validator_count(), counter + 1);
}

#[test]
fn set_maximum_should_not_be_minor_than_minimum() {
    let mut staking = new_test_pallet();
    let counter = staking.minimum_validator_count();
    assert_eq!(
        staking.set_maximum_validator_count(Origin::Root, counter - 1),
        Err(DispatchError::Module(Error::InvalidNumberOfValidators))
    );
    assert_eq!(
        staking.set_maximum_validator_count(Origin::Root, counter),
        Ok(())
    );
}

#[test]
fn new_session_should_return_at_maximum_maximum_validator() {
    let mut staking = new_test_pallet();
    assert_eq!(staking.maximum_validator_count(), 2);
    assert_eq!(bond(&mut staking, 1, 10), Ok(()));
    assert_eq!(bond(&mut staking, 2, 10), Ok(()));
    assert_eq!(bond(&mut staking, 3, 10), Ok(()));
    let validators = staking.new_session(1).unwrap();
    assert_eq!(validators.len(), 2);
}

#[test]
fn new_session_should_return_the_winners() {
    let mut staking = new_test_pallet();
    assert_eq!(staking.maximum_validator_count(), 2);
    assert_eq!(bond(&mut staking, BOB, 20), Ok(()));
    assert_eq!(bond(&mut staking, ALICE, 50), Ok(()));
    assert_eq!(bond(&mut staking, CHARLIE, 90), Ok(()));
    let validators = staking.new_session(1);
    assert_eq!(validators, Some(vec![CHARLIE, ALICE]));
}
