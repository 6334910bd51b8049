//! Tests of the two ledgers on their own, including the overflow failure
//! that the token-level conservation invariant rules out.

use erc20::account::Account;
use erc20::allowances::AllowanceLedger;
use erc20::amount::Amount;
use erc20::balances::BalanceLedger;
use erc20::error::Error;

fn acct(tag: u8) -> Account {
    Account::new([tag; 32])
}

#[test]
fn read_balance_of_absent_account_is_zero() {
    let ledger = BalanceLedger::new();
    assert_eq!(ledger.read_balance(&acct(1)), Amount::zero());
}

#[test]
fn write_balance_overwrites() {
    let mut ledger = BalanceLedger::new();
    ledger.write_balance(&acct(1), Amount::from_u64(10));
    assert_eq!(ledger.read_balance(&acct(1)), Amount::from_u64(10));
    ledger.write_balance(&acct(1), Amount::from_u64(3));
    assert_eq!(ledger.read_balance(&acct(1)), Amount::from_u64(3));
    assert_eq!(ledger.read_balance(&acct(2)), Amount::zero());
}

#[test]
fn transfer_balance_moves_value() {
    let mut ledger = BalanceLedger::new();
    ledger.write_balance(&acct(1), Amount::from_u64(10));

    let result = ledger.transfer_balance(acct(1), acct(2), Amount::from_u64(4));

    assert_eq!(result, Ok(()));
    assert_eq!(ledger.read_balance(&acct(1)), Amount::from_u64(6));
    assert_eq!(ledger.read_balance(&acct(2)), Amount::from_u64(4));
}

#[test]
fn transfer_balance_insufficient_changes_nothing() {
    let mut ledger = BalanceLedger::new();
    ledger.write_balance(&acct(1), Amount::from_u64(10));

    let result = ledger.transfer_balance(acct(1), acct(2), Amount::from_u64(11));

    assert_eq!(result, Err(Error::InsufficientBalance));
    assert_eq!(ledger.read_balance(&acct(1)), Amount::from_u64(10));
    assert_eq!(ledger.read_balance(&acct(2)), Amount::zero());
}

#[test]
fn transfer_balance_overflow_changes_nothing() {
    // A raw ledger can be seeded past any conserved supply; crediting the
    // saturated account must then fail cleanly rather than wrap.
    let saturated = Amount::from_limbs([u64::MAX; 8]);
    let mut ledger = BalanceLedger::new();
    ledger.write_balance(&acct(1), saturated);
    ledger.write_balance(&acct(2), Amount::from_u64(5));

    let result = ledger.transfer_balance(acct(2), acct(1), Amount::from_u64(5));

    assert_eq!(result, Err(Error::Overflow));
    assert_eq!(ledger.read_balance(&acct(1)), saturated);
    assert_eq!(ledger.read_balance(&acct(2)), Amount::from_u64(5));
}

#[test]
fn transfer_balance_to_self_keeps_balance() {
    let mut ledger = BalanceLedger::new();
    ledger.write_balance(&acct(1), Amount::from_u64(10));

    let result = ledger.transfer_balance(acct(1), acct(1), Amount::from_u64(10));

    assert_eq!(result, Ok(()));
    assert_eq!(ledger.read_balance(&acct(1)), Amount::from_u64(10));
}

#[test]
fn read_allowance_of_absent_pair_is_zero() {
    let ledger = AllowanceLedger::new();
    assert_eq!(ledger.read_allowance(&acct(1), &acct(2)), Amount::zero());
}

#[test]
fn write_allowance_overwrites_only_its_pair() {
    let mut ledger = AllowanceLedger::new();
    ledger.write_allowance(&acct(1), &acct(2), Amount::from_u64(9));
    ledger.write_allowance(&acct(1), &acct(3), Amount::from_u64(4));

    assert_eq!(ledger.read_allowance(&acct(1), &acct(2)), Amount::from_u64(9));
    assert_eq!(ledger.read_allowance(&acct(1), &acct(3)), Amount::from_u64(4));
    assert_eq!(ledger.read_allowance(&acct(2), &acct(1)), Amount::zero());

    ledger.write_allowance(&acct(1), &acct(2), Amount::zero());
    assert_eq!(ledger.read_allowance(&acct(1), &acct(2)), Amount::zero());
    assert_eq!(ledger.read_allowance(&acct(1), &acct(3)), Amount::from_u64(4));
}
