//! Tests of storage-key derivation: exact hexadecimal account keys, and the
//! shape and order-sensitivity of hashed allowance keys.

use erc20::account::Account;
use erc20::keys::{account_key, allowance_key};

#[test]
fn account_key_is_lowercase_hex_of_identity() {
    let account = Account::new([0x01; 32]);
    assert_eq!(account_key(&account), "01".repeat(32));

    let account = Account::new([0xab; 32]);
    assert_eq!(account_key(&account), "ab".repeat(32));
}

#[test]
fn account_key_encodes_each_byte_in_order() {
    let mut bytes = [0u8; 32];
    for (i, b) in bytes.iter_mut().enumerate() {
        *b = i as u8;
    }
    let expected = "000102030405060708090a0b0c0d0e0f101112131415161718191a1b1c1d1e1f";
    assert_eq!(account_key(&Account::new(bytes)), expected);
}

#[test]
fn account_keys_of_distinct_accounts_differ() {
    let a = account_key(&Account::new([3; 32]));
    let b = account_key(&Account::new([6; 32]));
    assert_ne!(a, b);
}

#[test]
fn allowance_key_is_a_printable_digest_key() {
    let owner = Account::new([3; 32]);
    let spender = Account::new([6; 32]);
    let key = allowance_key(&owner, &spender);
    assert_eq!(key.len(), 64);
    assert!(key.chars().all(|c| c.is_ascii_hexdigit() && !c.is_ascii_uppercase()));
}

#[test]
fn allowance_key_is_deterministic() {
    let owner = Account::new([3; 32]);
    let spender = Account::new([6; 32]);
    assert_eq!(allowance_key(&owner, &spender), allowance_key(&owner, &spender));
}

#[test]
fn allowance_key_is_order_sensitive() {
    let a = Account::new([3; 32]);
    let b = Account::new([6; 32]);
    assert_ne!(allowance_key(&a, &b), allowance_key(&b, &a));
}

#[test]
fn allowance_keys_of_distinct_pairs_differ() {
    let a = Account::new([3; 32]);
    let b = Account::new([6; 32]);
    let c = Account::new([9; 32]);
    assert_ne!(allowance_key(&a, &b), allowance_key(&a, &c));
    assert_ne!(allowance_key(&a, &b), allowance_key(&c, &b));
}
