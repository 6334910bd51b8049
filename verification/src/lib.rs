//! A fungible-token ledger: account balances and delegated-spending
//! allowances, exposed through transfer, approve and transfer-from
//! operations with verified transactional semantics.
//!
//! The crate is organised leaves-first:
//! - [`amount`]: 512-bit unsigned token amounts with checked arithmetic;
//! - [`account`]: opaque fixed-length account identities;
//! - [`error`]: the failure conditions of the mutating operations;
//! - [`keys`]: derivation of storage keys from semantic identities;
//! - [`balances`]: the account-to-balance ledger with its conservation sum;
//! - [`allowances`]: the (owner, spender)-to-cap ledger;
//! - [`token`]: the transactional core composing the two ledgers.

pub mod account;
pub mod allowances;
pub mod amount;
pub mod balances;
pub mod error;
pub mod keys;
pub mod token;
