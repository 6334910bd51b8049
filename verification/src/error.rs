//! Failure conditions of the ledger-mutating operations.

use vstd::prelude::*;

verus! {

/// Why a ledger-mutating operation was refused.
///
/// Read-only operations never fail; every mutating operation reports one of
/// these typed failures instead of clamping or wrapping, and applies no state
/// change when it does.
#[derive(Clone, Copy, Debug, PartialEq, Eq, Structural)]
pub enum Error {
    /// The sender's balance is less than the requested transfer amount.
    InsufficientBalance,
    /// The spender's remaining allowance is less than the requested
    /// transfer-from amount.
    InsufficientAllowance,
    /// A credit would exceed the maximum representable balance.
    Overflow,
}

} // verus!
