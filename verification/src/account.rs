//! Opaque account identities.

use vstd::prelude::*;

verus! {

/// The fixed byte length of an account identity.
pub const ACCOUNT_LEN: usize = 32;

/// An opaque, fixed-length account identity.
///
/// In the host system such an identity is derived from a public key; the
/// ledger never inspects its internal structure and only uses it as a
/// comparable join key across the balance and allowance ledgers.
#[derive(Clone, Copy, Debug, PartialEq, Eq, Hash)]
pub struct Account {
    bytes: [u8; ACCOUNT_LEN],
}

impl View for Account {
    type V = Seq<u8>;

    closed spec fn view(&self) -> Seq<u8> {
        self.bytes@
    }
}

impl Account {
    /// Wraps a fixed-length byte identifier as an account identity.
    pub fn new(bytes: [u8; ACCOUNT_LEN]) -> (r: Account)
        ensures
            r@ == bytes@,
    {
        Account { bytes }
    }

    /// Returns the identity's bytes.
    pub fn bytes(&self) -> (r: [u8; ACCOUNT_LEN])
        ensures
            r@ == self@,
    {
        self.bytes
    }

    /// Decides whether two identities are the same account.
    pub fn same(&self, other: &Account) -> (r: bool)
        ensures
            r == (self@ == other@),
    {
        let mut i: usize = 0;
        while i < ACCOUNT_LEN
            invariant
                i <= ACCOUNT_LEN,
                forall|j: int| 0 <= j < i ==> self@[j] == other@[j],
            decreases ACCOUNT_LEN - i,
        {
            if self.bytes[i] != other.bytes[i] {
                return false;
            }
            i += 1;
        }
        proof {
            assert(self@ =~= other@);
        }
        true
    }
}

} // verus!
