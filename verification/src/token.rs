//! The transactional core: composes the balance and allowance ledgers into
//! transfer, approve and transfer-from.
//!
//! Every operation runs to completion within one sequential unit of work;
//! the caller identity (sender, owner or spender) is threaded in explicitly
//! by the dispatch layer rather than read from ambient state. Mutating
//! operations validate before writing, so a failure never leaves a partial
//! state, and each one preserves the conservation invariant: the sum of all
//! balances equals the total supply minted at deployment.

use crate::account::Account;
use crate::allowances::AllowanceLedger;
use crate::amount::{amount_limit, Amount};
use crate::balances::{map_transfer, BalanceLedger};
use crate::error::Error;
use vstd::prelude::*;

verus! {

/// A deployed fungible token: descriptive metadata, the declared total
/// supply, and the two ledgers it is the exclusive owner of.
pub struct Token {
    name: String,
    symbol: String,
    decimals: u8,
    total_supply: Amount,
    balances: BalanceLedger,
    allowances: AllowanceLedger,
}

impl Token {
    /// Both ledgers are well-formed and the balances sum to the declared
    /// total supply.
    pub closed spec fn wf(&self) -> bool {
        &&& self.balances.wf()
        &&& self.allowances.wf()
        &&& self.balances.total() == self.total_supply@
    }

    /// The token's name.
    pub closed spec fn spec_name(&self) -> Seq<char> {
        self.name@
    }

    /// The token's symbol.
    pub closed spec fn spec_symbol(&self) -> Seq<char> {
        self.symbol@
    }

    /// The token's decimal places.
    pub closed spec fn spec_decimals(&self) -> u8 {
        self.decimals
    }

    /// The total supply minted at deployment.
    pub closed spec fn supply(&self) -> nat {
        self.total_supply@
    }

    /// The balance map: account identity to non-negative value, zero for
    /// absent identities.
    pub closed spec fn balances(&self) -> Map<Seq<u8>, nat> {
        self.balances@
    }

    /// The allowance map: ordered (owner, spender) pair to non-negative
    /// cap, zero for absent pairs.
    pub closed spec fn allowances(&self) -> Map<(Seq<u8>, Seq<u8>), nat> {
        self.allowances@
    }

    /// The sum of all balances.
    pub closed spec fn balances_total(&self) -> nat {
        self.balances.total()
    }

    /// Conservation: in a well-formed token the sum of all balances equals
    /// the total supply. Every operation below preserves well-formedness
    /// and the supply, so no sequence of successful operations creates or
    /// destroys units.
    pub proof fn lemma_conservation(&self)
        requires
            self.wf(),
        ensures
            self.balances_total() == self.supply(),
    {
    }

    /// No single balance can exceed the total supply, which itself fits
    /// the unsigned amount width.
    pub proof fn lemma_balance_bounded(&self, account: Seq<u8>)
        requires
            self.wf(),
        ensures
            self.balances()[account] <= self.supply() < amount_limit(),
    {
        self.balances.lemma_balance_le_total(account);
        self.total_supply.lemma_bound();
    }

    /// Approve overwrites: granting `first` and then `second` to the same
    /// pair leaves the pair at exactly `second`, independent of `first`.
    /// [`Token::approve`] pins its result to exactly such an insertion.
    pub proof fn lemma_approve_overwrite(
        allowances: Map<(Seq<u8>, Seq<u8>), nat>,
        key: (Seq<u8>, Seq<u8>),
        first: nat,
        second: nat,
    )
        ensures
            allowances.insert(key, first).insert(key, second) == allowances.insert(key, second),
    {
        assert(allowances.insert(key, first).insert(key, second) =~= allowances.insert(
            key,
            second,
        ));
    }

    /// Deploys a token: the metadata is recorded, the whole initial supply
    /// is assigned to the deploying account, and the allowance ledger
    /// starts empty.
    pub fn deploy(
        name: String,
        symbol: String,
        decimals: u8,
        initial_supply: Amount,
        deployer: &Account,
    ) -> (t: Token)
        ensures
            t.wf(),
            t.spec_name() == name@,
            t.spec_symbol() == symbol@,
            t.spec_decimals() == decimals,
            t.supply() == initial_supply@,
            forall|a: Seq<u8>|
                t.balances()[a] == if a == deployer@ {
                    initial_supply@
                } else {
                    0nat
                },
            forall|k: (Seq<u8>, Seq<u8>)| t.allowances()[k] == 0,
    {
        let mut balances = BalanceLedger::new();
        balances.write_balance(deployer, initial_supply);
        let allowances = AllowanceLedger::new();
        Token { name, symbol, decimals, total_supply: initial_supply, balances, allowances }
    }

    /// Returns the name of the token.
    pub fn name(&self) -> (r: String)
        ensures
            r@ == self.spec_name(),
    {
        self.name.clone()
    }

    /// Returns the symbol of the token.
    pub fn symbol(&self) -> (r: String)
        ensures
            r@ == self.spec_symbol(),
    {
        self.symbol.clone()
    }

    /// Returns the decimals of the token.
    pub fn decimals(&self) -> (r: u8)
        ensures
            r == self.spec_decimals(),
    {
        self.decimals
    }

    /// Returns the total supply minted at deployment.
    pub fn total_supply(&self) -> (r: Amount)
        ensures
            r@ == self.supply(),
    {
        self.total_supply
    }

    /// Checks the balance of an account; an account without an entry has
    /// balance zero. Pure and repeatable: the result is a function of the
    /// state alone, so reads with no intervening write return identical
    /// results. Never fails.
    pub fn balance_of(&self, account: &Account) -> (r: Amount)
        requires
            self.wf(),
        ensures
            r@ == self.balances()[account@],
    {
        self.balances.read_balance(account)
    }

    /// Checks the balances of several accounts at once.
    pub fn batch_balance_of(&self, addresses: &Vec<Account>) -> (r: Vec<Amount>)
        requires
            self.wf(),
        ensures
            r@.len() == addresses@.len(),
            forall|i: int|
                0 <= i < addresses@.len() ==> r@[i]@ == self.balances()[addresses@[i]@],
    {
        let mut result: Vec<Amount> = Vec::new();
        let mut i: usize = 0;
        while i < addresses.len()
            invariant
                self.wf(),
                i <= addresses@.len(),
                result@.len() == i,
                forall|j: int| 0 <= j < i ==> result@[j]@ == self.balances()[addresses@[j]@],
            decreases addresses@.len() - i,
        {
            let account = addresses[i];
            result.push(self.balance_of(&account));
            i += 1;
        }
        result
    }

    /// Returns the amount the spender is still allowed to move out of the
    /// owner's balance; a pair without an entry has allowance zero. Pure
    /// and repeatable, like [`Token::balance_of`]. Never fails.
    pub fn allowance(&self, owner: &Account, spender: &Account) -> (r: Amount)
        requires
            self.wf(),
        ensures
            r@ == self.allowances()[(owner@, spender@)],
    {
        self.allowances.read_allowance(owner, spender)
    }

    /// Transfers `amount` from `sender` to `recipient`.
    ///
    /// Succeeds exactly when the sender's balance covers the amount; a
    /// failed transfer changes nothing. Conservation makes a credit
    /// overflow impossible here: two distinct balances jointly never
    /// exceed the supply, which fits the amount width. A self-transfer of
    /// at most the sender's own balance therefore succeeds, however large,
    /// and leaves every balance unchanged.
    pub fn transfer(
        &mut self,
        sender: &Account,
        recipient: &Account,
        amount: Amount,
    ) -> (r: Result<(), Error>)
        requires
            old(self).wf(),
        ensures
            final(self).wf(),
            final(self).supply() == old(self).supply(),
            final(self).balances_total() == old(self).balances_total(),
            final(self).spec_name() == old(self).spec_name(),
            final(self).spec_symbol() == old(self).spec_symbol(),
            final(self).spec_decimals() == old(self).spec_decimals(),
            final(self).allowances() == old(self).allowances(),
            r is Ok <==> amount@ <= old(self).balances()[sender@],
            r is Ok ==> final(self).balances() == map_transfer(
                old(self).balances(),
                sender@,
                recipient@,
                amount@,
            ),
            r is Ok && sender@ == recipient@ ==> final(self).balances() == old(self).balances(),
            r is Err ==> *final(self) == *old(self) && r == Err::<(), Error>(
                Error::InsufficientBalance,
            ),
    {
        proof {
            if sender@ != recipient@ {
                self.balances.lemma_pair_le_total(sender@, recipient@);
            }
            self.total_supply.lemma_bound();
        }
        self.balances.transfer_balance(*sender, *recipient, amount)
    }

    /// Unconditionally sets the allowance of (owner, spender) to `amount`.
    ///
    /// Overwrite semantics, not additive; and deliberately not bounded by
    /// the owner's current balance — an allowance may legally exceed it,
    /// and only blocks the corresponding transfer-from. Always succeeds.
    pub fn approve(
        &mut self,
        owner: &Account,
        spender: &Account,
        amount: Amount,
    ) -> (r: Result<(), Error>)
        requires
            old(self).wf(),
        ensures
            final(self).wf(),
            r is Ok,
            final(self).allowances() == old(self).allowances().insert(
                (owner@, spender@),
                amount@,
            ),
            final(self).balances() == old(self).balances(),
            final(self).balances_total() == old(self).balances_total(),
            final(self).supply() == old(self).supply(),
            final(self).spec_name() == old(self).spec_name(),
            final(self).spec_symbol() == old(self).spec_symbol(),
            final(self).spec_decimals() == old(self).spec_decimals(),
    {
        self.allowances.write_allowance(owner, spender, amount);
        Ok(())
    }

    /// Moves `amount` from `owner` to `recipient` on behalf of `spender`,
    /// consuming that much of the (owner, spender) allowance.
    ///
    /// The allowance check and the balance check are both enforced: the
    /// operation succeeds exactly when each covers the amount, decreasing
    /// the allowance by exactly the amount moved, and commits the
    /// allowance and the balances together or not at all. The allowance is
    /// examined first, so an insufficient allowance is reported even when
    /// the balance is also insufficient.
    pub fn transfer_from(
        &mut self,
        spender: &Account,
        owner: &Account,
        recipient: &Account,
        amount: Amount,
    ) -> (r: Result<(), Error>)
        requires
            old(self).wf(),
        ensures
            final(self).wf(),
            final(self).supply() == old(self).supply(),
            final(self).balances_total() == old(self).balances_total(),
            final(self).spec_name() == old(self).spec_name(),
            final(self).spec_symbol() == old(self).spec_symbol(),
            final(self).spec_decimals() == old(self).spec_decimals(),
            r is Ok <==> amount@ <= old(self).allowances()[(owner@, spender@)] && amount@ <= old(
                self,
            ).balances()[owner@],
            r is Ok ==> final(self).balances() == map_transfer(
                old(self).balances(),
                owner@,
                recipient@,
                amount@,
            ) && final(self).allowances() == old(self).allowances().insert(
                (owner@, spender@),
                (old(self).allowances()[(owner@, spender@)] - amount@) as nat,
            ),
            r is Err ==> *final(self) == *old(self),
            r == Err::<(), Error>(Error::InsufficientAllowance) <==> amount@ > old(
                self,
            ).allowances()[(owner@, spender@)],
            r == Err::<(), Error>(Error::InsufficientBalance) <==> amount@ <= old(
                self,
            ).allowances()[(owner@, spender@)] && amount@ > old(self).balances()[owner@],
    {
        let spender_allowance = self.allowances.read_allowance(owner, spender);
        let new_allowance = match spender_allowance.checked_sub(&amount) {
            None => {
                return Err(Error::InsufficientAllowance);
            },
            Some(v) => v,
        };
        proof {
            if owner@ != recipient@ {
                self.balances.lemma_pair_le_total(owner@, recipient@);
            }
            self.total_supply.lemma_bound();
        }
        match self.balances.transfer_balance(*owner, *recipient, amount) {
            Ok(_) => {},
            Err(e) => {
                return Err(e);
            },
        }
        self.allowances.write_allowance(owner, spender, new_allowance);
        Ok(())
    }
}

} // verus!
