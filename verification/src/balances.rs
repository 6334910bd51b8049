//! The balance ledger: a mapping from account identity to a non-negative
//! token amount.
//!
//! Absence of an entry reads as zero, so the ledger's view is a total map
//! from identities to values. Entries are created lazily on first write.
//! The one core algorithm, [`BalanceLedger::transfer_balance`], validates
//! both resulting balances before performing either write, so a failed
//! transfer never leaves a partial state.

use crate::account::Account;
use crate::amount::{amount_limit, Amount};
use crate::error::Error;
use vstd::prelude::*;

verus! {

/// No account identity appears twice among the stored entries.
pub open spec fn unique_keys(s: Seq<(Account, Amount)>) -> bool {
    forall|i: int, j: int| 0 <= i < j < s.len() ==> s[i].0@ != s[j].0@
}

/// The stored value for an identity, or zero when absent.
pub open spec fn entries_lookup(s: Seq<(Account, Amount)>, key: Seq<u8>) -> nat
    decreases s.len(),
{
    if s.len() == 0 {
        0
    } else if s[0].0@ == key {
        s[0].1@
    } else {
        entries_lookup(s.drop_first(), key)
    }
}

/// The sum of all stored values.
pub open spec fn entries_sum(s: Seq<(Account, Amount)>) -> nat
    decreases s.len(),
{
    if s.len() == 0 {
        0
    } else {
        s[0].1@ + entries_sum(s.drop_first())
    }
}

/// The balance map after a transfer: the sender is debited and the
/// recipient credited by the same amount; a self-transfer changes nothing.
pub open spec fn map_transfer(
    m: Map<Seq<u8>, nat>,
    sender: Seq<u8>,
    recipient: Seq<u8>,
    amount: nat,
) -> Map<Seq<u8>, nat> {
    if sender == recipient {
        m
    } else {
        m.insert(sender, (m[sender] - amount) as nat).insert(
            recipient,
            (m[recipient] + amount) as nat,
        )
    }
}

/// A stored value never exceeds the sum of all stored values.
proof fn lemma_lookup_le_sum(s: Seq<(Account, Amount)>, key: Seq<u8>)
    ensures
        entries_lookup(s, key) <= entries_sum(s),
    decreases s.len(),
{
    if s.len() > 0 {
        lemma_lookup_le_sum(s.drop_first(), key);
    }
}

/// Two values stored under distinct identities never jointly exceed the sum
/// of all stored values.
proof fn lemma_lookup_pair_le_sum(s: Seq<(Account, Amount)>, k1: Seq<u8>, k2: Seq<u8>)
    requires
        k1 != k2,
    ensures
        entries_lookup(s, k1) + entries_lookup(s, k2) <= entries_sum(s),
    decreases s.len(),
{
    if s.len() > 0 {
        if s[0].0@ == k1 {
            lemma_lookup_le_sum(s.drop_first(), k2);
        } else if s[0].0@ == k2 {
            lemma_lookup_le_sum(s.drop_first(), k1);
        } else {
            lemma_lookup_pair_le_sum(s.drop_first(), k1, k2);
        }
    }
}

/// With unique keys, the lookup of an entry's own key yields its value.
proof fn lemma_lookup_at(s: Seq<(Account, Amount)>, i: int)
    requires
        unique_keys(s),
        0 <= i < s.len(),
    ensures
        entries_lookup(s, s[i].0@) == s[i].1@,
    decreases i,
{
    if i > 0 {
        assert(unique_keys(s.drop_first()));
        lemma_lookup_at(s.drop_first(), i - 1);
    }
}

/// The lookup of a key under which nothing is stored yields zero.
proof fn lemma_lookup_absent(s: Seq<(Account, Amount)>, key: Seq<u8>)
    requires
        forall|i: int| 0 <= i < s.len() ==> s[i].0@ != key,
    ensures
        entries_lookup(s, key) == 0,
    decreases s.len(),
{
    if s.len() > 0 {
        lemma_lookup_absent(s.drop_first(), key);
    }
}

/// Overwriting one entry's value changes exactly that key's lookup, and
/// moves the sum by the difference of the two values.
proof fn lemma_entries_update(s: Seq<(Account, Amount)>, i: int, v: Amount)
    requires
        unique_keys(s),
        0 <= i < s.len(),
    ensures
        unique_keys(s.update(i, (s[i].0, v))),
        forall|k: Seq<u8>|
            entries_lookup(s.update(i, (s[i].0, v)), k) == if k == s[i].0@ {
                v@
            } else {
                entries_lookup(s, k)
            },
        entries_sum(s.update(i, (s[i].0, v))) + s[i].1@ == entries_sum(s) + v@,
    decreases i,
{
    let t = s.update(i, (s[i].0, v));
    if i == 0 {
        assert(t.drop_first() =~= s.drop_first());
    } else {
        assert(unique_keys(s.drop_first()));
        lemma_entries_update(s.drop_first(), i - 1, v);
        assert(t.drop_first() =~= s.drop_first().update(i - 1, (s[i].0, v)));
        assert(t[0] == s[0]);
        assert forall|k: Seq<u8>|
            entries_lookup(t, k) == (if k == s[i].0@ {
                v@
            } else {
                entries_lookup(s, k)
            }) by {
            let sd = s.drop_first();
            assert(entries_lookup(sd.update(i - 1, (sd[i - 1].0, v)), k) == (if k == sd[i - 1].0@ {
                v@
            } else {
                entries_lookup(sd, k)
            }));
            assert(entries_lookup(t, k) == if t[0].0@ == k {
                t[0].1@
            } else {
                entries_lookup(t.drop_first(), k)
            });
            if k == s[i].0@ {
                assert(s[0].0@ != s[i].0@);
            }
        }
    }
}

/// Appending an entry under a fresh key keeps the keys unique, gives that
/// key the new value, and adds the value to the sum.
proof fn lemma_entries_push(s: Seq<(Account, Amount)>, a: Account, v: Amount)
    requires
        unique_keys(s),
        forall|i: int| 0 <= i < s.len() ==> s[i].0@ != a@,
    ensures
        unique_keys(s.push((a, v))),
        forall|k: Seq<u8>|
            entries_lookup(s.push((a, v)), k) == if k == a@ {
                v@
            } else {
                entries_lookup(s, k)
            },
        entries_sum(s.push((a, v))) == entries_sum(s) + v@,
    decreases s.len(),
{
    let t = s.push((a, v));
    if s.len() == 0 {
        assert(t.drop_first() =~= Seq::<(Account, Amount)>::empty());
        assert(t[0] == (a, v));
        assert forall|k: Seq<u8>|
            entries_lookup(t, k) == (if k == a@ {
                v@
            } else {
                entries_lookup(s, k)
            }) by {
            assert(entries_lookup(t.drop_first(), k) == 0);
        }
        assert(entries_sum(t.drop_first()) == 0);
    } else {
        assert(unique_keys(s.drop_first()));
        lemma_entries_push(s.drop_first(), a, v);
        assert(t.drop_first() =~= s.drop_first().push((a, v)));
        assert(t[0] == s[0]);
        assert forall|k: Seq<u8>|
            entries_lookup(t, k) == (if k == a@ {
                v@
            } else {
                entries_lookup(s, k)
            }) by {
            let sd = s.drop_first();
            assert(entries_lookup(sd.push((a, v)), k) == (if k == a@ {
                v@
            } else {
                entries_lookup(sd, k)
            }));
            assert(entries_lookup(t, k) == if t[0].0@ == k {
                t[0].1@
            } else {
                entries_lookup(t.drop_first(), k)
            });
            if k == a@ {
                assert(s[0].0@ != a@);
            }
        }
    }
}

/// The account-to-balance ledger.
pub struct BalanceLedger {
    entries: Vec<(Account, Amount)>,
}

impl View for BalanceLedger {
    type V = Map<Seq<u8>, nat>;

    /// The ledger as a total map: absent identities read as zero.
    closed spec fn view(&self) -> Map<Seq<u8>, nat> {
        Map::total(|key: Seq<u8>| entries_lookup(self.entries@, key))
    }
}

impl BalanceLedger {
    /// The stored entries have no duplicate identity.
    pub closed spec fn wf(&self) -> bool {
        unique_keys(self.entries@)
    }

    /// The sum of all stored balances.
    pub closed spec fn total(&self) -> nat {
        entries_sum(self.entries@)
    }

    /// A single balance never exceeds the ledger's total.
    pub proof fn lemma_balance_le_total(&self, key: Seq<u8>)
        ensures
            self@[key] <= self.total(),
    {
        lemma_lookup_le_sum(self.entries@, key);
    }

    /// Balances of two distinct identities never jointly exceed the
    /// ledger's total.
    pub proof fn lemma_pair_le_total(&self, k1: Seq<u8>, k2: Seq<u8>)
        requires
            k1 != k2,
        ensures
            self@[k1] + self@[k2] <= self.total(),
    {
        lemma_lookup_pair_le_sum(self.entries@, k1, k2);
    }

    /// An empty ledger: every balance is zero.
    pub fn new() -> (r: BalanceLedger)
        ensures
            r.wf(),
            r.total() == 0,
            forall|k: Seq<u8>| r@[k] == 0,
    {
        BalanceLedger { entries: Vec::new() }
    }

    /// The index holding an account's entry, if one exists.
    fn find(&self, account: &Account) -> (r: Option<usize>)
        ensures
            match r {
                Some(i) => i < self.entries@.len() && self.entries@[i as int].0@ == account@,
                None => forall|i: int|
                    0 <= i < self.entries@.len() ==> self.entries@[i].0@ != account@,
            },
    {
        let mut i: usize = 0;
        while i < self.entries.len()
            invariant
                i <= self.entries@.len(),
                forall|j: int| 0 <= j < i ==> self.entries@[j].0@ != account@,
            decreases self.entries@.len() - i,
        {
            if self.entries[i].0.same(account) {
                return Some(i);
            }
            i += 1;
        }
        None
    }

    /// Reads an account's balance; an account without an entry has balance
    /// zero. Never fails.
    pub fn read_balance(&self, account: &Account) -> (r: Amount)
        requires
            self.wf(),
        ensures
            r@ == self@[account@],
    {
        match self.find(account) {
            Some(i) => {
                let v = self.entries[i].1;
                proof {
                    lemma_lookup_at(self.entries@, i as int);
                }
                v
            },
            None => {
                proof {
                    lemma_lookup_absent(self.entries@, account@);
                }
                Amount::zero()
            },
        }
    }

    /// Unconditionally overwrites an account's balance. Never fails.
    pub fn write_balance(&mut self, account: &Account, amount: Amount)
        requires
            old(self).wf(),
        ensures
            final(self).wf(),
            final(self)@ == old(self)@.insert(account@, amount@),
            final(self).total() + old(self)@[account@] == old(self).total() + amount@,
    {
        match self.find(account) {
            Some(i) => {
                let acct = self.entries[i].0;
                self.entries[i] = (acct, amount);
                proof {
                    lemma_lookup_at(old(self).entries@, i as int);
                    lemma_entries_update(old(self).entries@, i as int, amount);
                    assert(self@ =~= old(self)@.insert(account@, amount@));
                }
            },
            None => {
                self.entries.push((*account, amount));
                proof {
                    lemma_lookup_absent(old(self).entries@, account@);
                    lemma_entries_push(old(self).entries@, *account, amount);
                    assert(self@ =~= old(self)@.insert(account@, amount@));
                }
            },
        }
    }

    /// Moves `amount` from `sender` to `recipient`, all-or-nothing.
    ///
    /// Both resulting balances are computed and validated before either
    /// write; on any failure the ledger is unchanged. A self-transfer of at
    /// most the sender's own balance succeeds and changes nothing.
    pub fn transfer_balance(
        &mut self,
        sender: Account,
        recipient: Account,
        amount: Amount,
    ) -> (r: Result<(), Error>)
        requires
            old(self).wf(),
        ensures
            final(self).wf(),
            match r {
                Ok(_) => amount@ <= old(self)@[sender@] && final(self)@ == map_transfer(
                    old(self)@,
                    sender@,
                    recipient@,
                    amount@,
                ) && final(self).total() == old(self).total() && (sender@ != recipient@
                    ==> old(self)@[recipient@] + amount@ < amount_limit()),
                Err(e) => *final(self) == *old(self) && match e {
                    Error::InsufficientBalance => amount@ > old(self)@[sender@],
                    Error::Overflow => amount@ <= old(self)@[sender@] && sender@ != recipient@
                        && old(self)@[recipient@] + amount@ >= amount_limit(),
                    Error::InsufficientAllowance => false,
                },
            },
    {
        let sender_balance = self.read_balance(&sender);
        let new_sender_balance = match sender_balance.checked_sub(&amount) {
            None => {
                return Err(Error::InsufficientBalance);
            },
            Some(v) => v,
        };
        if sender.same(&recipient) {
            return Ok(());
        }
        let recipient_balance = self.read_balance(&recipient);
        let new_recipient_balance = match recipient_balance.checked_add(&amount) {
            None => {
                return Err(Error::Overflow);
            },
            Some(v) => v,
        };
        self.write_balance(&sender, new_sender_balance);
        self.write_balance(&recipient, new_recipient_balance);
        proof {
            new_recipient_balance.lemma_bound();
            assert(self@ =~= map_transfer(old(self)@, sender@, recipient@, amount@));
        }
        Ok(())
    }
}

} // verus!
