//! The allowance ledger: a mapping from an ordered (owner, spender) pair to
//! the non-negative cap the spender may still move out of the owner's
//! balance.
//!
//! An allowance is advisory spending authorization, not a reservation: it is
//! independent of the owner's current balance and may legally exceed it.
//! Absence of an entry reads as zero, so the ledger's view is a total map
//! from identity pairs to values. The pair is ordered: the allowance of
//! (owner, spender) says nothing about (spender, owner).

use crate::account::Account;
use crate::amount::Amount;
use vstd::prelude::*;

verus! {

/// The view of a stored pair entry's key.
pub open spec fn pair_key(e: (Account, Account, Amount)) -> (Seq<u8>, Seq<u8>) {
    (e.0@, e.1@)
}

/// No (owner, spender) pair appears twice among the stored entries.
pub open spec fn unique_pairs(s: Seq<(Account, Account, Amount)>) -> bool {
    forall|i: int, j: int| 0 <= i < j < s.len() ==> pair_key(s[i]) != pair_key(s[j])
}

/// The stored cap for a pair, or zero when absent.
pub open spec fn pairs_lookup(s: Seq<(Account, Account, Amount)>, key: (Seq<u8>, Seq<u8>)) -> nat
    decreases s.len(),
{
    if s.len() == 0 {
        0
    } else if pair_key(s[0]) == key {
        s[0].2@
    } else {
        pairs_lookup(s.drop_first(), key)
    }
}

/// With unique pairs, the lookup of an entry's own key yields its value.
proof fn lemma_pairs_lookup_at(s: Seq<(Account, Account, Amount)>, i: int)
    requires
        unique_pairs(s),
        0 <= i < s.len(),
    ensures
        pairs_lookup(s, pair_key(s[i])) == s[i].2@,
    decreases i,
{
    if i > 0 {
        assert(unique_pairs(s.drop_first()));
        lemma_pairs_lookup_at(s.drop_first(), i - 1);
    }
}

/// The lookup of a pair under which nothing is stored yields zero.
proof fn lemma_pairs_lookup_absent(s: Seq<(Account, Account, Amount)>, key: (Seq<u8>, Seq<u8>))
    requires
        forall|i: int| 0 <= i < s.len() ==> pair_key(s[i]) != key,
    ensures
        pairs_lookup(s, key) == 0,
    decreases s.len(),
{
    if s.len() > 0 {
        lemma_pairs_lookup_absent(s.drop_first(), key);
    }
}

/// Overwriting one entry's value changes exactly that pair's lookup.
proof fn lemma_pairs_update(s: Seq<(Account, Account, Amount)>, i: int, v: Amount)
    requires
        unique_pairs(s),
        0 <= i < s.len(),
    ensures
        unique_pairs(s.update(i, (s[i].0, s[i].1, v))),
        forall|k: (Seq<u8>, Seq<u8>)|
            pairs_lookup(s.update(i, (s[i].0, s[i].1, v)), k) == if k == pair_key(s[i]) {
                v@
            } else {
                pairs_lookup(s, k)
            },
    decreases i,
{
    let t = s.update(i, (s[i].0, s[i].1, v));
    if i == 0 {
        assert(t.drop_first() =~= s.drop_first());
    } else {
        assert(unique_pairs(s.drop_first()));
        lemma_pairs_update(s.drop_first(), i - 1, v);
        assert(t.drop_first() =~= s.drop_first().update(i - 1, (s[i].0, s[i].1, v)));
        assert(t[0] == s[0]);
        assert forall|k: (Seq<u8>, Seq<u8>)|
            pairs_lookup(t, k) == (if k == pair_key(s[i]) {
                v@
            } else {
                pairs_lookup(s, k)
            }) by {
            let sd = s.drop_first();
            assert(pairs_lookup(sd.update(i - 1, (sd[i - 1].0, sd[i - 1].1, v)), k) == (if k
                == pair_key(sd[i - 1]) {
                v@
            } else {
                pairs_lookup(sd, k)
            }));
            assert(pairs_lookup(t, k) == if pair_key(t[0]) == k {
                t[0].2@
            } else {
                pairs_lookup(t.drop_first(), k)
            });
            if k == pair_key(s[i]) {
                assert(pair_key(s[0]) != pair_key(s[i]));
            }
        }
    }
}

/// Appending an entry under a fresh pair keeps the pairs unique and gives
/// that pair the new value.
proof fn lemma_pairs_push(s: Seq<(Account, Account, Amount)>, o: Account, p: Account, v: Amount)
    requires
        unique_pairs(s),
        forall|i: int| 0 <= i < s.len() ==> pair_key(s[i]) != (o@, p@),
    ensures
        unique_pairs(s.push((o, p, v))),
        forall|k: (Seq<u8>, Seq<u8>)|
            pairs_lookup(s.push((o, p, v)), k) == if k == (o@, p@) {
                v@
            } else {
                pairs_lookup(s, k)
            },
    decreases s.len(),
{
    let t = s.push((o, p, v));
    if s.len() == 0 {
        assert(t.drop_first() =~= Seq::<(Account, Account, Amount)>::empty());
        assert(t[0] == (o, p, v));
        assert forall|k: (Seq<u8>, Seq<u8>)|
            pairs_lookup(t, k) == (if k == (o@, p@) {
                v@
            } else {
                pairs_lookup(s, k)
            }) by {
            assert(pairs_lookup(t.drop_first(), k) == 0);
        }
    } else {
        assert(unique_pairs(s.drop_first()));
        lemma_pairs_push(s.drop_first(), o, p, v);
        assert(t.drop_first() =~= s.drop_first().push((o, p, v)));
        assert(t[0] == s[0]);
        assert forall|k: (Seq<u8>, Seq<u8>)|
            pairs_lookup(t, k) == (if k == (o@, p@) {
                v@
            } else {
                pairs_lookup(s, k)
            }) by {
            let sd = s.drop_first();
            assert(pairs_lookup(sd.push((o, p, v)), k) == (if k == (o@, p@) {
                v@
            } else {
                pairs_lookup(sd, k)
            }));
            assert(pairs_lookup(t, k) == if pair_key(t[0]) == k {
                t[0].2@
            } else {
                pairs_lookup(t.drop_first(), k)
            });
            if k == (o@, p@) {
                assert(pair_key(s[0]) != (o@, p@));
            }
        }
    }
}

/// The (owner, spender)-to-cap ledger.
pub struct AllowanceLedger {
    entries: Vec<(Account, Account, Amount)>,
}

impl View for AllowanceLedger {
    type V = Map<(Seq<u8>, Seq<u8>), nat>;

    /// The ledger as a total map: absent pairs read as zero.
    closed spec fn view(&self) -> Map<(Seq<u8>, Seq<u8>), nat> {
        Map::total(|key: (Seq<u8>, Seq<u8>)| pairs_lookup(self.entries@, key))
    }
}

impl AllowanceLedger {
    /// The stored entries have no duplicate pair.
    pub closed spec fn wf(&self) -> bool {
        unique_pairs(self.entries@)
    }

    /// An empty ledger: every allowance is zero.
    pub fn new() -> (r: AllowanceLedger)
        ensures
            r.wf(),
            forall|k: (Seq<u8>, Seq<u8>)| r@[k] == 0,
    {
        AllowanceLedger { entries: Vec::new() }
    }

    /// The index holding a pair's entry, if one exists.
    fn find(&self, owner: &Account, spender: &Account) -> (r: Option<usize>)
        ensures
            match r {
                Some(i) => i < self.entries@.len() && pair_key(self.entries@[i as int]) == (
                    owner@,
                    spender@,
                ),
                None => forall|i: int|
                    0 <= i < self.entries@.len() ==> pair_key(self.entries@[i]) != (
                        owner@,
                        spender@,
                    ),
            },
    {
        let mut i: usize = 0;
        while i < self.entries.len()
            invariant
                i <= self.entries@.len(),
                forall|j: int| 0 <= j < i ==> pair_key(self.entries@[j]) != (owner@, spender@),
            decreases self.entries@.len() - i,
        {
            if self.entries[i].0.same(owner) && self.entries[i].1.same(spender) {
                return Some(i);
            }
            i += 1;
        }
        None
    }

    /// Reads the cap stored for (owner, spender); a pair without an entry
    /// has cap zero. Never fails.
    pub fn read_allowance(&self, owner: &Account, spender: &Account) -> (r: Amount)
        requires
            self.wf(),
        ensures
            r@ == self@[(owner@, spender@)],
    {
        match self.find(owner, spender) {
            Some(i) => {
                let v = self.entries[i].2;
                proof {
                    lemma_pairs_lookup_at(self.entries@, i as int);
                }
                v
            },
            None => {
                proof {
                    lemma_pairs_lookup_absent(self.entries@, (owner@, spender@));
                }
                Amount::zero()
            },
        }
    }

    /// Unconditionally overwrites the cap stored for (owner, spender); used
    /// both to grant a fresh allowance and to record the reduced remainder
    /// after a spend. Never fails.
    pub fn write_allowance(&mut self, owner: &Account, spender: &Account, amount: Amount)
        requires
            old(self).wf(),
        ensures
            final(self).wf(),
            final(self)@ == old(self)@.insert((owner@, spender@), amount@),
    {
        match self.find(owner, spender) {
            Some(i) => {
                let entry_owner = self.entries[i].0;
                let entry_spender = self.entries[i].1;
                self.entries[i] = (entry_owner, entry_spender, amount);
                proof {
                    lemma_pairs_update(old(self).entries@, i as int, amount);
                    assert(self@ =~= old(self)@.insert((owner@, spender@), amount@));
                }
            },
            None => {
                self.entries.push((*owner, *spender, amount));
                proof {
                    lemma_pairs_push(old(self).entries@, *owner, *spender, amount);
                    assert(self@ =~= old(self)@.insert((owner@, spender@), amount@));
                }
            },
        }
    }
}

} // verus!
