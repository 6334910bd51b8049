//! 512-bit unsigned token amounts.
//!
//! A token amount is a fixed-width unsigned integer wide enough to hold any
//! declared total supply. It is stored as little-endian 64-bit limbs; its
//! mathematical value is the spec function [`limbs_value`] over the limb
//! sequence, and every balance is structurally non-negative. Arithmetic is
//! checked: an operation whose exact result does not fit reports `None`
//! instead of wrapping.

use vstd::prelude::*;
use vstd::arithmetic::div_mod::{lemma_fundamental_div_mod, lemma_mod_bound};
use vstd::arithmetic::power2::*;

verus! {

/// Number of 64-bit limbs in an amount.
pub const LIMB_COUNT: usize = 8;

/// The weight of one limb position: 2^64.
pub open spec fn limb_base() -> nat {
    0x1_0000_0000_0000_0000
}

/// The mathematical value of a little-endian limb sequence.
pub open spec fn limbs_value(s: Seq<u64>) -> nat
    decreases s.len(),
{
    if s.len() == 0 {
        0
    } else {
        s[0] as nat + limb_base() * limbs_value(s.drop_first())
    }
}

/// One more than the largest representable amount: 2^512.
pub open spec fn amount_limit() -> nat {
    pow2(512)
}

/// A limb sequence is worth less than 2^(64 * length).
pub proof fn lemma_limbs_value_bound(s: Seq<u64>)
    ensures
        limbs_value(s) < pow2((64 * s.len()) as nat),
    decreases s.len(),
{
    if s.len() == 0 {
        lemma_pow2_pos(0);
    } else {
        let rest = s.drop_first();
        let rest_width = (64 * rest.len()) as nat;
        lemma_limbs_value_bound(rest);
        lemma_pow2_adds(64, rest_width);
        lemma2_to64_rest();
        assert(limb_base() * limbs_value(rest) <= limb_base() * (pow2(rest_width) - 1))
            by (nonlinear_arith)
            requires
                limbs_value(rest) <= pow2(rest_width) - 1,
        ;
        assert(limb_base() * (pow2(rest_width) - 1) == limb_base() * pow2(rest_width) - limb_base())
            by (nonlinear_arith);
    }
}

/// An all-zero limb sequence is worth zero.
pub proof fn lemma_limbs_value_zero(s: Seq<u64>)
    requires
        forall|j: int| 0 <= j < s.len() ==> s[j] == 0,
    ensures
        limbs_value(s) == 0,
    decreases s.len(),
{
    if s.len() > 0 {
        lemma_limbs_value_zero(s.drop_first());
    }
}

/// Extending a prefix by one limb adds that limb at its positional weight.
pub proof fn lemma_limbs_value_take_succ(s: Seq<u64>, i: int)
    requires
        0 <= i < s.len(),
    ensures
        limbs_value(s.take(i + 1)) == limbs_value(s.take(i)) + s[i] * pow2((64 * i) as nat),
    decreases i,
{
    if i == 0 {
        assert(s.take(1).drop_first() =~= Seq::<u64>::empty());
        assert(s.take(0) =~= Seq::<u64>::empty());
        assert(s.take(1)[0] == s[0]);
        lemma2_to64();
        assert(limbs_value(s.take(1)) == s[0] as nat + limb_base() * limbs_value(Seq::<u64>::empty()));
        assert((64 * i) as nat == 0);
        assert(pow2((64 * i) as nat) == 1);
        assert(s[i] * pow2((64 * i) as nat) == s[i]) by (nonlinear_arith)
            requires
                pow2((64 * i) as nat) == 1,
        ;
        assert(limbs_value(s.take(i + 1)) == limbs_value(s.take(i)) + s[i] * pow2((64 * i) as nat));
    } else {
        let rest = s.drop_first();
        lemma_limbs_value_take_succ(rest, i - 1);
        assert(s.take(i + 1).drop_first() =~= rest.take(i));
        assert(s.take(i).drop_first() =~= rest.take(i - 1));
        assert(s.take(i + 1)[0] == s[0]);
        assert(s.take(i)[0] == s[0]);
        let low_width = (64 * (i - 1)) as nat;
        lemma_pow2_adds(64, low_width);
        lemma2_to64_rest();
        assert(limbs_value(s.take(i + 1)) == s[0] as nat + limb_base() * limbs_value(rest.take(i)));
        assert(limbs_value(s.take(i)) == s[0] as nat + limb_base() * limbs_value(rest.take(i - 1)));
        assert(limbs_value(rest.take(i))
            == limbs_value(rest.take(i - 1)) + rest[i - 1] * pow2(low_width));
        assert(limb_base() * (limbs_value(rest.take(i - 1)) + rest[i - 1] * pow2(low_width))
            == limb_base() * limbs_value(rest.take(i - 1))
                + rest[i - 1] * (limb_base() * pow2(low_width))) by (nonlinear_arith);
        assert(rest[i - 1] == s[i]);
        assert(limb_base() * pow2(low_width) == pow2((64 * i) as nat));
    }
}

/// A value below twice the limb base splits into a quotient of at most one
/// and a remainder below the base.
proof fn lemma_limb_split(s: u128)
    requires
        s < 2 * limb_base(),
    ensures
        (s as nat) / limb_base() <= 1,
        (s as nat) % limb_base() < limb_base(),
        s == limb_base() * ((s as nat) / limb_base()) + (s as nat) % limb_base(),
{
    lemma_fundamental_div_mod(s as int, limb_base() as int);
    lemma_mod_bound(s as int, limb_base() as int);
    let q = (s as int) / (limb_base() as int);
    let m = (s as int) % (limb_base() as int);
    assert(q <= 1) by (nonlinear_arith)
        requires
            s as int == limb_base() * q + m,
            0 <= m,
            s < 2 * limb_base(),
            limb_base() == 0x1_0000_0000_0000_0000,
    ;
    assert(q >= 0) by (nonlinear_arith)
        requires
            s as int == limb_base() * q + m,
            m < limb_base(),
            s >= 0,
            limb_base() == 0x1_0000_0000_0000_0000,
    ;
}

/// An unsigned token amount of [`LIMB_COUNT`] 64-bit limbs.
#[derive(Clone, Copy, Debug, PartialEq, Eq, Hash)]
pub struct Amount {
    limbs: [u64; LIMB_COUNT],
}

impl View for Amount {
    type V = nat;

    closed spec fn view(&self) -> nat {
        limbs_value(self.limbs@)
    }
}

impl Amount {
    /// Every representable amount is below [`amount_limit`].
    pub proof fn lemma_bound(&self)
        ensures
            self@ < amount_limit(),
    {
        lemma_limbs_value_bound(self.limbs@);
    }

    /// The zero amount.
    pub fn zero() -> (r: Amount)
        ensures
            r@ == 0,
    {
        Amount::from_u64(0)
    }

    /// The amount worth a single 64-bit value.
    pub fn from_u64(v: u64) -> (r: Amount)
        ensures
            r@ == v as nat,
    {
        let mut limbs: [u64; LIMB_COUNT] = [0; LIMB_COUNT];
        limbs[0] = v;
        proof {
            lemma_limbs_value_zero(limbs@.drop_first());
        }
        Amount { limbs }
    }

    /// The amount worth a little-endian limb array.
    pub fn from_limbs(limbs: [u64; LIMB_COUNT]) -> (r: Amount)
        ensures
            r@ == limbs_value(limbs@),
    {
        Amount { limbs }
    }

    /// The amount's little-endian limbs.
    pub fn limbs(&self) -> (r: [u64; LIMB_COUNT])
        ensures
            limbs_value(r@) == self@,
    {
        self.limbs
    }

    /// Adds two amounts, reporting `None` when the exact sum would not fit.
    pub fn checked_add(&self, other: &Amount) -> (r: Option<Amount>)
        ensures
            match r {
                Some(c) => c@ == self@ + other@,
                None => self@ + other@ >= amount_limit(),
            },
    {
        let mut out: [u64; LIMB_COUNT] = [0; LIMB_COUNT];
        let mut carry: u64 = 0;
        let mut i: usize = 0;
        while i < LIMB_COUNT
            invariant
                i <= LIMB_COUNT,
                carry <= 1,
                limbs_value(out@.take(i as int)) + (carry as nat) * pow2((64 * i) as nat)
                    == limbs_value(self.limbs@.take(i as int))
                        + limbs_value(other.limbs@.take(i as int)),
            decreases LIMB_COUNT - i,
        {
            let ghost out_prev = out@;
            let ghost carry_prev = carry;
            let sum: u128 = self.limbs[i] as u128 + other.limbs[i] as u128 + carry as u128;
            proof {
                lemma_limb_split(sum);
            }
            let lo: u64 = (sum % 0x1_0000_0000_0000_0000u128) as u64;
            let hi: u64 = (sum / 0x1_0000_0000_0000_0000u128) as u64;
            out[i] = lo;
            carry = hi;
            proof {
                let idx = i as int;
                let position = pow2((64 * idx) as nat);
                let next_position = pow2((64 * (idx + 1)) as nat);
                lemma_pow2_adds(64, (64 * idx) as nat);
                lemma2_to64_rest();
                assert(next_position == limb_base() * position);
                assert(out@.take(idx) =~= out_prev.take(idx));
                lemma_limbs_value_take_succ(out@, idx);
                lemma_limbs_value_take_succ(self.limbs@, idx);
                lemma_limbs_value_take_succ(other.limbs@, idx);
                assert(out@[idx] == lo);
                let a_low = limbs_value(self.limbs@.take(idx));
                let b_low = limbs_value(other.limbs@.take(idx));
                let o_low = limbs_value(out_prev.take(idx));
                let av = self.limbs@[idx] as int;
                let bv = other.limbs@[idx] as int;
                assert(limbs_value(out@.take(idx + 1)) + (hi as nat) * next_position
                    == a_low + b_low + (av + bv) * position) by (nonlinear_arith)
                    requires
                        limbs_value(out@.take(idx + 1)) == o_low + (lo as nat) * position,
                        next_position == limb_base() * position,
                        sum == limb_base() * ((sum as nat) / limb_base())
                            + (sum as nat) % limb_base(),
                        lo == (sum as nat) % limb_base(),
                        hi == (sum as nat) / limb_base(),
                        sum == av + bv + carry_prev,
                        o_low + (carry_prev as nat) * position == a_low + b_low,
                ;
                assert(limbs_value(self.limbs@.take(idx + 1))
                    == a_low + av * position);
                assert(limbs_value(other.limbs@.take(idx + 1))
                    == b_low + bv * position);
                assert((av + bv) * position == av * position + bv * position)
                    by (nonlinear_arith);
            }
            i += 1;
        }
        proof {
            assert(out@.take(LIMB_COUNT as int) =~= out@);
            assert(self.limbs@.take(LIMB_COUNT as int) =~= self.limbs@);
            assert(other.limbs@.take(LIMB_COUNT as int) =~= other.limbs@);
            if carry == 0 {
                assert((carry as nat) * pow2(512) == 0) by (nonlinear_arith)
                    requires
                        carry == 0,
                ;
            } else {
                assert((carry as nat) * pow2(512) == pow2(512)) by (nonlinear_arith)
                    requires
                        carry == 1,
                ;
            }
        }
        if carry == 0 {
            Some(Amount { limbs: out })
        } else {
            None
        }
    }

    /// Subtracts `other` from `self`, reporting `None` when the result would
    /// be negative.
    pub fn checked_sub(&self, other: &Amount) -> (r: Option<Amount>)
        ensures
            match r {
                Some(c) => self@ >= other@ && c@ == self@ - other@,
                None => self@ < other@,
            },
    {
        let mut out: [u64; LIMB_COUNT] = [0; LIMB_COUNT];
        let mut borrow: u64 = 0;
        let mut i: usize = 0;
        while i < LIMB_COUNT
            invariant
                i <= LIMB_COUNT,
                borrow <= 1,
                limbs_value(out@.take(i as int))
                    == limbs_value(self.limbs@.take(i as int))
                        - limbs_value(other.limbs@.take(i as int))
                        + (borrow as int) * pow2((64 * i) as nat),
            decreases LIMB_COUNT - i,
        {
            let ghost out_prev = out@;
            let ghost borrow_prev = borrow;
            let minuend: u128 = self.limbs[i] as u128;
            let subtrahend: u128 = other.limbs[i] as u128 + borrow as u128;
            let lo: u64;
            let next_borrow: u64;
            if minuend >= subtrahend {
                lo = (minuend - subtrahend) as u64;
                next_borrow = 0;
            } else {
                lo = (minuend + 0x1_0000_0000_0000_0000u128 - subtrahend) as u64;
                next_borrow = 1;
            }
            out[i] = lo;
            borrow = next_borrow;
            proof {
                let idx = i as int;
                let position = pow2((64 * idx) as nat);
                let next_position = pow2((64 * (idx + 1)) as nat);
                lemma_pow2_adds(64, (64 * idx) as nat);
                lemma2_to64_rest();
                assert(next_position == limb_base() * position);
                assert(out@.take(idx) =~= out_prev.take(idx));
                lemma_limbs_value_take_succ(out@, idx);
                lemma_limbs_value_take_succ(self.limbs@, idx);
                lemma_limbs_value_take_succ(other.limbs@, idx);
                assert(out@[idx] == lo);
                let a_low = limbs_value(self.limbs@.take(idx));
                let b_low = limbs_value(other.limbs@.take(idx));
                let o_low = limbs_value(out_prev.take(idx));
                let av = self.limbs@[idx] as int;
                let bv = other.limbs@[idx] as int;
                assert(limbs_value(out@.take(idx + 1))
                    == a_low - b_low + (av - bv) * position
                        + (next_borrow as int) * next_position) by (nonlinear_arith)
                    requires
                        limbs_value(out@.take(idx + 1)) == o_low + (lo as nat) * position,
                        next_position == limb_base() * position,
                        lo == av - bv - borrow_prev + (next_borrow as int) * limb_base(),
                        o_low == a_low - b_low + (borrow_prev as int) * position,
                ;
                assert(limbs_value(self.limbs@.take(idx + 1))
                    == a_low + av * position);
                assert(limbs_value(other.limbs@.take(idx + 1))
                    == b_low + bv * position);
                assert((av - bv) * position == av * position - bv * position)
                    by (nonlinear_arith);
            }
            i += 1;
        }
        proof {
            assert(out@.take(LIMB_COUNT as int) =~= out@);
            assert(self.limbs@.take(LIMB_COUNT as int) =~= self.limbs@);
            assert(other.limbs@.take(LIMB_COUNT as int) =~= other.limbs@);
            lemma_limbs_value_bound(out@);
            if borrow == 0 {
                assert((borrow as int) * pow2(512) == 0) by (nonlinear_arith)
                    requires
                        borrow == 0,
                ;
            } else {
                assert((borrow as int) * pow2(512) == pow2(512)) by (nonlinear_arith)
                    requires
                        borrow == 1,
                ;
            }
        }
        if borrow == 0 {
            Some(Amount { limbs: out })
        } else {
            None
        }
    }
}

} // verus!
