//! Derivation of storage keys from semantic identities.
//!
//! The balance ledger is keyed by the stringified (hexadecimal) form of a
//! single account identity. The allowance ledger is keyed by an ordered pair
//! of identities: the pair is encoded with an unambiguous delimiter, passed
//! through a fixed-output cryptographic hash, and hex-encoded to a printable
//! key of bounded length. Distinct pairs never collide on the pre-hash input
//! ([`lemma_pair_preimage_injective`]); collision resistance of the digest
//! itself is what the hash is trusted for.

use crate::account::Account;
use blake2::Digest;
use vstd::arithmetic::div_mod::lemma_fundamental_div_mod;
use vstd::prelude::*;
use vstd::string::StringExecFns;

verus! {

/// The lowercase hexadecimal digit for a value below sixteen.
pub open spec fn hex_digit(n: int) -> char {
    if n == 0 {
        '0'
    } else if n == 1 {
        '1'
    } else if n == 2 {
        '2'
    } else if n == 3 {
        '3'
    } else if n == 4 {
        '4'
    } else if n == 5 {
        '5'
    } else if n == 6 {
        '6'
    } else if n == 7 {
        '7'
    } else if n == 8 {
        '8'
    } else if n == 9 {
        '9'
    } else if n == 10 {
        'a'
    } else if n == 11 {
        'b'
    } else if n == 12 {
        'c'
    } else if n == 13 {
        'd'
    } else if n == 14 {
        'e'
    } else {
        'f'
    }
}

/// The lowercase hexadecimal encoding of a byte sequence: two digits per
/// byte, high nibble first.
pub open spec fn hex_of(s: Seq<u8>) -> Seq<char> {
    Seq::new(
        2 * s.len(),
        |i: int|
            if i % 2 == 0 {
                hex_digit(s[i / 2] as int / 16)
            } else {
                hex_digit(s[i / 2] as int % 16)
            },
    )
}

/// The delimited encoding of an ordered (owner, spender) pair that is fed to
/// the hash. The delimiter cannot appear inside an identity's hexadecimal
/// form, so no two distinct pairs share an encoding.
pub open spec fn pair_preimage(owner: Seq<u8>, spender: Seq<u8>) -> Seq<char> {
    hex_of(owner) + seq!['_'] + hex_of(spender)
}

/// The 32-byte BLAKE2b digest of a character sequence; a fixed function of
/// the input alone, left uninterpreted here.
pub uninterp spec fn blake2b_of(s: Seq<char>) -> Seq<u8>;

/// Relies on `hex::encode`: the lowercase hexadecimal form of the input
/// bytes, two digits per byte, high nibble first.
#[verifier::external_body]
fn hex_str(bytes: &[u8]) -> (r: String)
    ensures
        r@ == hex_of(bytes@),
{
    hex::encode(bytes)
}

/// Relies on `blake2::Blake2b256` via the `blake2::Digest` interface: a
/// 32-byte BLAKE2b digest that depends on the hashed characters alone.
#[verifier::external_body]
fn blake2b_digest(s: &str) -> (r: Vec<u8>)
    ensures
        r@ == blake2b_of(s@),
        r@.len() == 32,
{
    let mut hasher = blake2::Blake2b256::new();
    hasher.update(s.as_bytes());
    hasher.finalize().to_vec()
}

/// Storage key of a balance entry: the account identity's stringified
/// (hexadecimal) form.
pub fn account_key(account: &Account) -> (r: String)
    ensures
        r@ == hex_of(account@),
{
    let bytes = account.bytes();
    hex_str(bytes.as_slice())
}

/// Storage key of an allowance entry: the delimited (owner, spender)
/// encoding, hashed to a 32-byte digest and hex-encoded to a printable key.
/// The pair is ordered: owner and spender are not interchangeable.
pub fn allowance_key(owner: &Account, spender: &Account) -> (r: String)
    ensures
        r@ == hex_of(blake2b_of(pair_preimage(owner@, spender@))),
        r@.len() == 64,
{
    let mut preimage = account_key(owner);
    preimage.append("_");
    let spender_hex = account_key(spender);
    preimage.append(spender_hex.as_str());
    proof {
        reveal_strlit("_");
        assert("_"@ =~= seq!['_']);
        assert(preimage@ =~= pair_preimage(owner@, spender@));
    }
    let digest = blake2b_digest(preimage.as_str());
    hex_str(digest.as_slice())
}

/// Hexadecimal digits below sixteen are pairwise distinct.
proof fn lemma_hex_digit_injective(a: int, b: int)
    requires
        0 <= a < 16,
        0 <= b < 16,
        hex_digit(a) == hex_digit(b),
    ensures
        a == b,
{
}

/// A hexadecimal digit is never the pair delimiter.
proof fn lemma_hex_digit_not_delimiter(a: int)
    ensures
        hex_digit(a) != '_',
{
}

/// Distinct byte sequences have distinct hexadecimal encodings.
pub proof fn lemma_hex_of_injective(s1: Seq<u8>, s2: Seq<u8>)
    requires
        hex_of(s1) == hex_of(s2),
    ensures
        s1 == s2,
{
    assert(hex_of(s1).len() == 2 * s1.len());
    assert(hex_of(s2).len() == 2 * s2.len());
    assert(s1.len() == s2.len());
    assert forall|j: int| 0 <= j < s1.len() implies s1[j] == s2[j] by {
        assert(hex_of(s1)[2 * j] == hex_digit(s1[j] as int / 16));
        assert(hex_of(s1)[2 * j + 1] == hex_digit(s1[j] as int % 16));
        assert(hex_of(s2)[2 * j] == hex_digit(s2[j] as int / 16));
        assert(hex_of(s2)[2 * j + 1] == hex_digit(s2[j] as int % 16));
        lemma_hex_digit_injective(s1[j] as int / 16, s2[j] as int / 16);
        lemma_hex_digit_injective(s1[j] as int % 16, s2[j] as int % 16);
        lemma_fundamental_div_mod(s1[j] as int, 16);
        lemma_fundamental_div_mod(s2[j] as int, 16);
    }
    assert(s1 =~= s2);
}

/// No two distinct ordered pairs of identities collide on the pre-hash
/// input; in particular, swapping a distinct owner and spender changes it.
pub proof fn lemma_pair_preimage_injective(
    owner1: Seq<u8>,
    spender1: Seq<u8>,
    owner2: Seq<u8>,
    spender2: Seq<u8>,
)
    requires
        pair_preimage(owner1, spender1) == pair_preimage(owner2, spender2),
    ensures
        owner1 == owner2,
        spender1 == spender2,
{
    let pre = pair_preimage(owner1, spender1);
    if owner1.len() != owner2.len() {
        let shorter = if owner1.len() < owner2.len() {
            owner1.len()
        } else {
            owner2.len()
        };
        assert(pre[2 * shorter as int] == '_');
        if owner1.len() < owner2.len() {
            lemma_hex_digit_not_delimiter(owner2[shorter as int] as int / 16);
        } else {
            lemma_hex_digit_not_delimiter(owner1[shorter as int] as int / 16);
        }
        assert(false);
    }
    let olen = 2 * owner1.len() as int;
    assert(hex_of(owner1) =~= pre.take(olen));
    assert(hex_of(owner2) =~= pre.take(olen));
    lemma_hex_of_injective(owner1, owner2);
    assert(hex_of(spender1) =~= pre.skip(olen + 1));
    assert(hex_of(spender2) =~= pre.skip(olen + 1));
    lemma_hex_of_injective(spender1, spender2);
}

} // verus!
