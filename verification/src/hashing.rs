//! Hashing and proof-of-work measurement.
//!
//! The chain hashes with Blakeout, a memory-hard digest. Its result is opaque
//! here: `hash_of` names it, and everything the engine proves about hashes
//! goes through that name.

use vstd::prelude::*;

use crate::bytes::Bytes;

verus! {

/// What the Blakeout digest returns for a byte string. The digest is a pure
/// function of its input, so the result can carry a name; nothing else is
/// assumed about it.
pub uninterp spec fn hash_of(data: Seq<u8>) -> Seq<u8>;

/// Relies on `blakeout::Blakeout` (`update` then `result`): the digest is a
/// function of the input bytes alone, and `result` always holds 32 bytes.
#[verifier::external_body]
pub(crate) fn blakeout_hash(data: &[u8]) -> (r: Vec<u8>)
    ensures
        r@ == hash_of(data@),
        r@.len() == 32,
{
    let mut digest = blakeout::Blakeout::default();
    digest.update(data);
    digest.result().to_vec()
}

/// Leading zero bits of one byte.
pub open spec fn lz_byte(b: u8) -> nat {
    if b >= 128 {
        0
    } else if b >= 64 {
        1
    } else if b >= 32 {
        2
    } else if b >= 16 {
        3
    } else if b >= 8 {
        4
    } else if b >= 4 {
        5
    } else if b >= 2 {
        6
    } else if b >= 1 {
        7
    } else {
        8
    }
}

/// Leading zero bits of a byte string, read from the front.
pub open spec fn lz_bits(s: Seq<u8>) -> nat
    decreases s.len(),
{
    if s.len() == 0 {
        0
    } else if s.first() == 0 {
        8 + lz_bits(s.drop_first())
    } else {
        lz_byte(s.first())
    }
}

/// Leading zero bits of one byte, as executable code.
fn leading_zero_bits_of_byte(b: u8) -> (r: u32)
    ensures
        r == lz_byte(b),
{
    if b >= 128 {
        0
    } else if b >= 64 {
        1
    } else if b >= 32 {
        2
    } else if b >= 16 {
        3
    } else if b >= 8 {
        4
    } else if b >= 4 {
        5
    } else if b >= 2 {
        6
    } else if b >= 1 {
        7
    } else {
        8
    }
}

/// The difficulty a hash achieves: its count of leading zero bits.
pub fn hash_difficulty(data: &[u8]) -> (r: u32)
    requires
        data@.len() <= 0x1000_0000,
    ensures
        r == lz_bits(data@),
{
    let mut i: usize = 0;
    proof {
        assert(data@.skip(0) =~= data@);
    }
    while i < data.len()
        invariant
            i <= data@.len(),
            data@.len() <= 0x1000_0000,
            forall|j: int| 0 <= j < i ==> data@[j] == 0u8,
            lz_bits(data@.skip(i as int)) + 8 * i == lz_bits(data@),
        decreases data@.len() - i,
    {
        let b = *vstd::slice::slice_index_get(data, i);
        proof {
            assert(data@.skip(i as int).len() > 0);
            assert(data@.skip(i as int).first() == data@[i as int]);
            assert(data@.skip(i as int).drop_first() =~= data@.skip(i + 1));
        }
        if b != 0 {
            let r = leading_zero_bits_of_byte(b);
            return r + 8 * (i as u32);
        }
        i = i + 1;
    }
    proof {
        assert(data@.skip(data@.len() as int) =~= Seq::<u8>::empty());
    }
    8 * (i as u32)
}

/// The difficulty a byte string achieves, for callers that hold `Bytes`.
pub fn difficulty_of(data: &Bytes) -> (r: u32)
    requires
        data@.len() <= 0x1000_0000,
    ensures
        r == lz_bits(data@),
{
    hash_difficulty(data.as_slice())
}

/// Whether a hash reaches a difficulty target, for hashes of any length.
pub fn meets_difficulty(hash: &crate::bytes::Bytes, target: u32) -> (r: bool)
    ensures
        r == (lz_bits(hash@) >= target),
{
    let ghost s = hash@;
    if target == 0 {
        return true;
    }
    let len = hash.len();
    let mut i: usize = 0;
    proof {
        assert(s.skip(0) =~= s);
    }
    while i < len
        invariant
            i <= s.len(),
            len == s.len(),
            s == hash@,
            8 * (i as nat) < target,
            forall|j: int| 0 <= j < i ==> s[j] == 0u8,
            lz_bits(s.skip(i as int)) + 8 * i == lz_bits(s),
        decreases s.len() - i,
    {
        let b = hash.byte_at(i);
        proof {
            assert(s.skip(i as int).len() > 0);
            assert(s.skip(i as int).first() == s[i as int]);
            assert(s.skip(i as int).drop_first() =~= s.skip(i + 1));
        }
        if b != 0 {
            let head = leading_zero_bits_of_byte(b);
            return 8 * (i as u64) + (head as u64) >= target as u64;
        }
        if 8 * ((i as u64) + 1) >= target as u64 {
            return true;
        }
        i = i + 1;
    }
    proof {
        assert(s.skip(s.len() as int) =~= Seq::<u8>::empty());
    }
    false
}

/// Hash of a whole byte string.
pub fn hash_bytes(data: &[u8]) -> (r: Bytes)
    ensures
        r@ == hash_of(data@),
        r@.len() == 32,
{
    Bytes::from_vec(blakeout_hash(data))
}

/// The identity of a zone or domain label: the hash of its UTF-8 bytes. The
/// chain stores identities instead of labels, so lookups never reveal names.
pub fn hash_identity(domain: &str) -> (r: Bytes)
    ensures
        r@ == hash_of(vstd::string::StringSliceAdditionalSpecFns::spec_bytes(domain)),
        r@.len() == 32,
{
    hash_bytes(domain.as_bytes())
}

/// A key is strong enough when the hash of the key reaches `strength` leading
/// zero bits; weak keys are cheap to grind and may not mine.
pub open spec fn key_strong(key: Seq<u8>, strength: u32) -> bool {
    lz_bits(hash_of(key)) >= strength
}

/// Checks the strength of a public key.
pub fn check_public_key_strength(key: &Bytes, strength: u32) -> (r: bool)
    ensures
        r == key_strong(key@, strength),
{
    let h = blakeout_hash(key.as_slice());
    let d = hash_difficulty(h.as_slice());
    d >= strength
}

} // verus!
