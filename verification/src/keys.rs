//! Keys, signatures and the symmetric encryption of stored domain names.
//!
//! The schemes here are deliberately plain: a signature is the Blakeout hash
//! of the message framed by the signing key, and domain names are sealed with
//! a Blakeout keystream plus a four-byte tag. Both are exact functions of
//! their inputs, so every check the engine makes over them is provable.

use vstd::prelude::*;

use crate::bytes::{slices_equal, Bytes};
use crate::hashing::{blakeout_hash, hash_of};

verus! {

/// The signature of `msg` under `key`: the hash of the message framed by the key.
pub open spec fn sig_of(key: Seq<u8>, msg: Seq<u8>) -> Seq<u8> {
    hash_of(key + msg + key)
}

/// One byte of the keystream drawn from `key` and `iv`. Stream block `i`
/// is the hash of `key ++ iv ++ [i mod 256]`; blocks are used 32 bytes at a
/// time. A hash that came back shorter than 32 bytes would be padded with
/// zeros; the digest never does that, the branch only keeps the function total.
pub open spec fn stream_byte(key: Seq<u8>, iv: Seq<u8>, i: int) -> u8 {
    let block = hash_of(key + iv + seq![(((i / 32) % 256) as u8)]);
    if i % 32 < block.len() {
        block[i % 32]
    } else {
        0u8
    }
}

/// `body` XORed with the keystream, byte for byte.
pub open spec fn xor_stream(key: Seq<u8>, iv: Seq<u8>, body: Seq<u8>) -> Seq<u8> {
    Seq::new(body.len(), |i: int| body[i] ^ stream_byte(key, iv, i))
}

/// The four-byte tag sealing a plaintext: the head of the hash of
/// `key ++ iv ++ plain`, zero-padded if the digest were ever shorter.
pub open spec fn tag_of(key: Seq<u8>, iv: Seq<u8>, plain: Seq<u8>) -> Seq<u8> {
    let h = hash_of(key + iv + plain);
    Seq::new(4, |i: int| if i < h.len() {
        h[i]
    } else {
        0u8
    })
}

/// What sealing `plain` under `key` and `iv` yields: the tag, then the XORed body.
pub open spec fn encrypt_spec(key: Seq<u8>, iv: Seq<u8>, plain: Seq<u8>) -> Seq<u8> {
    tag_of(key, iv, plain) + xor_stream(key, iv, plain)
}

/// What opening `data` yields: the unXORed body when the tag matches, and the
/// empty string when the data is too short or was sealed under another key or iv.
pub open spec fn decrypt_spec(key: Seq<u8>, iv: Seq<u8>, data: Seq<u8>) -> Seq<u8> {
    if data.len() < 4 {
        Seq::<u8>::empty()
    } else {
        let plain = xor_stream(key, iv, data.skip(4));
        if tag_of(key, iv, plain) == data.take(4) {
            plain
        } else {
            Seq::<u8>::empty()
        }
    }
}

/// Concatenates three byte strings.
fn concat3(a: &[u8], b: &[u8], c: &[u8]) -> (r: Vec<u8>)
    ensures
        r@ == a@ + b@ + c@,
{
    let mut r: Vec<u8> = Vec::new();
    r.extend_from_slice(a);
    r.extend_from_slice(b);
    r.extend_from_slice(c);
    proof {
        assert(r@ =~= a@ + b@ + c@);
    }
    r
}

/// XORs `body` against the keystream of `key` and `iv`. Applying it twice
/// gives the input back; the engine decrypts with the same walk.
fn apply_stream(key: &[u8], iv: &[u8], body: &[u8]) -> (r: Vec<u8>)
    ensures
        r@ == xor_stream(key@, iv@, body@),
{
    let mut r: Vec<u8> = Vec::new();
    let mut block: Vec<u8> = Vec::new();
    let mut i: usize = 0;
    while i < body.len()
        invariant
            i <= body@.len(),
            r@.len() == i,
            forall|j: int| 0 <= j < i ==> r@[j] == body@[j] ^ stream_byte(key@, iv@, j),
            i % 32 != 0 && i < body@.len() ==> block@ == hash_of(
                key@ + iv@ + seq![(((i as int / 32) % 256) as u8)],
            ) && block@.len() == 32,
        decreases body@.len() - i,
    {
        if i % 32 == 0 {
            let counter: u8 = ((i / 32) % 256) as u8;
            let mut tail: Vec<u8> = Vec::new();
            tail.push(counter);
            proof {
                assert(tail@ =~= seq![(((i as int / 32) % 256) as u8)]);
            }
            block = blakeout_hash(concat3(key, iv, tail.as_slice()).as_slice());
        }
        let b = *vstd::slice::slice_index_get(body, i);
        let s = block[i % 32];
        proof {
            assert(s == stream_byte(key@, iv@, i as int));
        }
        r.push(b ^ s);
        i = i + 1;
    }
    proof {
        assert(r@ =~= xor_stream(key@, iv@, body@));
    }
    r
}

/// The four-byte tag over `plain`.
fn make_tag(key: &[u8], iv: &[u8], plain: &[u8]) -> (r: Vec<u8>)
    ensures
        r@ == tag_of(key@, iv@, plain@),
{
    let h = blakeout_hash(concat3(key, iv, plain).as_slice());
    let mut r: Vec<u8> = Vec::new();
    r.push(h[0]);
    r.push(h[1]);
    r.push(h[2]);
    r.push(h[3]);
    proof {
        assert(r@ =~= tag_of(key@, iv@, plain@));
    }
    r
}

/// The miner's key material. The public key doubles as the signing secret:
/// signatures here are keyed hashes, not asymmetric cryptography, and the
/// whole chain checks them with the same rule it mints them by.
pub struct Keystore {
    public: Bytes,
}

impl View for Keystore {
    type V = Seq<u8>;

    closed spec fn view(&self) -> Seq<u8> {
        self.public@
    }
}

impl Clone for Keystore {
    fn clone(&self) -> (r: Self)
        ensures
            r@ == self@,
    {
        Keystore { public: self.public.clone() }
    }
}

impl Keystore {
    /// A keystore around a public key.
    pub fn from_bytes(public: Bytes) -> (r: Keystore)
        ensures
            r@ == public@,
    {
        Keystore { public }
    }

    /// The public key this store mines and signs under.
    pub fn get_public(&self) -> (r: Bytes)
        ensures
            r@ == self@,
    {
        self.public.clone()
    }

    /// Signs a message.
    pub fn sign(&self, msg: &[u8]) -> (r: Bytes)
        ensures
            r@ == sig_of(self@, msg@),
    {
        let framed = concat3(self.public.as_slice(), msg, self.public.as_slice());
        Bytes::from_vec(blakeout_hash(framed.as_slice()))
    }

    /// Seals a name under this key and the given IV.
    pub fn encrypt(&self, plain: &[u8], iv: &[u8]) -> (r: Bytes)
        ensures
            r@ == encrypt_spec(self@, iv@, plain@),
    {
        let mut data = make_tag(self.public.as_slice(), iv, plain);
        let mut body = apply_stream(self.public.as_slice(), iv, plain);
        data.append(&mut body);
        proof {
            assert(data@ =~= encrypt_spec(self@, iv@, plain@));
        }
        Bytes::from_vec(data)
    }

    /// Opens sealed data; a wrong key or IV comes back as the empty string.
    pub fn decrypt(&self, data: &[u8], iv: &[u8]) -> (r: Bytes)
        ensures
            r@ == decrypt_spec(self@, iv@, data@),
    {
        if data.len() < 4 {
            return Bytes::empty();
        }
        let (tag, body) = data.split_at(4);
        let plain = apply_stream(self.public.as_slice(), iv, body);
        let expect = make_tag(self.public.as_slice(), iv, plain.as_slice());
        proof {
            assert(body@ =~= data@.skip(4));
            assert(tag@ =~= data@.take(4));
        }
        if slices_equal(tag, expect.as_slice()) {
            Bytes::from_vec(plain)
        } else {
            Bytes::empty()
        }
    }
}

} // verus!
