//! Raw byte strings: hashes, public keys, signatures and identities.

use vstd::prelude::*;

verus! {

/// An owned byte string. Hashes, keys, signatures, identities and
/// confirmation salts are all carried in this form.
#[derive(Debug)]
pub struct Bytes {
    data: Vec<u8>,
}

impl View for Bytes {
    type V = Seq<u8>;

    closed spec fn view(&self) -> Seq<u8> {
        self.data@
    }
}

/// A byte string counts as zero when no byte of it is set; the empty string
/// is zero too. A zero `origin` means "no genesis hash is configured".
pub open spec fn all_zero(s: Seq<u8>) -> bool {
    forall|i: int| 0 <= i < s.len() ==> s[i] == 0u8
}

impl Bytes {
    /// Copies a slice into an owned byte string.
    pub fn from_bytes(data: &[u8]) -> (r: Bytes)
        ensures
            r@ == data@,
    {
        Bytes { data: vstd::slice::slice_to_vec(data) }
    }

    /// Takes ownership of a byte vector.
    pub fn from_vec(data: Vec<u8>) -> (r: Bytes)
        ensures
            r@ == data@,
    {
        Bytes { data }
    }

    /// The empty byte string.
    pub fn empty() -> (r: Bytes)
        ensures
            r@ == Seq::<u8>::empty(),
    {
        Bytes { data: Vec::new() }
    }

    /// Thirty-two zero bytes: the shape of an unset origin hash.
    pub fn zero32() -> (r: Bytes)
        ensures
            r@.len() == 32,
            all_zero(r@),
    {
        let mut data: Vec<u8> = Vec::new();
        let mut i: usize = 0;
        while i < 32
            invariant
                i <= 32,
                data@.len() == i,
                all_zero(data@),
            decreases 32 - i,
        {
            data.push(0u8);
            i = i + 1;
        }
        Bytes { data }
    }

    pub fn len(&self) -> (r: usize)
        ensures
            r == self@.len(),
    {
        self.data.len()
    }

    pub fn is_empty(&self) -> (r: bool)
        ensures
            r == (self@.len() == 0),
    {
        self.data.len() == 0
    }

    /// True when every byte is zero (the empty string included).
    pub fn is_zero(&self) -> (r: bool)
        ensures
            r == all_zero(self@),
    {
        let mut i: usize = 0;
        while i < self.data.len()
            invariant
                i <= self.data@.len(),
                forall|j: int| 0 <= j < i ==> self.data@[j] == 0u8,
            decreases self.data@.len() - i,
        {
            if self.data[i] != 0u8 {
                return false;
            }
            i = i + 1;
        }
        true
    }

    /// A borrowed view of the raw bytes.
    pub fn as_slice(&self) -> (r: &[u8])
        ensures
            r@ == self@,
    {
        self.data.as_slice()
    }

    /// The byte at `i`.
    pub fn byte_at(&self, i: usize) -> (r: u8)
        requires
            i < self@.len(),
        ensures
            r == self@[i as int],
    {
        self.data[i]
    }

    /// The last eight bytes read as one big-endian integer; shorter strings
    /// are read whole. Signer election seeds itself with this value taken
    /// from the signature of the last payload block.
    pub fn get_tail_u64(&self) -> (r: u64)
        ensures
            r == tail_u64(self@),
    {
        let len = self.data.len();
        let start = if len > 8 {
            len - 8
        } else {
            0
        };
        let mut r: u64 = 0;
        let mut i: usize = start;
        proof {
            assert(self@.subrange(start as int, start as int) =~= Seq::<u8>::empty());
        }
        while i < len
            invariant
                start <= i <= len,
                len == self@.len(),
                r == fold_be(self@.subrange(start as int, i as int)),
            decreases len - i,
        {
            let b = self.data[i];
            proof {
                assert(self@.subrange(start as int, i + 1).drop_last() =~= self@.subrange(
                    start as int,
                    i as int,
                ));
                assert(self@.subrange(start as int, i + 1).last() == self@[i as int]);
            }
            r = mul_256(r) | (b as u64);
            i = i + 1;
        }
        proof {
            assert(self@.subrange(start as int, len as int) =~= self@.skip(start as int));
            assert(self@.skip(0) =~= self@);
        }
        r
    }
}

/// Compares two byte slices for equality.
pub fn slices_equal(a: &[u8], b: &[u8]) -> (r: bool)
    ensures
        r == (a@ == b@),
{
    if a.len() != b.len() {
        return false;
    }
    let mut i: usize = 0;
    while i < a.len()
        invariant
            i <= a@.len(),
            a@.len() == b@.len(),
            forall|j: int| 0 <= j < i ==> a@[j] == b@[j],
        decreases a@.len() - i,
    {
        if *vstd::slice::slice_index_get(a, i) != *vstd::slice::slice_index_get(b, i) {
            return false;
        }
        i = i + 1;
    }
    proof {
        assert(a@ =~= b@);
    }
    true
}

/// One step of the big-endian fold: shift eight bits up, dropping overflow.
pub open spec fn spec_mul_256(r: u64) -> u64 {
    ((r as nat) * 256 % 0x1_0000_0000_0000_0000) as u64
}

fn mul_256(r: u64) -> (o: u64)
    ensures
        o == spec_mul_256(r),
{
    proof {
        assert(r << 8u64 == spec_mul_256(r)) by (bit_vector);
    }
    r << 8u64
}

/// Big-endian reading of a byte string into a 64-bit word, high bytes falling off.
pub open spec fn fold_be(s: Seq<u8>) -> u64
    decreases s.len(),
{
    if s.len() == 0 {
        0u64
    } else {
        spec_mul_256(fold_be(s.drop_last())) | (s.last() as u64)
    }
}

/// What `get_tail_u64` reads: the last eight bytes, big-endian.
pub open spec fn tail_u64(s: Seq<u8>) -> u64 {
    if s.len() > 8 {
        fold_be(s.skip(s.len() - 8))
    } else {
        fold_be(s)
    }
}

impl Clone for Bytes {
    fn clone(&self) -> (r: Self)
        ensures
            r@ == self@,
    {
        Bytes { data: self.data.clone() }
    }
}

impl PartialEq for Bytes {
    fn eq(&self, other: &Self) -> (r: bool)
        ensures
            r == (self@ == other@),
    {
        let r = self.data == other.data;
        proof {
            if self.data@.len() == other.data@.len() && (forall|i: int|
                #![auto]
                0 <= i < self.data@.len() ==> self.data@[i] == other.data@[i]) {
                assert(self.data@ =~= other.data@);
            }
        }
        r
    }
}

impl Eq for Bytes {

}

impl vstd::std_specs::cmp::PartialEqSpecImpl for Bytes {
    open spec fn obeys_eq_spec() -> bool {
        true
    }

    open spec fn eq_spec(&self, other: &Bytes) -> bool {
        self@ == other@
    }
}

} // verus!
