//! Byte-level encodings: hex, big-endian integers and JSON string escaping.
//!
//! Block hashing needs a deterministic byte string, so every encoding here is
//! written out and pinned down by a spec function of the same shape.

use vstd::prelude::*;

verus! {

/// The lower-case hex digit of a value below sixteen.
pub open spec fn hex_digit(v: u8) -> u8 {
    if v < 10 {
        (0x30 + v) as u8
    } else {
        (0x61 + (v - 10)) as u8
    }
}

fn hex_digit_exec(v: u8) -> (r: u8)
    requires
        v < 16,
    ensures
        r == hex_digit(v),
{
    if v < 10 {
        0x30 + v
    } else {
        0x61 + (v - 10)
    }
}

/// Lower-case hex encoding of a byte string, two digits per byte.
pub open spec fn hex_bytes(s: Seq<u8>) -> Seq<u8>
    decreases s.len(),
{
    if s.len() == 0 {
        Seq::<u8>::empty()
    } else {
        hex_bytes(s.drop_last()) + seq![
            hex_digit(s.last() / 16),
            hex_digit(s.last() % 16),
        ]
    }
}

/// Appends the hex encoding of `data` to `out`.
pub fn push_hex(out: &mut Vec<u8>, data: &[u8])
    ensures
        final(out)@ == old(out)@ + hex_bytes(data@),
{
    let mut i: usize = 0;
    proof {
        assert(data@.take(0) =~= Seq::<u8>::empty());
        assert(out@ =~= old(out)@ + hex_bytes(data@.take(0)));
    }
    while i < data.len()
        invariant
            i <= data@.len(),
            out@ == old(out)@ + hex_bytes(data@.take(i as int)),
        decreases data@.len() - i,
    {
        let b = *vstd::slice::slice_index_get(data, i);
        out.push(hex_digit_exec(b / 16));
        out.push(hex_digit_exec(b % 16));
        proof {
            assert(data@.take(i + 1).drop_last() =~= data@.take(i as int));
            assert(data@.take(i + 1).last() == data@[i as int]);
            assert(out@ =~= old(out)@ + hex_bytes(data@.take(i + 1)));
        }
        i = i + 1;
    }
    proof {
        assert(data@.take(data@.len() as int) =~= data@);
    }
}

/// The value of one hex digit byte, either case; anything else is `None`.
pub open spec fn hex_val(b: u8) -> Option<u8> {
    if 0x30 <= b && b <= 0x39 {
        Some((b - 0x30) as u8)
    } else if 0x61 <= b && b <= 0x66 {
        Some((b - 0x61 + 10) as u8)
    } else if 0x41 <= b && b <= 0x46 {
        Some((b - 0x41 + 10) as u8)
    } else {
        None
    }
}

pub fn hex_val_exec(b: u8) -> (r: Option<u8>)
    ensures
        r == hex_val(b),
{
    if 0x30 <= b && b <= 0x39 {
        Some(b - 0x30)
    } else if 0x61 <= b && b <= 0x66 {
        Some(b - 0x61 + 10)
    } else if 0x41 <= b && b <= 0x46 {
        Some(b - 0x41 + 10)
    } else {
        None
    }
}

/// What decoding a hex string yields: the bytes, or `None` on odd length or a
/// stray character.
pub open spec fn from_hex_spec(s: Seq<u8>) -> Option<Seq<u8>>
    decreases s.len(),
{
    if s.len() % 2 != 0 {
        None
    } else if s.len() == 0 {
        Some(Seq::<u8>::empty())
    } else {
        match (from_hex_spec(s.drop_last().drop_last()), hex_val(s[s.len() - 2]), hex_val(
            s.last(),
        )) {
            (Some(rest), Some(hi), Some(lo)) => Some(rest + seq![(hi * 16 + lo) as u8]),
            _ => None,
        }
    }
}

/// Decodes a hex string into bytes.
pub fn from_hex(s: &str) -> (r: Option<Vec<u8>>)
    ensures
        match r {
            Some(v) => from_hex_spec(vstd::string::StringSliceAdditionalSpecFns::spec_bytes(s))
                == Some(v@),
            None => from_hex_spec(vstd::string::StringSliceAdditionalSpecFns::spec_bytes(s))
                is None,
        },
{
    let data = s.as_bytes();
    if data.len() % 2 != 0 {
        return None;
    }
    let mut out: Vec<u8> = Vec::new();
    let mut i: usize = 0;
    proof {
        assert(data@.take(0) =~= Seq::<u8>::empty());
    }
    while i < data.len()
        invariant
            i <= data@.len(),
            i % 2 == 0,
            data@.len() % 2 == 0,
            data@ == vstd::string::StringSliceAdditionalSpecFns::spec_bytes(s),
            from_hex_spec(data@.take(i as int)) == Some(out@),
        decreases data@.len() - i,
    {
        let hi = hex_val_exec(*vstd::slice::slice_index_get(data, i));
        let lo = hex_val_exec(*vstd::slice::slice_index_get(data, i + 1));
        proof {
            assert(data@.take(i + 2).drop_last().drop_last() =~= data@.take(i as int));
            assert(data@.take(i + 2).last() == data@[i + 1]);
            assert(data@.take(i + 2)[data@.take(i + 2).len() - 2] == data@[i as int]);
        }
        match (hi, lo) {
            (Some(h), Some(l)) => {
                out.push(h * 16 + l);
                proof {
                    assert(from_hex_spec(data@.take(i + 2)) =~= Some(out@));
                }
            },
            _ => {
                proof {
                    lemma_from_hex_bad(data@, i as int);
                }
                return None;
            },
        }
        i = i + 2;
    }
    proof {
        assert(data@.take(data@.len() as int) =~= data@);
    }
    Some(out)
}

/// A hex string with a bad digit at an even position decodes to `None`.
proof fn lemma_from_hex_bad(s: Seq<u8>, i: int)
    requires
        s.len() % 2 == 0,
        0 <= i,
        i + 2 <= s.len(),
        i % 2 == 0,
        hex_val(s[i]) is None || hex_val(s[i + 1]) is None,
    ensures
        from_hex_spec(s) is None,
    decreases s.len(),
{
    if s.len() == i + 2 {
        assert(s[s.len() - 2] == s[i]);
        assert(s.last() == s[i + 1]);
    } else {
        lemma_from_hex_bad(s.drop_last().drop_last(), i);
    }
}

/// Compares two strings for equality, through their UTF-8 bytes.
pub fn str_eq(a: &str, b: &str) -> (r: bool)
    ensures
        r == (a@ == b@),
{
    let r = crate::bytes::slices_equal(a.as_bytes(), b.as_bytes());
    proof {
        if vstd::string::StringSliceAdditionalSpecFns::spec_bytes(a)
            == vstd::string::StringSliceAdditionalSpecFns::spec_bytes(b) {
            vstd::utf8::encode_utf8_decode_utf8(a@);
            vstd::utf8::encode_utf8_decode_utf8(b@);
        }
    }
    r
}

/// The eight bytes of a 64-bit value, highest first.
pub open spec fn be8(x: u64) -> Seq<u8> {
    seq![
        ((x >> 56) & 0xff) as u8,
        ((x >> 48) & 0xff) as u8,
        ((x >> 40) & 0xff) as u8,
        ((x >> 32) & 0xff) as u8,
        ((x >> 24) & 0xff) as u8,
        ((x >> 16) & 0xff) as u8,
        ((x >> 8) & 0xff) as u8,
        (x & 0xff) as u8,
    ]
}

/// The four bytes of a 32-bit value, highest first.
pub open spec fn be4(x: u32) -> Seq<u8> {
    seq![
        ((x >> 24) & 0xff) as u8,
        ((x >> 16) & 0xff) as u8,
        ((x >> 8) & 0xff) as u8,
        (x & 0xff) as u8,
    ]
}

/// Appends a 64-bit value, big-endian.
pub fn push_u64_be(out: &mut Vec<u8>, x: u64)
    ensures
        final(out)@ == old(out)@ + be8(x),
{
    out.push(((x >> 56) & 0xff) as u8);
    out.push(((x >> 48) & 0xff) as u8);
    out.push(((x >> 40) & 0xff) as u8);
    out.push(((x >> 32) & 0xff) as u8);
    out.push(((x >> 24) & 0xff) as u8);
    out.push(((x >> 16) & 0xff) as u8);
    out.push(((x >> 8) & 0xff) as u8);
    out.push((x & 0xff) as u8);
    proof {
        assert(out@ =~= old(out)@ + be8(x));
    }
}

/// Appends a 32-bit value, big-endian.
pub fn push_u32_be(out: &mut Vec<u8>, x: u32)
    ensures
        final(out)@ == old(out)@ + be4(x),
{
    out.push(((x >> 24) & 0xff) as u8);
    out.push(((x >> 16) & 0xff) as u8);
    out.push(((x >> 8) & 0xff) as u8);
    out.push((x & 0xff) as u8);
    proof {
        assert(out@ =~= old(out)@ + be4(x));
    }
}

/// How one byte of a JSON string value is written: quotes and backslashes get
/// a backslash, control bytes become `\u00XX`, and everything else stands as is.
pub open spec fn esc_byte(b: u8) -> Seq<u8> {
    if b == 0x22 {
        seq![0x5cu8, 0x22u8]
    } else if b == 0x5c {
        seq![0x5cu8, 0x5cu8]
    } else if b < 0x20 {
        seq![0x5cu8, 0x75u8, 0x30u8, 0x30u8, hex_digit(b / 16), hex_digit(b % 16)]
    } else {
        seq![b]
    }
}

/// A whole byte string escaped for a JSON string value.
pub open spec fn esc_bytes(s: Seq<u8>) -> Seq<u8>
    decreases s.len(),
{
    if s.len() == 0 {
        Seq::<u8>::empty()
    } else {
        esc_bytes(s.drop_last()) + esc_byte(s.last())
    }
}

/// Appends `data` escaped for a JSON string value.
pub fn push_escaped(out: &mut Vec<u8>, data: &[u8])
    ensures
        final(out)@ == old(out)@ + esc_bytes(data@),
{
    let mut i: usize = 0;
    proof {
        assert(data@.take(0) =~= Seq::<u8>::empty());
        assert(out@ =~= old(out)@ + esc_bytes(data@.take(0)));
    }
    while i < data.len()
        invariant
            i <= data@.len(),
            out@ == old(out)@ + esc_bytes(data@.take(i as int)),
        decreases data@.len() - i,
    {
        let b = *vstd::slice::slice_index_get(data, i);
        if b == 0x22 {
            out.push(0x5c);
            out.push(0x22);
        } else if b == 0x5c {
            out.push(0x5c);
            out.push(0x5c);
        } else if b < 0x20 {
            out.push(0x5c);
            out.push(0x75);
            out.push(0x30);
            out.push(0x30);
            out.push(hex_digit_exec(b / 16));
            out.push(hex_digit_exec(b % 16));
        } else {
            out.push(b);
        }
        proof {
            assert(data@.take(i + 1).drop_last() =~= data@.take(i as int));
            assert(data@.take(i + 1).last() == data@[i as int]);
            assert(out@ =~= old(out)@ + esc_bytes(data@.take(i + 1)));
        }
        i = i + 1;
    }
    proof {
        assert(data@.take(data@.len() as int) =~= data@);
    }
}

} // verus!
