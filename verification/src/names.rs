//! Domain-name rules, on the UTF-8 bytes of a name.
//!
//! A mineable name is one or two labels of lower-case letters, digits,
//! hyphens and underscores, with a single dot between the labels. The part
//! after the dot is the zone.

use vstd::prelude::*;

verus! {

/// A byte a (lowered) name may contain, the label separator aside:
/// `a`..`z`, `0`..`9`, `-` and `_`.
pub open spec fn allowed_name_byte(b: u8) -> bool {
    (0x61 <= b && b <= 0x7a) || (0x30 <= b && b <= 0x39) || b == 0x2d || b == 0x5f
}

fn allowed_name_byte_exec(b: u8) -> (r: bool)
    ensures
        r == allowed_name_byte(b),
{
    (0x61 <= b && b <= 0x7a) || (0x30 <= b && b <= 0x39) || b == 0x2d || b == 0x5f
}

/// ASCII upper-case letters fold to lower case; all other bytes stand.
pub open spec fn lower_byte(b: u8) -> u8 {
    if 0x41 <= b && b <= 0x5a {
        (b + 0x20) as u8
    } else {
        b
    }
}

/// A name folded to lower case, byte for byte.
pub open spec fn lower_bytes(s: Seq<u8>) -> Seq<u8> {
    Seq::new(s.len(), |i: int| lower_byte(s[i]))
}

/// Folds a name to lower case.
pub fn lower_bytes_exec(s: &[u8]) -> (r: Vec<u8>)
    ensures
        r@ == lower_bytes(s@),
{
    let mut r: Vec<u8> = Vec::new();
    let mut i: usize = 0;
    while i < s.len()
        invariant
            i <= s@.len(),
            r@.len() == i,
            forall|j: int| 0 <= j < i ==> r@[j] == lower_byte(s@[j]),
        decreases s@.len() - i,
    {
        let b = *vstd::slice::slice_index_get(s, i);
        if 0x41 <= b && b <= 0x5a {
            r.push(b + 0x20);
        } else {
            r.push(b);
        }
        i = i + 1;
    }
    proof {
        assert(r@ =~= lower_bytes(s@));
    }
    r
}

/// How many dots a name holds.
pub open spec fn count_dots(s: Seq<u8>) -> int
    decreases s.len(),
{
    if s.len() == 0 {
        0
    } else {
        count_dots(s.drop_last()) + if s.last() == 0x2e {
            1int
        } else {
            0int
        }
    }
}

/// The position of the last dot, or -1 when there is none.
pub open spec fn last_dot(s: Seq<u8>) -> int
    decreases s.len(),
{
    if s.len() == 0 {
        -1
    } else if s.last() == 0x2e {
        s.len() - 1
    } else {
        last_dot(s.drop_last())
    }
}

/// A valid name: non-empty, at most one dot, the dot neither first nor last,
/// and every other byte from the allowed set.
pub open spec fn valid_name(s: Seq<u8>) -> bool {
    &&& s.len() > 0
    &&& count_dots(s) <= 1
    &&& s.first() != 0x2e
    &&& s.last() != 0x2e
    &&& forall|i: int| 0 <= i < s.len() ==> allowed_name_byte(s[i]) || s[i] == 0x2e
}

/// The zone part of a name: what follows the last dot, or nothing when the
/// name has no dot and so names no zone.
pub open spec fn zone_part(s: Seq<u8>) -> Seq<u8> {
    if last_dot(s) >= 0 {
        s.skip(last_dot(s) + 1)
    } else {
        Seq::<u8>::empty()
    }
}

/// Whether a name has a zone part at all.
pub open spec fn has_zone(s: Seq<u8>) -> bool {
    last_dot(s) >= 0
}

/// Checks a name against `valid_name`.
pub fn check_name(s: &[u8]) -> (r: bool)
    ensures
        r == valid_name(s@),
{
    if s.len() == 0 {
        return false;
    }
    let mut i: usize = 0;
    let mut dots: usize = 0;
    proof {
        assert(s@.take(0) =~= Seq::<u8>::empty());
    }
    while i < s.len()
        invariant
            i <= s@.len(),
            dots <= i,
            dots == count_dots(s@.take(i as int)),
            forall|j: int| 0 <= j < i ==> allowed_name_byte(s@[j]) || s@[j] == 0x2e,
        decreases s@.len() - i,
    {
        let b = *vstd::slice::slice_index_get(s, i);
        proof {
            assert(s@.take(i + 1).drop_last() =~= s@.take(i as int));
            assert(s@.take(i + 1).last() == s@[i as int]);
        }
        if b == 0x2e {
            dots = dots + 1;
        } else if !allowed_name_byte_exec(b) {
            proof {
                lemma_count_dots_bound(s@);
            }
            return false;
        }
        i = i + 1;
    }
    proof {
        assert(s@.take(s@.len() as int) =~= s@);
    }
    let first = *vstd::slice::slice_index_get(s, 0);
    let last = *vstd::slice::slice_index_get(s, s.len() - 1);
    proof {
        assert(s@.first() == s@[0]);
        assert(s@.last() == s@[s@.len() - 1]);
    }
    dots <= 1 && first != 0x2e && last != 0x2e
}

/// The last dot sits inside the string or is absent.
proof fn lemma_last_dot_range(s: Seq<u8>)
    ensures
        -1 <= last_dot(s) < s.len(),
    decreases s.len(),
{
    if s.len() > 0 && s.last() != 0x2e {
        lemma_last_dot_range(s.drop_last());
    }
}

/// Dots are never more than the bytes that hold them.
proof fn lemma_count_dots_bound(s: Seq<u8>)
    ensures
        0 <= count_dots(s) <= s.len(),
    decreases s.len(),
{
    if s.len() > 0 {
        lemma_count_dots_bound(s.drop_last());
    }
}

/// Finds the last dot of a name; `None` when there is none.
pub fn find_last_dot(s: &[u8]) -> (r: Option<usize>)
    ensures
        (match r {
            Some(i) => last_dot(s@) == i,
            None => last_dot(s@) == -1,
        }),
{
    let mut i: usize = s.len();
    proof {
        assert(s@.take(s@.len() as int) =~= s@);
    }
    while i > 0
        invariant
            i <= s@.len(),
            last_dot(s@) == last_dot(s@.take(i as int)),
        decreases i,
    {
        i = i - 1;
        let b = *vstd::slice::slice_index_get(s, i);
        proof {
            assert(s@.take(i + 1).drop_last() =~= s@.take(i as int));
            assert(s@.take(i + 1).last() == s@[i as int]);
        }
        if b == 0x2e {
            return Some(i);
        }
    }
    proof {
        assert(s@.take(0) =~= Seq::<u8>::empty());
    }
    None
}

/// Splits a lowered name into its label and zone parts. A name without a dot
/// comes back with no zone.
pub fn split_zone(s: &[u8]) -> (r: (Vec<u8>, Option<Vec<u8>>))
    ensures
        (match r.1 {
            Some(z) => has_zone(s@) && z@ == zone_part(s@) && r.0@ == s@.take(last_dot(s@)),
            None => !has_zone(s@) && r.0@ == s@,
        }),
{
    match find_last_dot(s) {
        Some(i) => {
            proof {
                lemma_last_dot_range(s@);
            }
            let total = s.len();
            assert(i < total);
            let mut label: Vec<u8> = Vec::new();
            let mut zone: Vec<u8> = Vec::new();
            let mut j: usize = 0;
            while j < i
                invariant
                    j <= i < s@.len(),
                    label@ == s@.take(i as int).take(j as int),
                decreases i - j,
            {
                label.push(*vstd::slice::slice_index_get(s, j));
                proof {
                    assert(s@.take(i as int).take(j + 1) =~= s@.take(i as int).take(j as int).push(
                        s@[j as int],
                    ));
                }
                j = j + 1;
            }
            let mut k: usize = i + 1;
            while k < total
                invariant
                    total == s@.len(),
                    last_dot(s@) == i,
                    i < k <= s@.len(),
                    zone@ == s@.subrange(i + 1, k as int),
                decreases s@.len() - k,
            {
                zone.push(*vstd::slice::slice_index_get(s, k));
                proof {
                    assert(s@.subrange(i + 1, k + 1) =~= s@.subrange(i + 1, k as int).push(
                        s@[k as int],
                    ));
                }
                k = k + 1;
            }
            proof {
                assert(s@.take(i as int).take(i as int) =~= s@.take(i as int));
                assert(s@.subrange(i + 1, s@.len() as int) =~= zone_part(s@));
            }
            (label, Some(zone))
        },
        None => {
            (vstd::slice::slice_to_vec(s), None)
        },
    }
}

/// Whether a record may sit in a zone that allows Yggdrasil addresses only.
/// An `AAAA` record qualifies when its address opens with a hex group in
/// `0x0200..=0x03ff`, the Yggdrasil overlay range; an `A` record never
/// qualifies; records of any other type pass.
pub open spec fn record_is_yggdrasil(rtype: Seq<char>, addr: Seq<u8>) -> bool {
    if rtype == "AAAA"@ {
        match first_hex_group(addr, 0, 0, 0) {
            Some(v) => 0x200 <= v && v <= 0x3ff,
            None => false,
        }
    } else if rtype == "A"@ {
        false
    } else {
        true
    }
}

/// The value of the hex digits before the first `:` of an address, read from
/// position `i` with `n` digits and the value `acc` already taken in. More
/// than four digits, no digits at all, or a stray character give `None`.
pub open spec fn first_hex_group(s: Seq<u8>, i: int, n: int, acc: int) -> Option<int>
    decreases s.len() - i,
{
    if i < 0 || i >= s.len() || s[i] == 0x3a {
        if n == 0 {
            None
        } else {
            Some(acc)
        }
    } else if n >= 4 {
        None
    } else {
        match crate::codec::hex_val(s[i]) {
            Some(v) => first_hex_group(s, i + 1, n + 1, acc * 16 + v),
            None => None,
        }
    }
}

/// Reads the first hex group of an address.
fn first_hex_group_exec(s: &[u8]) -> (r: Option<u32>)
    ensures
        (match r {
            Some(v) => first_hex_group(s@, 0, 0, 0) == Some(v as int),
            None => first_hex_group(s@, 0, 0, 0) is None,
        }),
{
    let mut i: usize = 0;
    let mut n: u32 = 0;
    let mut acc: u32 = 0;
    loop
        invariant
            i <= s@.len(),
            n <= 4,
            n == 0 ==> acc == 0,
            n == 1 ==> acc < 0x10,
            n == 2 ==> acc < 0x100,
            n == 3 ==> acc < 0x1000,
            n == 4 ==> acc < 0x10000,
            first_hex_group(s@, 0, 0, 0) == first_hex_group(s@, i as int, n as int, acc as int),
        decreases s@.len() - i,
    {
        if i >= s.len() || *vstd::slice::slice_index_get(s, i) == 0x3a {
            if n == 0 {
                return None;
            }
            return Some(acc);
        }
        if n >= 4 {
            return None;
        }
        match crate::codec::hex_val_exec(*vstd::slice::slice_index_get(s, i)) {
            Some(v) => {
                acc = acc * 16 + (v as u32);
                n = n + 1;
                i = i + 1;
            },
            None => {
                return None;
            },
        }
    }
}

/// Checks one record against the Yggdrasil rule.
pub fn is_yggdrasil_record(record: &crate::transaction::DnsRecord) -> (r: bool)
    ensures
        r == record_is_yggdrasil(record.rtype@, vstd::utf8::encode_utf8(record.addr@)),
{
    if crate::codec::str_eq(record.rtype.as_str(), "AAAA") {
        match first_hex_group_exec(record.addr.as_str().as_bytes()) {
            Some(v) => 0x200 <= v && v <= 0x3ff,
            None => false,
        }
    } else if crate::codec::str_eq(record.rtype.as_str(), "A") {
        false
    } else {
        true
    }
}

} // verus!
