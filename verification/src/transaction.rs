//! Transactions: the payload of a block, registering a zone or a domain.

use vstd::prelude::*;

use crate::bytes::Bytes;
use crate::codec::{esc_bytes, hex_bytes, push_escaped, push_hex};
use crate::hashing::{hash_bytes, hash_of};

verus! {

use vstd::string::StringSliceAdditionalSpecFns;

/// The mathematical shape of a transaction.
pub ghost struct TransactionV {
    pub identity: Seq<u8>,
    pub confirmation: Seq<u8>,
    pub class: Seq<char>,
    pub data: Seq<char>,
    pub pub_key: Seq<u8>,
}

/// A payload: either a zone or a domain registration. `identity` is the hash
/// of the registered label, `confirmation` a salt used as the IV that seals
/// the label, `data` the canonical JSON the registration carries, and
/// `pub_key` the owner key, equal to the key of the enclosing block.
pub struct Transaction {
    pub identity: Bytes,
    pub confirmation: Bytes,
    pub class: String,
    pub data: String,
    pub pub_key: Bytes,
}

impl View for Transaction {
    type V = TransactionV;

    open spec fn view(&self) -> TransactionV {
        TransactionV {
            identity: self.identity@,
            confirmation: self.confirmation@,
            class: self.class@,
            data: self.data@,
            pub_key: self.pub_key@,
        }
    }
}

impl Clone for Transaction {
    fn clone(&self) -> (r: Self)
        ensures
            r@ == self@,
    {
        Transaction {
            identity: self.identity.clone(),
            confirmation: self.confirmation.clone(),
            class: self.class.clone(),
            data: self.data.clone(),
            pub_key: self.pub_key.clone(),
        }
    }
}

/// The canonical JSON bytes of a transaction, field order fixed. Byte fields
/// are written in hex, string fields escaped as JSON demands.
pub open spec fn tx_json_bytes(t: TransactionV) -> Seq<u8> {
    "{\"identity\":\"".spec_bytes() + hex_bytes(t.identity) + "\",\"confirmation\":\"".spec_bytes()
        + hex_bytes(t.confirmation) + "\",\"class\":\"".spec_bytes() + esc_bytes(
        vstd::utf8::encode_utf8(t.class),
    ) + "\",\"data\":\"".spec_bytes() + esc_bytes(vstd::utf8::encode_utf8(t.data))
        + "\",\"pub_key\":\"".spec_bytes() + hex_bytes(t.pub_key) + "\"}".spec_bytes()
}

impl Transaction {
    /// Builds a transaction from its fields.
    pub fn new(
        identity: Bytes,
        confirmation: Bytes,
        class: String,
        data: String,
        pub_key: Bytes,
    ) -> (r: Transaction)
        ensures
            r@ == (TransactionV {
                identity: identity@,
                confirmation: confirmation@,
                class: class@,
                data: data@,
                pub_key: pub_key@,
            }),
    {
        Transaction { identity, confirmation, class, data, pub_key }
    }

    /// The canonical JSON of this transaction, as UTF-8 bytes. Block hashing
    /// embeds exactly these bytes.
    pub fn to_json_bytes(&self) -> (r: Vec<u8>)
        ensures
            r@ == tx_json_bytes(self@),
    {
        let mut out: Vec<u8> = Vec::new();
        out.extend_from_slice("{\"identity\":\"".as_bytes());
        push_hex(&mut out, self.identity.as_slice());
        out.extend_from_slice("\",\"confirmation\":\"".as_bytes());
        push_hex(&mut out, self.confirmation.as_slice());
        out.extend_from_slice("\",\"class\":\"".as_bytes());
        push_escaped(&mut out, self.class.as_str().as_bytes());
        out.extend_from_slice("\",\"data\":\"".as_bytes());
        push_escaped(&mut out, self.data.as_str().as_bytes());
        out.extend_from_slice("\",\"pub_key\":\"".as_bytes());
        push_hex(&mut out, self.pub_key.as_slice());
        out.extend_from_slice("\"}".as_bytes());
        proof {
            assert(out@ =~= tx_json_bytes(self@));
        }
        out
    }

    /// True when `domain` is the label this transaction registered: its hash
    /// is the stored identity.
    pub fn check_identity(&self, domain: &str) -> (r: bool)
        ensures
            r == (hash_of(domain.spec_bytes()) == self@.identity),
    {
        let h = hash_bytes(domain.as_bytes());
        let r = crate::bytes::slices_equal(h.as_slice(), self.identity.as_slice());
        r
    }

    /// Parses the domain data this transaction carries, if any.
    pub fn get_domain_data(&self) -> (r: Option<DomainData>)
        ensures
            (match r {
                Some(d) => domain_data_of(self@.data) == Some(
                    (d.zone@, d.domain@, d.records.deep_view()),
                ),
                None => domain_data_of(self@.data) is None,
            }),
    {
        parse_domain_data(self.data.as_str())
    }

    /// Parses the zone data this transaction carries, if any.
    pub fn get_zone_data(&self) -> (r: Option<ZoneData>)
        ensures
            (match r {
                Some(z) => zone_data_of(self@.data) == Some((z.name@, z.difficulty, z.yggdrasil)),
                None => zone_data_of(self@.data) is None,
            }),
    {
        parse_zone_data(self.data.as_str())
    }
}

/// What a zone registration declares: the zone's label, the difficulty it
/// demands of domains below it, and whether it allows Yggdrasil records only.
pub struct ZoneData {
    pub name: String,
    pub difficulty: u32,
    pub yggdrasil: bool,
}

impl Clone for ZoneData {
    fn clone(&self) -> (r: Self)
        ensures
            r.name@ == self.name@,
            r.difficulty == self.difficulty,
            r.yggdrasil == self.yggdrasil,
    {
        ZoneData { name: self.name.clone(), difficulty: self.difficulty, yggdrasil: self.yggdrasil }
    }
}

/// One DNS record of a domain: its type label and its address or body text.
pub struct DnsRecord {
    pub rtype: String,
    pub addr: String,
}

impl View for DnsRecord {
    type V = (Seq<char>, Seq<char>);

    open spec fn view(&self) -> (Seq<char>, Seq<char>) {
        (self.rtype@, self.addr@)
    }
}

impl DeepView for DnsRecord {
    type V = (Seq<char>, Seq<char>);

    open spec fn deep_view(&self) -> (Seq<char>, Seq<char>) {
        self@
    }
}

impl Clone for DnsRecord {
    fn clone(&self) -> (r: Self)
        ensures
            r@ == self@,
    {
        DnsRecord { rtype: self.rtype.clone(), addr: self.addr.clone() }
    }
}

/// What a domain registration declares: the zone it sits under, the sealed
/// domain label, and its records.
pub struct DomainData {
    pub zone: String,
    pub domain: Bytes,
    pub records: Vec<DnsRecord>,
}

impl Clone for DomainData {
    fn clone(&self) -> (r: Self)
        ensures
            r.zone@ == self.zone@,
            r.domain@ == self.domain@,
            r.records.deep_view() == self.records.deep_view(),
    {
        let r = DomainData {
            zone: self.zone.clone(),
            domain: self.domain.clone(),
            records: self.records.clone(),
        };
        proof {
            assert(r.records.deep_view() =~= self.records.deep_view());
        }
        r
    }
}

/// What `serde_json` reads out of a zone registration's JSON: the label, the
/// declared difficulty and the Yggdrasil flag, or `None` when the text does
/// not parse to that shape.
pub uninterp spec fn zone_data_of(s: Seq<char>) -> Option<(Seq<char>, u32, bool)>;

/// Relies on `serde_json::from_str::<Value>` and the `Value` accessors: the
/// parse is a function of the text alone. `name` and `difficulty` must be
/// present and well-typed; a missing `yggdrasil` flag reads as `false`.
#[verifier::external_body]
fn parse_zone_data(data: &str) -> (r: Option<ZoneData>)
    ensures
        (match r {
            Some(z) => zone_data_of(data@) == Some((z.name@, z.difficulty, z.yggdrasil)),
            None => zone_data_of(data@) is None,
        }),
{
    let v: serde_json::Value = serde_json::from_str(data).ok()?;
    let name = v.get("name")?.as_str()?.to_string();
    let difficulty = u32::try_from(v.get("difficulty")?.as_u64()?).ok()?;
    let yggdrasil = match v.get("yggdrasil") {
        Some(f) => f.as_bool().unwrap_or(false),
        None => false,
    };
    Some(ZoneData { name, difficulty, yggdrasil })
}

/// What `serde_json` reads out of a domain registration's JSON: the zone
/// label, the sealed domain bytes, and the records as (type, address) pairs,
/// or `None` when the text does not parse to that shape.
pub uninterp spec fn domain_data_of(s: Seq<char>) -> Option<
    (Seq<char>, Seq<u8>, Seq<(Seq<char>, Seq<char>)>),
>;

/// Relies on `serde_json::from_str::<Value>` and the `Value` accessors: the
/// parse is a function of the text alone. `zone` must be present and a
/// string; the sealed `domain` bytes and the record fields read as empty when
/// missing or mistyped.
#[verifier::external_body]
fn parse_domain_data(data: &str) -> (r: Option<DomainData>)
    ensures
        (match r {
            Some(d) => domain_data_of(data@) == Some((d.zone@, d.domain@, d.records.deep_view())),
            None => domain_data_of(data@) is None,
        }),
{
    let v: serde_json::Value = serde_json::from_str(data).ok()?;
    let zone = v.get("zone")?.as_str()?.to_string();
    let domain: Vec<u8> = match v.get("domain") {
        Some(field) => serde_json::from_value(field.clone()).unwrap_or_default(),
        None => Vec::new(),
    };
    let mut records: Vec<DnsRecord> = Vec::new();
    for rv in v.get("records").and_then(serde_json::Value::as_array).unwrap_or(&Vec::new()) {
        let field = |k| rv.get(k).and_then(serde_json::Value::as_str).unwrap_or("").to_string();
        records.push(DnsRecord { rtype: field("type"), addr: field("addr") });
    }
    Some(DomainData { zone, domain: Bytes::from_vec(domain), records })
}

} // verus!
