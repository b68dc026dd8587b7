//! The byte-level pieces: hashing, hex, names, keys, blocks and the miner queue.

use gis::block::{check_block_hash, check_block_signature, Block};
use gis::bytes::Bytes;
use gis::codec::from_hex;
use gis::hashing::{hash_bytes, hash_difficulty, hash_identity, meets_difficulty};
use gis::keys::Keystore;
use gis::miner::{find_hash, sign_block, MineJob, Miner};
use gis::names::{check_name, is_yggdrasil_record, lower_bytes_exec, split_zone};
use gis::settings::Settings;
use gis::transaction::{DnsRecord, Transaction};

fn bytes(v: &[u8]) -> Bytes {
    Bytes::from_bytes(v)
}

#[test]
fn hashing_is_deterministic_and_not_identity() {
    let a = hash_bytes(b"a");
    let b = hash_bytes(b"b");
    let a2 = hash_bytes(b"a");
    assert_eq!(a.as_slice(), a2.as_slice());
    assert_ne!(a.as_slice(), b.as_slice());
    assert_eq!(a.len(), 32);
    assert_ne!(a.as_slice(), b"a");
    let id = hash_identity("foo.test");
    assert_eq!(id.len(), 32);
    assert_ne!(id.as_slice(), hash_identity("foo.tesu").as_slice());
}

#[test]
fn difficulty_counts_leading_zero_bits() {
    assert_eq!(hash_difficulty(&[0x80]), 0);
    assert_eq!(hash_difficulty(&[0x10]), 3);
    assert_eq!(hash_difficulty(&[0x00, 0x10]), 11);
    assert_eq!(hash_difficulty(&[0x00, 0x00]), 16);
    assert!(meets_difficulty(&bytes(&[0x00, 0x10]), 11));
    assert!(!meets_difficulty(&bytes(&[0x00, 0x10]), 12));
    assert!(meets_difficulty(&bytes(&[0xff]), 0));
}

#[test]
fn hex_decodes_and_rejects() {
    assert_eq!(from_hex("00ff"), Some(vec![0u8, 255u8]));
    assert_eq!(from_hex("0F"), Some(vec![15u8]));
    assert_eq!(from_hex(""), Some(vec![]));
    assert_eq!(from_hex("f"), None);
    assert_eq!(from_hex("0g"), None);
}

#[test]
fn tail_u64_reads_last_eight_bytes() {
    assert_eq!(bytes(&[0, 0, 0, 0, 0, 0, 0, 7]).get_tail_u64(), 7);
    assert_eq!(
        bytes(&[1, 2, 3, 4, 5, 6, 7, 8, 9]).get_tail_u64(),
        0x0203040506070809
    );
    assert_eq!(bytes(&[0xab]).get_tail_u64(), 0xab);
    assert_eq!(bytes(&[]).get_tail_u64(), 0);
}

#[test]
fn names_are_checked_and_split() {
    assert!(check_name(b"foo.test"));
    assert!(check_name(b"foo"));
    assert!(!check_name(b""));
    assert!(!check_name(b"a.b.test"));
    assert!(!check_name(b".test"));
    assert!(!check_name(b"test."));
    assert!(!check_name(b"Foo.test"));
    assert_eq!(lower_bytes_exec(b"Foo.TEST"), b"foo.test".to_vec());
    let (label, zone) = split_zone(b"foo.test");
    assert_eq!(label, b"foo".to_vec());
    assert_eq!(zone, Some(b"test".to_vec()));
    let (label, zone) = split_zone(b"bare");
    assert_eq!(label, b"bare".to_vec());
    assert_eq!(zone, None);
}

fn record(rtype: &str, addr: &str) -> DnsRecord {
    DnsRecord { rtype: rtype.to_string(), addr: addr.to_string() }
}

#[test]
fn yggdrasil_records_are_recognised() {
    assert!(is_yggdrasil_record(&record("AAAA", "200:1:2::3")));
    assert!(is_yggdrasil_record(&record("AAAA", "3ff::1")));
    assert!(!is_yggdrasil_record(&record("AAAA", "400::1")));
    assert!(!is_yggdrasil_record(&record("AAAA", "2001:db8::1")));
    assert!(!is_yggdrasil_record(&record("A", "10.0.0.1")));
    assert!(is_yggdrasil_record(&record("TXT", "whatever")));
}

#[test]
fn sealing_round_trips_and_rejects_wrong_iv() {
    let ks = Keystore::from_bytes(bytes(b"some-public-key"));
    let iv = [7u8; 12];
    let sealed = ks.encrypt(b"foo.test", &iv);
    assert_ne!(sealed.as_slice(), b"foo.test");
    let opened = ks.decrypt(sealed.as_slice(), &iv);
    assert_eq!(opened.as_slice(), b"foo.test");
    let wrong = ks.decrypt(sealed.as_slice(), &[8u8; 12]);
    assert_eq!(wrong.len(), 0);
    let other = Keystore::from_bytes(bytes(b"other-key"));
    assert_eq!(other.decrypt(sealed.as_slice(), &iv).len(), 0);
}

#[test]
fn transaction_serializes_to_canonical_json() {
    let tx = Transaction::new(
        bytes(&[0xab]),
        bytes(&[0x01]),
        "zone".to_string(),
        "{}".to_string(),
        bytes(&[]),
    );
    let expect = b"{\"identity\":\"ab\",\"confirmation\":\"01\",\"class\":\"zone\",\"data\":\"{}\",\"pub_key\":\"\"}";
    assert_eq!(tx.to_json_bytes(), expect.to_vec());
    let tx2 = Transaction::new(
        bytes(&[]),
        bytes(&[]),
        "zone".to_string(),
        "a\"b\\c".to_string(),
        bytes(&[]),
    );
    let expect2 = b"{\"identity\":\"\",\"confirmation\":\"\",\"class\":\"zone\",\"data\":\"a\\\"b\\\\c\",\"pub_key\":\"\"}";
    assert_eq!(tx2.to_json_bytes(), expect2.to_vec());
}

#[test]
fn block_hash_and_signature_check_out() {
    let ks = Keystore::from_bytes(bytes(b"miner-key"));
    let mut block = Block::new_at(
        None,
        ks.get_public(),
        Bytes::empty(),
        0,
        1234,
    );
    block.index = 1;
    let found = find_hash(&block, 42, 1234, 0, 16).expect("difficulty zero must hit at once");
    assert_eq!(found.nonce, 0);
    assert_eq!(found.hash.len(), 32);
    assert!(check_block_hash(&found));
    let mut sealed = found;
    sign_block(&mut sealed, &ks);
    assert!(check_block_signature(&sealed));
    // a signature from another key does not verify
    let mut forged = sealed.clone();
    sign_block(&mut forged, &Keystore::from_bytes(bytes(b"impostor")));
    assert!(!check_block_signature(&forged));
}

#[test]
fn find_hash_gives_up_within_its_range() {
    let block = Block::new_at(None, bytes(b"k"), Bytes::empty(), 255, 0);
    assert!(find_hash(&block, 0, 0, 0, 4).is_none());
}

#[test]
fn serialization_depends_on_the_fields() {
    let a = Block::new_at(None, bytes(b"k"), Bytes::empty(), 5, 77);
    let b = a.clone();
    assert_eq!(a.bytes_for_hash(), b.bytes_for_hash());
    let mut c = a.clone();
    c.nonce = 1;
    assert_ne!(a.bytes_for_hash(), c.bytes_for_hash());
}

#[test]
fn miner_queue_keeps_one_signing_job() {
    let ks_key = bytes(b"k");
    let payload_tx = Transaction::new(
        bytes(&[1]),
        bytes(&[2]),
        "zone".to_string(),
        "{}".to_string(),
        ks_key.clone(),
    );
    let mut miner = Miner::new();
    assert!(!miner.is_mining());
    let full = Block::new_at(Some(payload_tx), ks_key.clone(), Bytes::empty(), 1, 0);
    let signing = Block::new_at(None, ks_key.clone(), bytes(&[9]), 1, 0);
    miner.add_block(signing.clone());
    miner.add_block(full.clone());
    miner.add_block(signing.clone());
    // the first signing job was evicted by the second
    assert_eq!(miner.job_count(), 2);
    let first = miner.take_due_job(100).expect("full job is due at once");
    assert!(first.is_full());
    let second = miner.take_due_job(100).expect("signing job is due at once");
    assert!(second.is_signing());
    assert_eq!(miner.job_count(), 0);
    // an undue job stays put
    miner.add_job(MineJob { start: 500, block: signing.clone() });
    assert!(miner.take_due_job(100).is_none());
    assert_eq!(miner.job_count(), 1);
    assert!(miner.take_due_job(501).is_some());
    miner.start();
    assert!(miner.is_mining());
    miner.stop();
    assert!(!miner.is_mining());
}

#[test]
fn settings_origin_decodes() {
    let mut settings = Settings::default();
    assert_eq!(settings.check_blocks, 8);
    let origin = settings.get_origin();
    assert_eq!(origin.len(), 32);
    assert!(origin.is_zero());
    settings.origin = "aabb".to_string();
    let origin = settings.get_origin();
    assert_eq!(origin.as_slice(), &[0xaa, 0xbb]);
}
