//! The smaller query surface: byte strings, tip accessors, row lookups and
//! the signer cache.

use gis::block::Block;
use gis::bytes::Bytes;
use gis::chain::{Chain, SignersCache};
use gis::hashing::hash_identity;
use gis::miner::{MineJob, Miner};
use gis::settings::Settings;
use gis::transaction::Transaction;
use gis::types::Options;

fn bytes(v: &[u8]) -> Bytes {
    Bytes::from_bytes(v)
}

fn blk(index: u64, ts: i64, key: &[u8], tx: Option<Transaction>) -> Block {
    Block {
        index,
        timestamp: ts,
        version: 0,
        difficulty: 1,
        random: 0,
        nonce: 0,
        prev_block_hash: Bytes::empty(),
        hash: Bytes::from_bytes(&[index as u8; 32]),
        pub_key: Bytes::from_bytes(key),
        signature: Bytes::from_bytes(&[index as u8; 32]),
        transaction: tx,
    }
}

fn zone_tx(key: &[u8], name: &str) -> Transaction {
    Transaction::new(
        hash_identity(name),
        bytes(&[3u8; 16]),
        "zone".to_string(),
        format!("{{\"name\":\"{}\",\"difficulty\":22,\"yggdrasil\":false}}", name),
        bytes(key),
    )
}

#[test]
fn byte_strings_compare_and_zero() {
    assert_eq!(bytes(b"ab"), bytes(b"ab"));
    assert_ne!(bytes(b"ab"), bytes(b"ac"));
    assert!(Bytes::empty().is_zero());
    assert!(Bytes::zero32().is_zero());
    assert!(!bytes(&[0, 1]).is_zero());
    assert!(Bytes::empty().is_empty());
    assert_eq!(bytes(b"xyz").len(), 3);
    assert_eq!(bytes(b"xyz").byte_at(1), b'y');
}

#[test]
fn tip_accessors_follow_the_table() {
    let empty = Chain::new(&Settings::default(), vec![], Options::empty());
    assert_eq!(empty.get_height(), 0);
    assert!(empty.last_block().is_none());
    assert!(empty.get_last_hash().is_empty());
    assert_eq!(empty.next_allowed_full_block(), 1);
    assert!(!empty.is_waiting_signers());

    let one = blk(1, 1000, b"K1", Some(zone_tx(b"K1", "test")));
    let chain = Chain::new(&Settings::default(), vec![one.clone()], Options::empty());
    assert_eq!(chain.get_height(), 1);
    assert_eq!(chain.last_block().unwrap().index, 1);
    assert_eq!(chain.get_last_hash().as_slice(), one.hash.as_slice());
    assert!(chain.is_waiting_signers());
    assert_eq!(chain.next_allowed_full_block(), 3);
    let mut chain = chain;
    chain.update_max_height(99);
    assert_eq!(chain.max_height(), 99);
    assert!(chain.get_block(0).is_none());
    assert!(chain.get_block(2).is_none());
    assert_eq!(chain.get_block(1).unwrap().index, 1);
}

#[test]
fn row_lookups_respect_the_height_bound() {
    let chain = Chain::new(
        &Settings::default(),
        vec![blk(1, 1000, b"K1", Some(zone_tx(b"K1", "test")))],
        Options::empty(),
    );
    let id = hash_identity("test");
    assert!(chain.is_id_in_blockchain(u64::MAX, &id, true));
    assert!(!chain.is_id_in_blockchain(u64::MAX, &id, false));
    // rows strictly below index one: the only row does not count
    assert!(!chain.is_id_in_blockchain(1, &id, true));
    assert!(chain.is_id_available(u64::MAX, &id, &bytes(b"K1"), true));
    assert!(!chain.is_id_available(u64::MAX, &id, &bytes(b"K2"), true));
    assert!(chain.is_id_available(u64::MAX, &id, &bytes(b"K2"), false));
    let full = chain.get_last_full_block(u64::MAX, None).unwrap();
    assert_eq!(full.index, 1);
    assert!(chain.get_last_full_block(1, None).is_none());
    assert!(chain.get_last_full_block(u64::MAX, Some(b"K1")).is_some());
    assert!(chain.get_last_full_block(u64::MAX, Some(b"K2")).is_none());
    assert_eq!(chain.get_domain_info("test"), None);
}

#[test]
fn signer_cache_remembers_one_election() {
    let mut cache = SignersCache::new();
    assert!(!cache.has_signers_for(0));
    assert!(!cache.has_signers_for(5));
    cache.index = 5;
    cache.signers = vec![bytes(b"A")];
    assert!(cache.has_signers_for(5));
    assert!(!cache.has_signers_for(6));
    cache.clear();
    assert!(!cache.has_signers_for(5));
}

#[test]
fn miner_flags_and_requeue() {
    let mut miner = Miner::new();
    assert!(!miner.mining_now());
    miner.set_mining(true);
    assert!(miner.mining_now());
    let job = MineJob { start: 0, block: blk(1, 0, b"K", None) };
    miner.add_job(job.clone());
    let taken = miner.take_due_job(10).unwrap();
    miner.requeue_front(taken);
    miner.add_job(MineJob { start: 7, block: blk(2, 0, b"K", None) });
    assert_eq!(miner.job_count(), 2);
    // the requeued job is at the front again
    assert_eq!(miner.take_due_job(10).unwrap().block.index, 1);
    miner.stop();
    assert!(!miner.mining_now());
    assert!(!miner.is_mining());
}
