//! The chain engine: construction, queries, election, gates and repair.

use gis::block::Block;
use gis::bytes::Bytes;
use gis::chain::Chain;
use gis::constants::DOMAIN_LIFETIME;
use gis::hashing::hash_identity;
use gis::keys::Keystore;
use gis::settings::Settings;
use gis::transaction::Transaction;
use gis::types::{BlockQuality, MineResult, Options};

fn bytes(v: &[u8]) -> Bytes {
    Bytes::from_bytes(v)
}

fn blk(index: u64, ts: i64, key: &[u8], tx: Option<Transaction>) -> Block {
    Block {
        index,
        timestamp: ts,
        version: 0,
        difficulty: 1,
        random: 0,
        nonce: 0,
        prev_block_hash: Bytes::empty(),
        hash: Bytes::from_bytes(&[index as u8; 32]),
        pub_key: Bytes::from_bytes(key),
        signature: Bytes::from_bytes(&[index as u8; 32]),
        transaction: tx,
    }
}

fn zone_tx(key: &[u8], name: &str, difficulty: u32, yggdrasil: bool) -> Transaction {
    Transaction::new(
        hash_identity(name),
        bytes(&[3u8; 16]),
        "zone".to_string(),
        format!(
            "{{\"name\":\"{}\",\"difficulty\":{},\"yggdrasil\":{}}}",
            name, difficulty, yggdrasil
        ),
        bytes(key),
    )
}

fn domain_tx(key: &[u8], name: &str, data: String) -> Transaction {
    Transaction::new(hash_identity(name), bytes(&[4u8; 16]), "domain".to_string(), data, bytes(key))
}

fn open(blocks: Vec<Block>) -> Chain {
    Chain::new(&Settings::default(), blocks, Options::empty())
}

#[test]
fn bootstrap_zone_is_visible() {
    let chain = open(vec![blk(1, 1000, b"K1", Some(zone_tx(b"K1", "test", 22, false)))]);
    assert_eq!(chain.get_height(), 1);
    let zones = chain.get_zones();
    assert_eq!(zones.len(), 1);
    assert_eq!(zones[0].name, "test");
    assert_eq!(zones[0].difficulty, 22);
    assert!(!zones[0].yggdrasil);
    assert_eq!(chain.get_zone_difficulty("test"), 22);
    assert_eq!(chain.get_zone_difficulty("nope"), u32::MAX);
    let mut chain = chain;
    assert!(chain.is_zone_in_blockchain(u64::MAX, "test"));
    assert!(!chain.is_zone_in_blockchain(u64::MAX, "nope"));
    // the cache answers the second ask too
    assert!(chain.is_zone_in_blockchain(u64::MAX, "test"));
}

#[test]
fn redeclared_zone_keeps_one_entry_with_the_late_value() {
    let chain = open(vec![
        blk(1, 1000, b"K1", Some(zone_tx(b"K1", "test", 22, false))),
        blk(2, 1001, b"K1", Some(zone_tx(b"K1", "test", 30, true))),
    ]);
    let zones = chain.get_zones();
    assert_eq!(zones.len(), 1);
    assert_eq!(zones[0].difficulty, 30);
    assert!(zones[0].yggdrasil);
}

#[test]
fn wrong_origin_wipes_the_store() {
    let mut settings = Settings::default();
    settings.origin = "aa".repeat(32);
    let stored_foreign = Options { origin: "bb".repeat(32), version: 0 };
    let chain = Chain::new(
        &settings,
        vec![blk(1, 1000, b"K1", None)],
        stored_foreign,
    );
    assert_eq!(chain.get_height(), 0);

    let stored_matching = Options { origin: "aa".repeat(32), version: 0 };
    let chain = Chain::new(
        &settings,
        vec![blk(1, 1000, b"K1", None)],
        stored_matching,
    );
    assert_eq!(chain.get_height(), 1);
}

#[test]
fn cooldown_runs_a_day_from_the_last_payload() {
    let t0: i64 = 1000;
    let mut chain = open(vec![blk(1, t0, b"K1", Some(zone_tx(b"K1", "test", 22, false)))]);
    let owner = bytes(b"K1");
    // a fresh name sixty seconds in: the rest of the day must pass
    let r = chain.can_mine_domain_at(u64::MAX, "foo.test", &owner, t0 + 60);
    assert_eq!(r, MineResult::Cooldown { time: 86400 - 60 });
    // a day and a second later the name is free to mine
    let r = chain.can_mine_domain_at(u64::MAX, "foo.test", &owner, t0 + 86401);
    assert_eq!(r, MineResult::Fine);
    // a key with no payload block has no cooldown at all
    let r = chain.can_mine_domain_at(u64::MAX, "foo.test", &bytes(b"K2"), t0 + 60);
    assert_eq!(r, MineResult::Fine);
    // names outside the rules
    assert_eq!(
        chain.can_mine_domain_at(u64::MAX, "a.b.test", &owner, t0 + 60),
        MineResult::WrongName
    );
    assert_eq!(
        chain.can_mine_domain_at(u64::MAX, "foo.nozone", &owner, t0 + 60),
        MineResult::WrongZone
    );
}

#[test]
fn a_taken_domain_is_not_owned_by_others() {
    let t0: i64 = 1000;
    let data = "{\"zone\":\"test\",\"domain\":[],\"records\":[]}".to_string();
    let mut chain = open(vec![
        blk(1, t0, b"K1", Some(zone_tx(b"K1", "test", 22, false))),
        blk(2, t0 + 1, b"K1", Some(domain_tx(b"K1", "foo.test", data))),
    ]);
    let r = chain.can_mine_domain_at(u64::MAX, "foo.test", &bytes(b"K2"), t0 + 99999);
    assert_eq!(r, MineResult::NotOwned);
    // the owner may re-assert it: the identity is no longer new
    let r = chain.can_mine_domain_at(u64::MAX, "foo.test", &bytes(b"K1"), t0 + 60);
    assert_eq!(r, MineResult::Fine);
    // availability asks the same rules
    let k2 = Keystore::from_bytes(bytes(b"K2"));
    assert!(!chain.is_domain_available(u64::MAX, "foo.test", &k2));
    assert!(chain.is_domain_available(u64::MAX, "bar.test", &k2));
    assert!(!chain.is_domain_available(u64::MAX, "bar.nozone", &k2));
}

#[test]
fn domain_transactions_expire() {
    let t0: i64 = 1000;
    let data = "{\"zone\":\"test\",\"domain\":[],\"records\":[]}".to_string();
    let chain = open(vec![
        blk(1, t0, b"K1", Some(zone_tx(b"K1", "test", 22, false))),
        blk(2, t0 + 1, b"K1", Some(domain_tx(b"K1", "foo.test", data.clone()))),
    ]);
    let tx = chain.get_domain_transaction_at("foo.test", t0 + 100).expect("current");
    assert_eq!(tx.class, "domain");
    assert_eq!(tx.data, data);
    assert_eq!(tx.identity.as_slice(), hash_identity("foo.test").as_slice());
    assert!(chain.get_domain_transaction_at("foo.test", t0 + 1 + DOMAIN_LIFETIME + 1).is_none());
    assert!(chain.get_domain_transaction_at("bar.test", t0 + 100).is_none());
    assert!(chain.get_domain_transaction_at("", t0 + 100).is_none());
}

/// Nine distinct miners below a payload block whose signature tail seeds the
/// walk with seven.
fn election_chain() -> Vec<Block> {
    let mut blocks = Vec::new();
    for i in 1u64..=9 {
        let key = format!("A{}", i);
        blocks.push(blk(i, 1000 + i as i64, key.as_bytes(), None));
    }
    let mut full = blk(10, 2000, b"K", Some(zone_tx(b"K", "test", 22, false)));
    let mut sig = [0u8; 32];
    sig[31] = 7;
    full.signature = Bytes::from_bytes(&sig);
    blocks.push(full);
    blocks
}

#[test]
fn signer_election_is_deterministic_and_ordered() {
    let mut chain = open(election_chain());
    let full = chain.get_block(10).unwrap();
    let signers = chain.get_block_signers(&full);
    // seed 7, window 9: positions 8, 6, 4, 2, 9, 7, 5 in discovery order
    let expect = ["A8", "A6", "A4", "A2", "A9", "A7", "A5"];
    assert_eq!(signers.len(), 7);
    for (got, want) in signers.iter().zip(expect.iter()) {
        assert_eq!(got.as_slice(), want.as_bytes());
    }
    // electing again, cached or not, gives the same ordered list
    let again = chain.get_block_signers(&full);
    for (a, b) in signers.iter().zip(again.iter()) {
        assert_eq!(a.as_slice(), b.as_slice());
    }
    let mut fresh = open(election_chain());
    let third = fresh.get_block_signers(&full);
    for (a, b) in signers.iter().zip(third.iter()) {
        assert_eq!(a.as_slice(), b.as_slice());
    }
}

#[test]
fn signer_quota_gates_the_next_payload() {
    let mut chain = open(election_chain());
    let full = chain.get_block(10).unwrap();
    // no ratification yet: a new payload may not stack
    let payload = blk(11, 3000, b"A8", Some(zone_tx(b"A8", "zz", 22, false)));
    assert!(!chain.is_good_sign_block(&payload, &Some(full.clone())));
    // an elected signer may sign
    let good_signer = blk(11, 3000, b"A8", None);
    assert!(chain.is_good_sign_block(&good_signer, &Some(full.clone())));
    // the payload miner was not elected
    let own_signer = blk(11, 3000, b"K", None);
    assert!(!chain.is_good_sign_block(&own_signer, &Some(full.clone())));
    assert!(chain.is_waiting_signers());
    assert_eq!(chain.next_allowed_full_block(), 12);

    // two ratifications later the payload gate opens
    let mut blocks = election_chain();
    blocks.push(blk(11, 3000, b"A8", None));
    blocks.push(blk(12, 3001, b"A6", None));
    let mut chain = open(blocks);
    let full = chain.get_block(10).unwrap();
    let next_payload = blk(13, 4000, b"A8", Some(zone_tx(b"A8", "zz", 22, false)));
    assert!(chain.is_good_sign_block(&next_payload, &Some(full.clone())));
    // a signer may not ratify the same payload twice
    let repeat = blk(13, 4000, b"A8", None);
    assert!(!chain.is_good_signer_for_block(&repeat, &full));
    assert!(!chain.is_waiting_signers());
    assert_eq!(chain.next_allowed_full_block(), 13);
}

#[test]
fn sign_block_template_goes_to_an_elected_signer() {
    let mut chain = open(election_chain());
    let tip_ts = 2000i64;
    let elected = Some(Keystore::from_bytes(bytes(b"A8")));
    let template = chain.get_sign_block_at(&elected, tip_ts + 61).expect("elected and due");
    assert_eq!(template.index, 11);
    assert_eq!(template.difficulty, gis::constants::SIGNER_DIFFICULTY);
    assert!(template.transaction.is_none());
    assert_eq!(
        template.prev_block_hash.as_slice(),
        chain.get_block(10).unwrap().hash.as_slice()
    );
    // too early: the tip must rest a minute
    assert!(chain.get_sign_block_at(&elected, tip_ts + 30).is_none());
    // the payload miner was not elected
    let own = Some(Keystore::from_bytes(bytes(b"K")));
    assert!(chain.get_sign_block_at(&own, tip_ts + 61).is_none());
    // no keys, no work
    assert!(chain.get_sign_block_at(&None, tip_ts + 61).is_none());
    // behind the network: syncing first
    chain.update_max_height(50);
    assert!(chain.get_sign_block_at(&elected, tip_ts + 61).is_none());
}

#[test]
fn sign_block_retarget_follows_the_tip() {
    let chain = open(election_chain());
    let template = blk(5, 3000, b"A8", None);
    let updated = chain.update_sign_block_for_mining(template.clone()).expect("still unlocked");
    assert_eq!(updated.index, 11);
    assert_eq!(
        updated.prev_block_hash.as_slice(),
        chain.get_block(10).unwrap().hash.as_slice()
    );
    let mut blocks = election_chain();
    blocks.push(blk(11, 3000, b"A8", None));
    blocks.push(blk(12, 3001, b"A6", None));
    let chain = open(blocks);
    assert!(chain.update_sign_block_for_mining(template).is_none());
}

#[test]
fn early_gates_judge_candidates() {
    let mut chain = open(vec![blk(1, 1000, b"K1", Some(zone_tx(b"K1", "test", 22, false)))]);
    let now = 5000i64;
    let last = chain.last_block();
    let last_full = chain.get_last_full_block(u64::MAX, None);
    let mut versioned = blk(2, 1001, b"K2", None);
    versioned.version = 1;
    assert_eq!(
        chain.check_block_at(&versioned, &last, &last_full, now),
        BlockQuality::Bad
    );
    let hasty = blk(2, now + 61, b"K2", None);
    assert_eq!(chain.check_block_at(&hasty, &last, &last_full, now), BlockQuality::Bad);
    let future = blk(5, 1001, b"K2", None);
    assert_eq!(chain.check_block_at(&future, &last, &last_full, now), BlockQuality::Future);
    // a key that cannot show twenty-three zero bits is turned away
    let weak = blk(2, 1001, b"K2", None);
    assert_eq!(chain.check_block_at(&weak, &last, &last_full, now), BlockQuality::Bad);
}

#[test]
fn check_chain_cuts_the_first_bad_suffix() {
    // hand-built blocks past genesis cannot carry real work: the check cuts
    // everything above the first block
    let mut chain = open(vec![
        blk(1, 1000, b"K1", Some(zone_tx(b"K1", "test", 22, false))),
        blk(2, 1001, b"K2", None),
        blk(3, 1002, b"K3", None),
    ]);
    chain.check_chain(u64::MAX);
    assert_eq!(chain.get_height(), 1);
    // genesis alone answers only for the origin: nothing to cut
    let mut chain = open(vec![blk(1, 1000, b"K1", Some(zone_tx(b"K1", "test", 22, false)))]);
    chain.check_chain(u64::MAX);
    assert_eq!(chain.get_height(), 1);
    // an empty store stays empty
    let mut chain = open(vec![]);
    chain.check_chain(u64::MAX);
    assert_eq!(chain.get_height(), 0);
}

#[test]
fn my_domains_open_their_names() {
    let ks = Keystore::from_bytes(bytes(b"K1"));
    let salt = [5u8; 16];
    let sealed = ks.encrypt(b"foo.test", &salt[..12]);
    let data = format!(
        "{{\"zone\":\"test\",\"domain\":{:?},\"records\":[]}}",
        sealed.as_slice()
    );
    let mut tx = domain_tx(b"K1", "foo.test", data);
    tx.confirmation = bytes(&salt);
    let chain = open(vec![
        blk(1, 1000, b"K1", Some(zone_tx(b"K1", "test", 22, false))),
        blk(2, 1001, b"K1", Some(tx)),
    ]);
    let mine = chain.get_my_domains(&Some(ks.clone()));
    assert_eq!(mine.len(), 1);
    assert_eq!(mine[0].name, "foo.test");
    assert_eq!(mine[0].timestamp, 1001);
    assert_eq!(mine[0].identity.as_slice(), hash_identity("foo.test").as_slice());
    assert_eq!(mine[0].data.zone, "test");
    assert!(chain.get_my_domains(&None).is_empty());
    let stranger = Keystore::from_bytes(bytes(b"K9"));
    assert!(chain.get_my_domains(&Some(stranger)).is_empty());
}

#[test]
fn legacy_sealed_names_fall_back_to_block_hashes() {
    let ks = Keystore::from_bytes(bytes(b"K1"));
    let older = blk(1, 1000, b"K1", Some(zone_tx(b"K1", "test", 22, false)));
    // sealed under the hash of the block before the row, as early encodings were
    let sealed = ks.encrypt(b"foo.test", &older.hash.as_slice()[..12]);
    let data = format!(
        "{{\"zone\":\"test\",\"domain\":{:?},\"records\":[]}}",
        sealed.as_slice()
    );
    let mut tx = domain_tx(b"K1", "foo.test", data);
    tx.confirmation = bytes(&[6u8; 16]);
    let chain = open(vec![older, blk(2, 1001, b"K1", Some(tx))]);
    let mine = chain.get_my_domains(&Some(ks));
    assert_eq!(mine.len(), 1);
    assert_eq!(mine[0].name, "foo.test");
    // a stranger's key opens nothing and reads as unknown
    let stranger = Keystore::from_bytes(bytes(b"K1-other"));
    assert!(chain.get_my_domains(&Some(stranger)).is_empty());
}

#[test]
fn domain_info_hands_back_the_stored_data() {
    let now = chrono::Utc::now().timestamp();
    let data = "{\"zone\":\"test\",\"domain\":[],\"records\":[]}".to_string();
    let chain = open(vec![
        blk(1, now, b"K1", Some(zone_tx(b"K1", "test", 22, false))),
        blk(2, now, b"K1", Some(domain_tx(b"K1", "foo.test", data.clone()))),
    ]);
    assert_eq!(chain.get_domain_info("foo.test"), Some(data.clone()));
    assert_eq!(chain.get_domain_transaction("foo.test").unwrap().data, data);
    assert!(chain.get_domain_info("bar.test").is_none());
    assert!(chain.get_domain_info("").is_none());
}

#[test]
fn zone_cache_answers_below_the_row_once_primed() {
    let blocks = vec![blk(1, 1000, b"K1", Some(zone_tx(b"K1", "test", 22, false)))];
    let mut chain = open(blocks.clone());
    // unprimed, the height bound is honored: no row sits below index one
    assert!(!chain.is_zone_in_blockchain(1, "test"));
    // a full-height ask confirms the zone and caches its label
    assert!(chain.is_zone_in_blockchain(u64::MAX, "test"));
    // the read-through cache ignores the bound from then on
    assert!(chain.is_zone_in_blockchain(1, "test"));
}
