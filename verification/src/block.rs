//! Blocks: the unit the chain is made of.

use vstd::prelude::*;

use crate::bytes::Bytes;
use crate::codec::{be4, be8, push_u32_be, push_u64_be};
use crate::constants::CHAIN_VERSION;
use crate::hashing::{hash_bytes, hash_of, lz_bits};
use crate::keys::sig_of;
use crate::timeutil::now_timestamp;
use crate::transaction::{tx_json_bytes, Transaction, TransactionV};

verus! {

/// The mathematical shape of a block.
pub ghost struct BlockV {
    pub index: u64,
    pub timestamp: i64,
    pub version: u32,
    pub difficulty: u32,
    pub random: u32,
    pub nonce: u64,
    pub prev_block_hash: Seq<u8>,
    pub hash: Seq<u8>,
    pub pub_key: Seq<u8>,
    pub signature: Seq<u8>,
    pub transaction: Option<TransactionV>,
}

/// A block. One with a transaction is a payload block; one without is a
/// signing block, mined by an elected signer to ratify the latest payload.
pub struct Block {
    pub index: u64,
    pub timestamp: i64,
    pub version: u32,
    pub difficulty: u32,
    pub random: u32,
    pub nonce: u64,
    pub prev_block_hash: Bytes,
    pub hash: Bytes,
    pub pub_key: Bytes,
    pub signature: Bytes,
    pub transaction: Option<Transaction>,
}

impl View for Block {
    type V = BlockV;

    open spec fn view(&self) -> BlockV {
        BlockV {
            index: self.index,
            timestamp: self.timestamp,
            version: self.version,
            difficulty: self.difficulty,
            random: self.random,
            nonce: self.nonce,
            prev_block_hash: self.prev_block_hash@,
            hash: self.hash@,
            pub_key: self.pub_key@,
            signature: self.signature@,
            transaction: match self.transaction {
                Some(t) => Some(t@),
                None => None,
            },
        }
    }
}

impl Clone for Block {
    fn clone(&self) -> (r: Self)
        ensures
            r@ == self@,
    {
        Block {
            index: self.index,
            timestamp: self.timestamp,
            version: self.version,
            difficulty: self.difficulty,
            random: self.random,
            nonce: self.nonce,
            prev_block_hash: self.prev_block_hash.clone(),
            hash: self.hash.clone(),
            pub_key: self.pub_key.clone(),
            signature: self.signature.clone(),
            transaction: match &self.transaction {
                Some(t) => Some(t.clone()),
                None => None,
            },
        }
    }
}

/// The deterministic byte string a block is hashed and signed over. The
/// `hash` and `signature` fields are cleared, so they do not appear;
/// variable-length fields carry their length up front.
pub open spec fn block_bytes(b: BlockV) -> Seq<u8> {
    be8(b.index) + be8(b.timestamp as u64) + be4(b.version) + be4(b.difficulty) + be4(b.random)
        + be8(b.nonce) + be4(b.prev_block_hash.len() as u32) + b.prev_block_hash + be4(
        b.pub_key.len() as u32,
    ) + b.pub_key + (match b.transaction {
        None => seq![0u8],
        Some(t) => seq![1u8] + be4(tx_json_bytes(t).len() as u32) + tx_json_bytes(t),
    })
}

/// A block's stored hash is the hash of its serialization.
pub open spec fn block_hash_ok(b: BlockV) -> bool {
    b.hash == hash_of(block_bytes(b))
}

/// A block's signature is the signature of its serialization under its own key.
pub open spec fn block_sig_ok(b: BlockV) -> bool {
    b.signature == sig_of(b.pub_key, block_bytes(b))
}

/// A block's hash reaches the difficulty the block claims.
pub open spec fn block_pow_ok(b: BlockV) -> bool {
    lz_bits(b.hash) >= b.difficulty
}

impl Block {
    /// An unmined block around an optional payload: nonce, random, hash and
    /// signature still empty, the timestamp read from the clock.
    pub fn new(
        transaction: Option<Transaction>,
        pub_key: Bytes,
        prev_block_hash: Bytes,
        difficulty: u32,
    ) -> (r: Block)
        ensures
            r@ == (BlockV { timestamp: r@.timestamp, ..Self::template_view(
                match transaction {
                    Some(t) => Some(t@),
                    None => None,
                },
                pub_key@,
                prev_block_hash@,
                difficulty,
            ) }),
    {
        let timestamp = now_timestamp();
        Block::new_at(transaction, pub_key, prev_block_hash, difficulty, timestamp)
    }

    /// The shape `new` and `new_at` return, up to the timestamp.
    pub open spec fn template_view(
        transaction: Option<TransactionV>,
        pub_key: Seq<u8>,
        prev_block_hash: Seq<u8>,
        difficulty: u32,
    ) -> BlockV {
        BlockV {
            index: 0,
            timestamp: 0,
            version: CHAIN_VERSION,
            difficulty: difficulty,
            random: 0,
            nonce: 0,
            prev_block_hash: prev_block_hash,
            hash: Seq::<u8>::empty(),
            pub_key: pub_key,
            signature: Seq::<u8>::empty(),
            transaction: transaction,
        }
    }

    /// As `new`, with the timestamp passed in.
    pub fn new_at(
        transaction: Option<Transaction>,
        pub_key: Bytes,
        prev_block_hash: Bytes,
        difficulty: u32,
        timestamp: i64,
    ) -> (r: Block)
        ensures
            r@ == (BlockV { timestamp, ..Self::template_view(
                match transaction {
                    Some(t) => Some(t@),
                    None => None,
                },
                pub_key@,
                prev_block_hash@,
                difficulty,
            ) }),
    {
        Block {
            index: 0,
            timestamp,
            version: CHAIN_VERSION,
            difficulty,
            random: 0,
            nonce: 0,
            prev_block_hash,
            hash: Bytes::empty(),
            pub_key,
            signature: Bytes::empty(),
            transaction,
        }
    }

    /// The byte string this block is hashed and signed over.
    pub fn bytes_for_hash(&self) -> (r: Vec<u8>)
        ensures
            r@ == block_bytes(self@),
    {
        let mut out: Vec<u8> = Vec::new();
        push_u64_be(&mut out, self.index);
        push_u64_be(&mut out, #[verifier::truncate] (self.timestamp as u64));
        push_u32_be(&mut out, self.version);
        push_u32_be(&mut out, self.difficulty);
        push_u32_be(&mut out, self.random);
        push_u64_be(&mut out, self.nonce);
        push_u32_be(&mut out, #[verifier::truncate] (self.prev_block_hash.len() as u32));
        out.extend_from_slice(self.prev_block_hash.as_slice());
        push_u32_be(&mut out, #[verifier::truncate] (self.pub_key.len() as u32));
        out.extend_from_slice(self.pub_key.as_slice());
        match &self.transaction {
            None => {
                out.push(0u8);
            },
            Some(t) => {
                out.push(1u8);
                let tx = t.to_json_bytes();
                push_u32_be(&mut out, #[verifier::truncate] (tx.len() as u32));
                out.extend_from_slice(tx.as_slice());
            },
        }
        proof {
            assert(out@ =~= block_bytes(self@));
        }
        out
    }

    /// True for a payload block.
    pub fn is_full(&self) -> (r: bool)
        ensures
            r == self@.transaction is Some,
    {
        self.transaction.is_some()
    }

    /// Genesis is the block at index one, chained to nothing.
    pub fn is_genesis(&self) -> (r: bool)
        ensures
            r == (self@.index == 1 && self@.prev_block_hash.len() == 0),
    {
        self.index == 1 && self.prev_block_hash.is_empty()
    }
}

/// Recomputes a block's hash and compares it with the stored one.
pub fn check_block_hash(block: &Block) -> (r: bool)
    ensures
        r == block_hash_ok(block@),
{
    let bytes = block.bytes_for_hash();
    let h = hash_bytes(bytes.as_slice());
    crate::bytes::slices_equal(h.as_slice(), block.hash.as_slice())
}

/// Recomputes the signature of a block's serialization under the block's own
/// key and compares it with the stored one.
pub fn check_block_signature(block: &Block) -> (r: bool)
    ensures
        r == block_sig_ok(block@),
{
    let bytes = block.bytes_for_hash();
    let keystore = crate::keys::Keystore::from_bytes(block.pub_key.clone());
    let expect = keystore.sign(bytes.as_slice());
    crate::bytes::slices_equal(expect.as_slice(), block.signature.as_slice())
}

} // verus!
