//! Protocol constants of the chain.

use vstd::prelude::*;

verus! {

/// Version of the database schema.
pub const DB_VERSION: u32 = 0;

/// Highest protocol version this node accepts in a block.
pub const CHAIN_VERSION: u32 = 0;

/// Difficulty required of payload blocks that establish a zone (and of genesis).
pub const ZONE_DIFFICULTY: u32 = 28;

/// Lowest difficulty a zone may declare for the domains below it.
pub const ZONE_MIN_DIFFICULTY: u32 = 22;

/// Difficulty required of signing blocks.
pub const SIGNER_DIFFICULTY: u32 = 16;

/// Required strength (leading zero bits of the hashed public key) of a miner key.
pub const KEYSTORE_DIFFICULTY: u32 = 23;

/// Blocks are subject to the signer rules from this index on (exclusive).
pub const BLOCK_SIGNERS_START: u64 = 0;

/// How many signers are elected for each payload block.
pub const BLOCK_SIGNERS_ALL: u64 = 7;

/// How many of the elected signers must ratify a payload block before the
/// chain may carry the next payload.
pub const BLOCK_SIGNERS_MIN: u64 = 2;

/// Miners stagger the start of signing work by a random delay below this bound, in seconds.
pub const BLOCK_SIGNERS_START_RANDOM: i64 = 180;

/// Minimum gap in seconds between two payload blocks of one key that introduce
/// a new identity.
pub const NEW_DOMAINS_INTERVAL: i64 = 86400;

/// How long a domain registration stays alive, in seconds.
pub const DOMAIN_LIFETIME: i64 = 86400 * 365;

/// Longest label a zone may use.
pub const ZONE_MAX_LENGTH: usize = 10;

/// Transaction class of a zone registration.
pub const CLASS_ZONE: &'static str = "zone";

/// Transaction class of a domain registration.
pub const CLASS_DOMAIN: &'static str = "domain";

/// File name of the block database kept beside the node.
pub const DB_NAME: &'static str = "guachain.db";

} // verus!
