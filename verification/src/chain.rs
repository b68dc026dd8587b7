//! The chain engine: it owns the block table, validates candidates, extends
//! and repairs the chain, elects signers and answers availability queries.
//!
//! The engine works on an in-memory copy of the block table; whoever opens
//! the node loads the table from disk, hands it in, and mirrors every
//! mutation back out.

use vstd::prelude::*;

use crate::block::{Block, BlockV};
use crate::bytes::{all_zero, Bytes};
use crate::codec::{hex_bytes, push_hex, str_eq};
use crate::constants::{
    BLOCK_SIGNERS_ALL, BLOCK_SIGNERS_MIN, BLOCK_SIGNERS_START, DOMAIN_LIFETIME,
    KEYSTORE_DIFFICULTY, NEW_DOMAINS_INTERVAL, SIGNER_DIFFICULTY,
};
use crate::hashing::{check_public_key_strength, hash_bytes, hash_of};
use crate::keys::Keystore;
use crate::names::{check_name, lower_bytes, lower_bytes_exec, split_zone};
use crate::settings::Settings;
use crate::timeutil::now_timestamp;
use crate::transaction::{Transaction, ZoneData};
use crate::types::{BlockQuality, MineResult, Options};
use crate::validity::{
    check_block_spec, first_row_from, id_available, id_in_chain, is_payload, last_payload_of_key_pos,
    last_payload_pos, last_row_pos, row_match, signers_spec, wf_seq, zone_lookup,
    zones_fold,
};

verus! {

use vstd::string::StringSliceAdditionalSpecFns;

/// The mathematical shape of the engine's state.
pub ghost struct ChainV {
    pub origin: Seq<u8>,
    pub blocks: Seq<BlockV>,
    pub options_origin: Seq<char>,
    pub options_version: u32,
    pub last_block: Option<BlockV>,
    pub last_full_block: Option<BlockV>,
    pub max_height: u64,
    pub zones_cache: Seq<Seq<u8>>,
    pub signers_index: u64,
    pub signers_list: Seq<Seq<u8>>,
}

/// The memoized signer election of the current tip.
pub struct SignersCache {
    pub index: u64,
    pub signers: Vec<Bytes>,
}

impl SignersCache {
    /// An empty cache.
    pub fn new() -> (r: SignersCache)
        ensures
            r.index == 0,
            r.signers@.len() == 0,
    {
        SignersCache { index: 0, signers: Vec::new() }
    }

    /// Whether the cache holds the election of the payload block at `index`.
    pub fn has_signers_for(&self, index: u64) -> (r: bool)
        ensures
            r == (self.index == index && self.signers@.len() > 0),
    {
        self.index == index && !self.signers.is_empty()
    }

    /// Drops whatever the cache holds.
    pub fn clear(&mut self)
        ensures
            final(self).index == 0,
            final(self).signers@.len() == 0,
    {
        self.index = 0;
        self.signers.clear();
    }
}

/// The view of the last block of a chain, if any.
pub open spec fn last_of(s: Seq<BlockV>) -> Option<BlockV> {
    if s.len() == 0 {
        None
    } else {
        Some(s.last())
    }
}

/// The view of the last payload block of a chain, if any.
pub open spec fn last_full_of(s: Seq<BlockV>) -> Option<BlockV> {
    let p = last_payload_pos(s, s.len() as int);
    if p >= 0 {
        Some(s[p])
    } else {
        None
    }
}

/// The view of an optional block.
pub open spec fn opt_view(o: Option<Block>) -> Option<BlockV> {
    match o {
        Some(b) => Some(b@),
        None => None,
    }
}

/// The view of an optional transaction.
pub open spec fn opt_tx_view(o: Option<Transaction>) -> Option<crate::transaction::TransactionV> {
    match o {
        Some(t) => Some(t@),
        None => None,
    }
}

/// The chain engine.
pub struct Chain {
    origin: Bytes,
    last_block: Option<Block>,
    last_full_block: Option<Block>,
    max_height: u64,
    blocks: Vec<Block>,
    options: Options,
    zones: Vec<Vec<u8>>,
    signers: SignersCache,
}

impl View for Chain {
    type V = ChainV;

    closed spec fn view(&self) -> ChainV {
        ChainV {
            origin: self.origin@,
            blocks: self.blocks@.map_values(|b: Block| b@),
            options_origin: self.options.origin@,
            options_version: self.options.version,
            last_block: opt_view(self.last_block),
            last_full_block: opt_view(self.last_full_block),
            max_height: self.max_height,
            zones_cache: self.zones@.map_values(|z: Vec<u8>| z@),
            signers_index: self.signers.index,
            signers_list: self.signers.signers@.map_values(|b: Bytes| b@),
        }
    }
}

/// The parts of the engine that queries may not disturb: everything but the
/// two read-through caches.
pub open spec fn same_core(a: ChainV, b: ChainV) -> bool {
    &&& a.origin == b.origin
    &&& a.blocks == b.blocks
    &&& a.options_origin == b.options_origin
    &&& a.options_version == b.options_version
    &&& a.last_block == b.last_block
    &&& a.last_full_block == b.last_full_block
    &&& a.max_height == b.max_height
}

impl Chain {
    /// The engine invariant: the table is contiguous from index one and small
    /// enough for a store that counts in signed words; the tip caches agree
    /// with the table; a filled signer cache holds the election of the stored
    /// payload block it is keyed by.
    pub open spec fn wf(self) -> bool {
        let s = self@.blocks;
        &&& wf_seq(s)
        &&& s.len() < 0x7fff_ffff_ffff_ffff
        &&& self@.last_block == last_of(s)
        &&& self@.last_full_block == last_full_of(s)
        &&& (self@.signers_index == 0 ==> self@.signers_list.len() == 0)
        &&& (self@.signers_index != 0 ==> {
            &&& 1 <= self@.signers_index
            &&& self@.signers_index - 1 < s.len()
            &&& is_payload(s[self@.signers_index - 1])
            &&& self@.signers_list == signers_spec(s, s[self@.signers_index - 1])
        })
    }

    /// Opens the engine over a loaded block table and its stored options.
    /// When both the configuration and the store name an origin and the two
    /// disagree, the store is wiped: the local chain grew from a foreign
    /// genesis. The caller must hand in a contiguous table.
    pub fn new(settings: &Settings, blocks: Vec<Block>, options: Options) -> (r: Chain)
        requires
            forall|i: int|
                0 <= i < blocks@.len() ==> (#[trigger] blocks@[i])@.index == i + 1,
            blocks@.len() < 0x7fff_ffff_ffff_ffff,
            settings.origin@ == Seq::<char>::empty() || crate::codec::from_hex_spec(vstd::utf8::encode_utf8(settings.origin@)) is Some,
        ensures
            r.wf(),
            r@.origin == settings.origin_spec(),
            r@.max_height == 0,
            r@.zones_cache.len() == 0,
            ({
                let wipe = !all_zero(settings.origin_spec()) && options.origin@.len() > 0
                    && hex_bytes(settings.origin_spec()) != vstd::utf8::encode_utf8(options.origin@);
                if wipe {
                    r@.blocks.len() == 0 && r@.options_origin.len() == 0 && r@.options_version == 0
                } else {
                    r@.blocks == blocks@.map_values(|b: Block| b@) && r@.options_origin
                        == options.origin@ && r@.options_version == options.version
                }
            }),
    {
        let origin = settings.get_origin();
        let mut chain = Chain {
            origin,
            last_block: None,
            last_full_block: None,
            max_height: 0,
            blocks,
            options,
            zones: Vec::new(),
            signers: SignersCache::new(),
        };
        let mut encoded: Vec<u8> = Vec::new();
        push_hex(&mut encoded, chain.origin.as_slice());
        let stored_differs = !crate::bytes::slices_equal(
            encoded.as_slice(),
            chain.options.origin.as_str().as_bytes(),
        );
        let stored_len = chain.options.origin.as_str().unicode_len();
        if !chain.origin.is_zero() && stored_len > 0 && stored_differs {
            chain.blocks = Vec::new();
            chain.options = Options::empty();
        }
        chain.reset_tip_caches();
        chain
    }

    /// Rebuilds the tip caches from the table.
    fn reset_tip_caches(&mut self)
        requires
            forall|i: int|
                0 <= i < old(self)@.blocks.len() ==> (#[trigger] old(self)@.blocks[i]).index == i
                    + 1,
        ensures
            final(self)@.blocks == old(self)@.blocks,
            final(self)@.origin == old(self)@.origin,
            final(self)@.options_origin == old(self)@.options_origin,
            final(self)@.options_version == old(self)@.options_version,
            final(self)@.max_height == old(self)@.max_height,
            final(self)@.zones_cache == old(self)@.zones_cache,
            final(self)@.signers_index == old(self)@.signers_index,
            final(self)@.signers_list == old(self)@.signers_list,
            final(self)@.last_block == last_of(final(self)@.blocks),
            final(self)@.last_full_block == last_full_of(final(self)@.blocks),
    {
        let ghost s = self@.blocks;
        if self.blocks.len() == 0 {
            self.last_block = None;
        } else {
            self.last_block = Some(self.blocks[self.blocks.len() - 1].clone());
        }
        proof {
            assert(self@.last_block == last_of(s));
        }
        let mut j: usize = self.blocks.len();
        self.last_full_block = None;
        while j > 0
            invariant
                j <= s.len(),
                s == self@.blocks,
                self@.last_full_block is None,
                last_payload_pos(s, s.len() as int) == last_payload_pos(s, j as int),
                self@.blocks == old(self)@.blocks,
                self@.origin == old(self)@.origin,
                self@.options_origin == old(self)@.options_origin,
                self@.options_version == old(self)@.options_version,
                self@.max_height == old(self)@.max_height,
                self@.zones_cache == old(self)@.zones_cache,
                self@.signers_index == old(self)@.signers_index,
                self@.signers_list == old(self)@.signers_list,
                self@.last_block == last_of(s),
            decreases j,
        {
            j = j - 1;
            if self.blocks[j].is_full() {
                let b = self.blocks[j].clone();
                self.last_full_block = Some(b);
                proof {
                    assert(last_payload_pos(s, j + 1) == j);
                }
                return ;
            }
        }
    }

    /// The cached tip.
    pub fn last_block(&self) -> (r: Option<Block>)
        ensures
            opt_view(r) == self@.last_block,
    {
        match &self.last_block {
            Some(b) => Some(b.clone()),
            None => None,
        }
    }

    /// The height of the chain: the index of its last block.
    pub fn get_height(&self) -> (r: u64)
        requires
            self.wf(),
        ensures
            r == self@.blocks.len(),
    {
        match &self.last_block {
            None => 0u64,
            Some(block) => block.index,
        }
    }

    /// The hash of the tip, or the empty string on an empty chain.
    pub fn get_last_hash(&self) -> (r: Bytes)
        ensures
            r@ == (match self@.last_block {
                None => Seq::<u8>::empty(),
                Some(b) => b.hash,
            }),
    {
        match &self.last_block {
            None => Bytes::empty(),
            Some(block) => block.hash.clone(),
        }
    }

    /// The highest chain height any peer has reported.
    pub fn max_height(&self) -> (r: u64)
        ensures
            r == self@.max_height,
    {
        self.max_height
    }

    /// Records a height reported by a peer.
    pub fn update_max_height(&mut self, height: u64)
        ensures
            final(self)@ == (ChainV { max_height: height, ..old(self)@ }),
    {
        self.max_height = height;
    }

    /// The stored block of the given index, if any.
    pub fn get_block(&self, index: u64) -> (r: Option<Block>)
        requires
            self.wf(),
        ensures
            (match r {
                Some(b) => 1 <= index && index - 1 < self@.blocks.len() && b@ == self@.blocks[index
                    - 1],
                None => index == 0 || index > self@.blocks.len(),
            }),
    {
        if index >= 1 && index - 1 < self.blocks.len() as u64 {
            let b = self.blocks[(index - 1) as usize].clone();
            Some(b)
        } else {
            None
        }
    }

    /// The last payload block below block index `before`, and of the given
    /// miner key if one is asked for.
    pub fn get_last_full_block(&self, before: u64, pub_key: Option<&[u8]>) -> (r: Option<Block>)
        requires
            self.wf(),
        ensures
            (match pub_key {
                None => {
                    let p = last_payload_pos(self@.blocks, before - 1);
                    (match r {
                        Some(b) => p >= 0 && b@ == self@.blocks[p],
                        None => p < 0,
                    })
                },
                Some(key) => {
                    let p = last_payload_of_key_pos(self@.blocks, before - 1, key@);
                    (match r {
                        Some(b) => p >= 0 && b@ == self@.blocks[p],
                        None => p < 0,
                    })
                },
            }),
    {
        let ghost s = self@.blocks;
        let len = self.blocks.len();
        let mut j: usize = len;
        if before == 0 {
            j = 0;
        } else if before - 1 < len as u64 {
            j = (before - 1) as usize;
        }
        proof {
            match pub_key {
                None => {
                    assert(last_payload_pos(s, before - 1) == last_payload_pos(s, j as int));
                },
                Some(key) => {
                    assert(last_payload_of_key_pos(s, before - 1, key@)
                        == last_payload_of_key_pos(s, j as int, key@));
                },
            }
        }
        while j > 0
            invariant
                j <= s.len(),
                s == self@.blocks,
                self.wf(),
                (match pub_key {
                    None => last_payload_pos(s, before - 1) == last_payload_pos(s, j as int),
                    Some(key) => last_payload_of_key_pos(s, before - 1, key@)
                        == last_payload_of_key_pos(s, j as int, key@),
                }),
            decreases j,
        {
            j = j - 1;
            let b = &self.blocks[j];
            if b.is_full() {
                match pub_key {
                    None => {
                        return Some(b.clone());
                    },
                    Some(key) => {
                        if crate::bytes::slices_equal(b.pub_key.as_slice(), key) {
                            return Some(b.clone());
                        }
                    },
                }
            }
        }
        None
    }

    /// Whether the identity is free for `key` under the given kind below
    /// block index `height`: the store's first matching row decides.
    pub fn is_id_available(
        &self,
        height: u64,
        identity: &Bytes,
        public_key: &Bytes,
        zone: bool,
    ) -> (r: bool)
        requires
            self.wf(),
        ensures
            r == id_available(self@.blocks, height as int, identity@, public_key@, zone),
    {
        match self.first_row(height, identity, zone) {
            Some(j) => {
                let b = &self.blocks[j];
                match &b.transaction {
                    Some(t) => crate::bytes::slices_equal(
                        t.pub_key.as_slice(),
                        public_key.as_slice(),
                    ),
                    None => true,
                }
            },
            None => true,
        }
    }

    /// Whether a row of the given kind and identity exists below block index
    /// `height`.
    pub fn is_id_in_blockchain(&self, height: u64, id: &Bytes, zone: bool) -> (r: bool)
        requires
            self.wf(),
        ensures
            r == id_in_chain(self@.blocks, height as int, id@, zone),
    {
        self.first_row(height, id, zone).is_some()
    }

    /// Finds the store's first row of the given kind and identity below block
    /// index `height`.
    fn first_row(&self, height: u64, identity: &Bytes, zone: bool) -> (r: Option<usize>)
        requires
            self.wf(),
        ensures
            (match r {
                Some(j) => first_row_from(self@.blocks, 0, height as int, identity@, zone)
                    == j as int && j < self@.blocks.len() && row_match(
                    self@.blocks[j as int],
                    identity@,
                    zone,
                ),
                None => first_row_from(self@.blocks, 0, height as int, identity@, zone) < 0,
            }),
    {
        let ghost s = self@.blocks;
        let len = self.blocks.len();
        let mut j: usize = 0;
        loop
            invariant
                j <= s.len(),
                s == self@.blocks,
                self.wf(),
                len == s.len(),
                first_row_from(s, 0, height as int, identity@, zone) == first_row_from(
                    s,
                    j as int,
                    height as int,
                    identity@,
                    zone,
                ),
            decreases s.len() - j,
        {
            if j >= len || (j as u64) + 1 >= height {
                return None;
            }
            let b = &self.blocks[j];
            match &b.transaction {
                Some(t) => {
                    let kind_match = if zone {
                        str_eq(t.class.as_str(), "zone")
                    } else {
                        str_eq(t.class.as_str(), "domain")
                    };
                    if kind_match && crate::bytes::slices_equal(
                        t.identity.as_slice(),
                        identity.as_slice(),
                    ) {
                        return Some(j);
                    }
                },
                None => {},
            }
            j = j + 1;
        }
    }

    /// The zones declared among the first `n` blocks, each name once, later
    /// declarations replacing earlier ones in place.
    fn zones_before(&self, n: usize) -> (r: Vec<ZoneData>)
        requires
            self.wf(),
            n <= self@.blocks.len(),
        ensures
            r@.map_values(|z: ZoneData| (z.name@, z.difficulty, z.yggdrasil)) == zones_fold(
                self@.blocks,
                n as int,
            ),
    {
        let ghost s = self@.blocks;
        let mut acc: Vec<ZoneData> = Vec::new();
        let mut j: usize = 0;
        proof {
            assert(acc@.map_values(|z: ZoneData| (z.name@, z.difficulty, z.yggdrasil)) =~=
                zones_fold(s, 0));
        }
        while j < n
            invariant
                j <= n <= s.len(),
                s == self@.blocks,
                self.wf(),
                acc@.map_values(|z: ZoneData| (z.name@, z.difficulty, z.yggdrasil)) == zones_fold(
                    s,
                    j as int,
                ),
            decreases n - j,
        {
            let ghost acc0 = acc@.map_values(|z: ZoneData| (z.name@, z.difficulty, z.yggdrasil));
            let b = &self.blocks[j];
            match &b.transaction {
                Some(t) => {
                    if str_eq(t.class.as_str(), "zone") {
                        match t.get_zone_data() {
                            Some(z) => {
                                let pos = Self::find_zone_exec(&acc, z.name.as_str());
                                match pos {
                                    Some(p) => {
                                        acc.set(p, z);
                                    },
                                    None => {
                                        acc.push(z);
                                    },
                                }
                            },
                            None => {},
                        }
                    }
                },
                None => {},
            }
            proof {
                assert(acc@.map_values(|z: ZoneData| (z.name@, z.difficulty, z.yggdrasil)) =~=
                    zones_fold(s, j + 1));
            }
            j = j + 1;
        }
        acc
    }

    /// Finds a zone by name in an accumulated list.
    fn find_zone_exec(acc: &Vec<ZoneData>, name: &str) -> (r: Option<usize>)
        ensures
            ({
                let accv = acc@.map_values(|z: ZoneData| (z.name@, z.difficulty, z.yggdrasil));
                match r {
                    Some(p) => crate::validity::find_zone(accv, name@) == p as int && p
                        < acc@.len(),
                    None => crate::validity::find_zone(accv, name@) < 0,
                }
            }),
    {
        let ghost accv = acc@.map_values(|z: ZoneData| (z.name@, z.difficulty, z.yggdrasil));
        let mut i: usize = 0;
        while i < acc.len()
            invariant
                i <= acc@.len(),
                accv == acc@.map_values(|z: ZoneData| (z.name@, z.difficulty, z.yggdrasil)),
                crate::validity::find_zone_from(accv, name@, 0) == crate::validity::find_zone_from(
                    accv,
                    name@,
                    i as int,
                ),
            decreases acc@.len() - i,
        {
            if str_eq(acc[i].name.as_str(), name) {
                return Some(i);
            }
            i = i + 1;
        }
        None
    }

    /// All zones the chain declares, each name once.
    pub fn get_zones(&self) -> (r: Vec<ZoneData>)
        requires
            self.wf(),
        ensures
            r@.map_values(|z: ZoneData| (z.name@, z.difficulty, z.yggdrasil)) == zones_fold(
                self@.blocks,
                self@.blocks.len() as int,
            ),
    {
        self.zones_before(self.blocks.len())
    }

    /// The difficulty the named zone demands of its domains; impossible when
    /// no such zone is declared.
    pub fn get_zone_difficulty(&self, zone: &str) -> (r: u32)
        requires
            self.wf(),
        ensures
            r == (match zone_lookup(self@.blocks, self@.blocks.len() as int, zone@) {
                Some(z) => z.1,
                None => 0xffff_ffffu32,
            }),
    {
        let zones = self.get_zones();
        match Self::find_zone_exec(&zones, zone) {
            Some(p) => zones[p].difficulty,
            None => u32::MAX,
        }
    }

    /// Whether the named zone exists below block index `height`, first asking
    /// the read-through cache of zone labels, which ignores the height.
    fn zone_in_chain_bytes(&mut self, height: u64, zone: &[u8]) -> (r: bool)
        requires
            old(self).wf(),
        ensures
            final(self).wf(),
            same_core(final(self)@, old(self)@),
            final(self)@.signers_index == old(self)@.signers_index,
            final(self)@.signers_list == old(self)@.signers_list,
            r == (old(self)@.zones_cache.contains(zone@) || id_in_chain(
                old(self)@.blocks,
                height as int,
                hash_of(zone@),
                true,
            )),
            final(self)@.zones_cache == (if !old(self)@.zones_cache.contains(zone@)
                && id_in_chain(old(self)@.blocks, height as int, hash_of(zone@), true) {
                old(self)@.zones_cache.push(zone@)
            } else {
                old(self)@.zones_cache
            }),
    {
        let ghost zc = self@.zones_cache;
        let mut i: usize = 0;
        while i < self.zones.len()
            invariant
                i <= self.zones@.len(),
                zc == self@.zones_cache,
                self@ == old(self)@,
                old(self).wf(),
                forall|j: int| 0 <= j < i ==> self.zones@[j]@ != zone@,
            decreases self.zones@.len() - i,
        {
            if crate::bytes::slices_equal(self.zones[i].as_slice(), zone) {
                proof {
                    assert(self@.zones_cache[i as int] == zone@);
                }
                return true;
            }
            i = i + 1;
        }
        proof {
            assert(!zc.contains(zone@)) by {
                if zc.contains(zone@) {
                    let k = choose|k: int| 0 <= k < zc.len() && zc[k] == zone@;
                    assert(self.zones@[k]@ == zone@);
                }
            }
        }
        let identity = hash_bytes(zone);
        if self.is_id_in_blockchain(height, &identity, true) {
            self.zones.push(vstd::slice::slice_to_vec(zone));
            proof {
                assert(self@.zones_cache =~= zc.push(zone@));
            }
            return true;
        }
        false
    }

    /// Whether the named zone exists below block index `height`.
    pub fn is_zone_in_blockchain(&mut self, height: u64, zone: &str) -> (r: bool)
        requires
            old(self).wf(),
        ensures
            final(self).wf(),
            same_core(final(self)@, old(self)@),
            r == (old(self)@.zones_cache.contains(zone.spec_bytes()) || id_in_chain(
                old(self)@.blocks,
                height as int,
                hash_of(zone.spec_bytes()),
                true,
            )),
            final(self)@.zones_cache == (if !old(self)@.zones_cache.contains(zone.spec_bytes())
                && id_in_chain(old(self)@.blocks, height as int, hash_of(zone.spec_bytes()), true) {
                old(self)@.zones_cache.push(zone.spec_bytes())
            } else {
                old(self)@.zones_cache
            }),
    {
        self.zone_in_chain_bytes(height, zone.as_bytes())
    }

    /// The stored transaction of the domain whose label hashes to `identity`:
    /// the latest row, unless it has outlived `DOMAIN_LIFETIME` by `now`.
    pub open spec fn domain_tx_current(s: Seq<BlockV>, identity: Seq<u8>, now: i64) -> Option<
        int,
    > {
        let p = last_row_pos(s, s.len() as int, identity, false);
        if p >= 0 && !(s[p].timestamp < now - DOMAIN_LIFETIME) {
            Some(p)
        } else {
            None
        }
    }

    /// What the domain lookup answers for the label bytes `name` at the
    /// clock reading `t`: the latest unexpired row's transaction, rebuilt
    /// with class `domain`, or nothing when the name is empty, no row
    /// matches, or the latest one has expired.
    pub open spec fn domain_answer(
        s: Seq<BlockV>,
        name: Seq<u8>,
        r: Option<crate::transaction::TransactionV>,
        t: i64,
    ) -> bool {
        match r {
            Some(tx) => {
                let q = Self::domain_tx_current(s, hash_of(name), t);
                &&& q is Some
                &&& ({
                    let row = s[q->Some_0].transaction->Some_0;
                    &&& tx.identity == row.identity
                    &&& tx.confirmation == row.confirmation
                    &&& tx.class == "domain"@
                    &&& tx.data == row.data
                    &&& tx.pub_key == row.pub_key
                })
            },
            None => name.len() == 0 || Self::domain_tx_current(s, hash_of(name), t) is None,
        }
    }

    /// Looks the domain up by the hash of its raw label bytes.
    fn domain_transaction_bytes(&self, name: &[u8], now: i64) -> (r: Option<Transaction>)
        requires
            self.wf(),
        ensures
            (match r {
                Some(t) => {
                    let q = Self::domain_tx_current(self@.blocks, hash_of(name@), now);
                    &&& q is Some
                    &&& ({
                        let row = self@.blocks[q->Some_0].transaction->Some_0;
                        &&& t@.identity == row.identity
                        &&& t@.confirmation == row.confirmation
                        &&& t@.class == "domain"@
                        &&& t@.data == row.data
                        &&& t@.pub_key == row.pub_key
                    })
                },
                None => Self::domain_tx_current(self@.blocks, hash_of(name@), now) is None,
            }),
    {
        let ghost s = self@.blocks;
        let identity = hash_bytes(name);
        let mut j: usize = self.blocks.len();
        while j > 0
            invariant
                j <= s.len(),
                s == self@.blocks,
                self.wf(),
                identity@ == hash_of(name@),
                last_row_pos(s, s.len() as int, identity@, false) == last_row_pos(
                    s,
                    j as int,
                    identity@,
                    false,
                ),
            decreases j,
        {
            j = j - 1;
            let b = &self.blocks[j];
            match &b.transaction {
                Some(t) => {
                    if str_eq(t.class.as_str(), "domain") && crate::bytes::slices_equal(
                        t.identity.as_slice(),
                        identity.as_slice(),
                    ) {
                        let expired = match now.checked_sub(DOMAIN_LIFETIME) {
                            Some(threshold) => b.timestamp < threshold,
                            None => false,
                        };
                        if expired {
                            return None;
                        }
                        let tx = Transaction {
                            identity: t.identity.clone(),
                            confirmation: t.confirmation.clone(),
                            class: "domain".to_owned(),
                            data: t.data.clone(),
                            pub_key: t.pub_key.clone(),
                        };
                        return Some(tx);
                    }
                },
                None => {},
            }
        }
        None
    }

    /// The full transaction of a domain, by its label as stored: the latest
    /// registration, unless it has expired by `now`.
    pub fn get_domain_transaction_at(&self, domain: &str, now: i64) -> (r: Option<Transaction>)
        requires
            self.wf(),
        ensures
            Self::domain_answer(self@.blocks, domain.spec_bytes(), opt_tx_view(r), now),
    {
        if domain.as_bytes().len() == 0 {
            return None;
        }
        self.domain_transaction_bytes(domain.as_bytes(), now)
    }

    /// As `get_domain_transaction_at`, read at the wall clock: the answer is
    /// the latest unexpired row, field for field, at the instant read.
    pub fn get_domain_transaction(&self, domain: &str) -> (r: Option<Transaction>)
        requires
            self.wf(),
        ensures
            exists|t: i64|
                #![trigger Self::domain_answer(self@.blocks, domain.spec_bytes(), opt_tx_view(r), t)]
                Self::domain_answer(self@.blocks, domain.spec_bytes(), opt_tx_view(r), t),
    {
        let now = now_timestamp();
        let r = self.get_domain_transaction_at(domain, now);
        proof {
            let witness = now;
            assert(Self::domain_answer(
                self@.blocks,
                domain.spec_bytes(),
                opt_tx_view(r),
                witness,
            ));
        }
        r
    }

    /// The stored data of a domain, for the resolver: at the instant read,
    /// exactly the latest unexpired row's data, or nothing.
    pub fn get_domain_info(&self, domain: &str) -> (r: Option<String>)
        requires
            self.wf(),
        ensures
            exists|t: i64|
                #![trigger Self::domain_tx_current(self@.blocks, hash_of(domain.spec_bytes()), t)]
                (match r {
                    Some(data) => {
                        let q = Self::domain_tx_current(
                            self@.blocks,
                            hash_of(domain.spec_bytes()),
                            t,
                        );
                        &&& q is Some
                        &&& data@ == self@.blocks[q->Some_0].transaction->Some_0.data
                    },
                    None => domain.spec_bytes().len() == 0 || Self::domain_tx_current(
                        self@.blocks,
                        hash_of(domain.spec_bytes()),
                        t,
                    ) is None,
                }),
    {
        let now = now_timestamp();
        let r = match self.get_domain_transaction_at(domain, now) {
            None => None,
            Some(transaction) => Some(transaction.data),
        };
        proof {
            let witness = now;
            assert(match r {
                Some(data) => {
                    let q = Self::domain_tx_current(
                        self@.blocks,
                        hash_of(domain.spec_bytes()),
                        witness,
                    );
                    &&& q is Some
                    &&& data@ == self@.blocks[q->Some_0].transaction->Some_0.data
                },
                None => domain.spec_bytes().len() == 0 || Self::domain_tx_current(
                    self@.blocks,
                    hash_of(domain.spec_bytes()),
                    witness,
                ) is None,
            });
        }
        r
    }

    /// What `is_domain_available` answers: the name is non-empty, its
    /// identity is not owned by another key, and when it names a zone it has
    /// at most two labels and the zone is known.
    pub open spec fn domain_available_spec(
        s: Seq<BlockV>,
        zc: Seq<Seq<u8>>,
        height: int,
        name: Seq<u8>,
        key: Seq<u8>,
    ) -> bool {
        &&& name.len() > 0
        &&& id_available(s, height, hash_of(name), key, false)
        &&& (crate::names::has_zone(name) ==> crate::names::count_dots(name) <= 1 && (zc.contains(
            crate::names::zone_part(name),
        ) || id_in_chain(s, height, hash_of(crate::names::zone_part(name)), true)))
    }

    /// Whether the client holding `keystore` may register this name below
    /// block index `height`.
    pub fn is_domain_available(&mut self, height: u64, domain: &str, keystore: &Keystore) -> (r:
        bool)
        requires
            old(self).wf(),
        ensures
            final(self).wf(),
            same_core(final(self)@, old(self)@),
            r == Self::domain_available_spec(
                old(self)@.blocks,
                old(self)@.zones_cache,
                height as int,
                domain.spec_bytes(),
                keystore@,
            ),
    {
        let name = domain.as_bytes();
        if name.len() == 0 {
            return false;
        }
        let identity = hash_bytes(name);
        let public = keystore.get_public();
        if !self.is_id_available(height, &identity, &public, false) {
            return false;
        }
        match crate::names::find_last_dot(name) {
            None => true,
            Some(dot) => {
                let mut dots: usize = 0;
                let mut i: usize = 0;
                proof {
                    assert(name@.take(0) =~= Seq::<u8>::empty());
                }
                while i < name.len()
                    invariant
                        i <= name@.len(),
                        dots <= i,
                        dots == crate::names::count_dots(name@.take(i as int)),
                    decreases name@.len() - i,
                {
                    proof {
                        assert(name@.take(i + 1).drop_last() =~= name@.take(i as int));
                        assert(name@.take(i + 1).last() == name@[i as int]);
                    }
                    if *vstd::slice::slice_index_get(name, i) == 0x2e {
                        dots = dots + 1;
                    }
                    i = i + 1;
                }
                proof {
                    assert(name@.take(name@.len() as int) =~= name@);
                }
                if dots > 1 {
                    return false;
                }
                let (_, zone) = split_zone(name);
                match zone {
                    Some(z) => self.zone_in_chain_bytes(height, z.as_slice()),
                    None => true,
                }
            },
        }
    }

    /// A cooldown length clipped into a signed word.
    pub open spec fn clamp_i64(x: int) -> i64 {
        if x > 0x7fff_ffff_ffff_ffff {
            0x7fff_ffff_ffff_ffffi64
        } else if x < -0x8000_0000_0000_0000 {
            (-0x8000_0000_0000_0000) as i64
        } else {
            x as i64
        }
    }

    /// What `can_mine_domain` answers for a name, judged on its lower-cased
    /// bytes: a malformed name, an unknown zone, a current registration under
    /// another key, or the cooldown of the miner's last payload block; and
    /// `Fine` past all four gates.
    pub open spec fn can_mine_spec(
        s: Seq<BlockV>,
        zc: Seq<Seq<u8>>,
        height: int,
        name: Seq<u8>,
        key: Seq<u8>,
        now: i64,
    ) -> MineResult {
        let low = lower_bytes(name);
        if !crate::names::valid_name(low) {
            MineResult::WrongName
        } else if !(crate::names::has_zone(low) && (zc.contains(crate::names::zone_part(low))
            || id_in_chain(s, height, hash_of(crate::names::zone_part(low)), true))) {
            MineResult::WrongZone
        } else {
            let q = Self::domain_tx_current(s, hash_of(low), now);
            if q is Some && s[q->Some_0].transaction->Some_0.pub_key != key {
                MineResult::NotOwned
            } else {
                let p = last_payload_of_key_pos(s, s.len() as int, key);
                if p >= 0 {
                    let new_id = !id_in_chain(s, height, hash_of(low), false);
                    let time = s[p].timestamp + NEW_DOMAINS_INTERVAL - now;
                    if new_id && time > 0 {
                        MineResult::Cooldown { time: Self::clamp_i64(time) }
                    } else {
                        MineResult::Fine
                    }
                } else {
                    MineResult::Fine
                }
            }
        }
    }

    /// Whether `pub_key` may mine this domain now, and if not, why not.
    pub fn can_mine_domain_at(
        &mut self,
        height: u64,
        domain: &str,
        pub_key: &Bytes,
        now: i64,
    ) -> (r: MineResult)
        requires
            old(self).wf(),
        ensures
            final(self).wf(),
            same_core(final(self)@, old(self)@),
            r == Self::can_mine_spec(
                old(self)@.blocks,
                old(self)@.zones_cache,
                height as int,
                domain.spec_bytes(),
                pub_key@,
                now,
            ),
    {
        let low = lower_bytes_exec(domain.as_bytes());
        if !check_name(low.as_slice()) {
            return MineResult::WrongName;
        }
        let (_, zone) = split_zone(low.as_slice());
        let zone_known = match zone {
            Some(z) => self.zone_in_chain_bytes(height, z.as_slice()),
            None => false,
        };
        if !zone_known {
            return MineResult::WrongZone;
        }
        match self.domain_transaction_bytes(low.as_slice(), now) {
            Some(t) => {
                if !crate::bytes::slices_equal(t.pub_key.as_slice(), pub_key.as_slice()) {
                    return MineResult::NotOwned;
                }
            },
            None => {},
        }
        let identity = hash_bytes(low.as_slice());
        match self.get_last_full_block(u64::MAX, Some(pub_key.as_slice())) {
            Some(last) => {
                let new_id = !self.is_id_in_blockchain(height, &identity, false);
                let time: i128 = (last.timestamp as i128) + (NEW_DOMAINS_INTERVAL as i128) - (
                now as i128);
                if new_id && time > 0 {
                    let clipped: i64 = if time > (i64::MAX as i128) {
                        i64::MAX
                    } else {
                        time as i64
                    };
                    return MineResult::Cooldown { time: clipped };
                }
                MineResult::Fine
            },
            None => MineResult::Fine,
        }
    }

    /// As `can_mine_domain_at`, read at the wall clock.
    pub fn can_mine_domain(&mut self, height: u64, domain: &str, pub_key: &Bytes) -> (r:
        MineResult)
        requires
            old(self).wf(),
        ensures
            final(self).wf(),
            same_core(final(self)@, old(self)@),
            exists|t: i64|
                r == Self::can_mine_spec(
                    old(self)@.blocks,
                    old(self)@.zones_cache,
                    height as int,
                    domain.spec_bytes(),
                    pub_key@,
                    t,
                ),
    {
        let now = now_timestamp();
        let r = self.can_mine_domain_at(height, domain, pub_key, now);
        proof {
            let witness = now;
            assert(r == Self::can_mine_spec(
                old(self)@.blocks,
                old(self)@.zones_cache,
                height as int,
                domain.spec_bytes(),
                pub_key@,
                witness,
            ));
        }
        r
    }

    /// Checks whether a key sits in an elected signer list.
    fn contains_key(v: &Vec<Bytes>, k: &Bytes) -> (r: bool)
        ensures
            r == v@.map_values(|b: Bytes| b@).contains(k@),
    {
        let ghost vv = v@.map_values(|b: Bytes| b@);
        let mut i: usize = 0;
        while i < v.len()
            invariant
                i <= v@.len(),
                vv == v@.map_values(|b: Bytes| b@),
                forall|j: int| 0 <= j < i ==> vv[j] != k@,
            decreases v@.len() - i,
        {
            if crate::bytes::slices_equal(v[i].as_slice(), k.as_slice()) {
                proof {
                    assert(vv[i as int] == k@);
                }
                return true;
            }
            i = i + 1;
        }
        proof {
            assert(!vv.contains(k@)) by {
                if vv.contains(k@) {
                    let j = choose|j: int| 0 <= j < vv.len() && vv[j] == k@;
                }
            }
        }
        false
    }

    /// The ordered public keys elected to ratify the payload block `block`:
    /// empty when the chain has not reached it. The result is memoized for
    /// the block the table holds at that index.
    pub fn get_block_signers(&mut self, block: &Block) -> (r: Vec<Bytes>)
        requires
            old(self).wf(),
            block@.transaction is Some,
        ensures
            final(self).wf(),
            same_core(final(self)@, old(self)@),
            final(self)@.zones_cache == old(self)@.zones_cache,
            r@.map_values(|b: Bytes| b@) == crate::validity::signers_guarded(
                old(self)@.blocks,
                block@,
            ),
    {
        let ghost s = self@.blocks;
        let mut result: Vec<Bytes> = Vec::new();
        if block.index < BLOCK_SIGNERS_START || self.get_height() < block.index {
            proof {
                assert(result@.map_values(|b: Bytes| b@) =~= Seq::<Seq<u8>>::empty());
            }
            return result;
        }
        // The memo is keyed by index; it may only answer for the very block
        // the table holds there, so the seed fields are compared too.
        let stored_matches = {
            let j = block.index;
            if j >= 1 && j - 1 < self.blocks.len() as u64 {
                let stored = &self.blocks[(j - 1) as usize];
                stored.is_full() && crate::bytes::slices_equal(
                    stored.pub_key.as_slice(),
                    block.pub_key.as_slice(),
                ) && crate::bytes::slices_equal(
                    stored.signature.as_slice(),
                    block.signature.as_slice(),
                )
            } else {
                false
            }
        };
        if stored_matches && self.signers.has_signers_for(block.index) {
            proof {
                lemma_signers_spec_fields(
                    s,
                    s[block@.index - 1],
                    block@,
                );
            }
            return clone_keys(&self.signers.signers);
        }
        if block.index < 2 {
            proof {
                assert(result@.map_values(|b: Bytes| b@) =~= Seq::<Seq<u8>>::empty());
                assert(crate::validity::signers_spec(s, block@) =~= Seq::<Seq<u8>>::empty());
            }
            return result;
        }
        let window: u64 = block.index - 1;
        let seed: u64 = block.signature.get_tail_u64();
        let mut steps: u64 = 0;
        proof {
            assert(result@.map_values(|b: Bytes| b@) =~= Seq::<Seq<u8>>::empty());
        }
        while steps < 65536 && result.len() < BLOCK_SIGNERS_ALL as usize
            invariant
                old(self).wf(),
                self@ == old(self)@,
                s == self@.blocks,
                steps <= 65536,
                2 <= block@.index,
                window == block@.index - 1,
                1 <= window <= s.len(),
                s.len() < 0x7fff_ffff_ffff_ffff,
                seed == crate::bytes::tail_u64(block@.signature),
                crate::validity::elect_step(
                    s,
                    block@.pub_key,
                    seed,
                    window,
                    1,
                    Seq::<Seq<u8>>::empty(),
                    crate::validity::elect_fuel(),
                ) == crate::validity::elect_step(
                    s,
                    block@.pub_key,
                    seed,
                    window,
                    (steps + 1) as u64,
                    result@.map_values(|b: Bytes| b@),
                    (crate::validity::elect_fuel() - steps) as nat,
                ),
                result@.map_values(|b: Bytes| b@).len() == result@.len() <= BLOCK_SIGNERS_ALL,
            decreases 65536 - steps,
        {
            let ghost accv = result@.map_values(|b: Bytes| b@);
            let ghost fuel_left = (crate::validity::elect_fuel() - steps) as nat;
            let count: u64 = steps + 1;
            proof {
                assert((seed as int) * (count as int) < 0x400_0000_0000_0000_0000_0000) by (nonlinear_arith)
                    requires
                        seed <= 0xffff_ffff_ffff_ffffu64,
                        count <= 65537u64,
                ;
            }
            let prod: u128 = (seed as u128) * (count as u128);
            let low: u64 = (prod % 0x1_0000_0000_0000_0000u128) as u64;
            proof {
                assert(low == crate::validity::mul_wrap(seed, count));
            }
            let idx: u64 = (low % window) + 1;
            let len_now: usize = self.blocks.len();
            proof {
                assert(low % window < window);
                assert(0 <= idx - 1 < s.len());
                assert(s.len() == len_now);
            }
            let candidate = self.blocks[(idx - 1) as usize].pub_key.clone();
            let is_own = crate::bytes::slices_equal(
                candidate.as_slice(),
                block.pub_key.as_slice(),
            );
            proof {
                assert(s[idx - 1] == self.blocks@[idx - 1]@);
                assert(candidate@ == s[idx - 1].pub_key);
            }
            if !is_own && !Self::contains_key(&result, &candidate) {
                let ghost cv = candidate@;
                result.push(candidate);
                proof {
                    assert(result@.map_values(|b: Bytes| b@) =~= accv.push(cv));
                }
            }
            proof {
                let fpk = block@.pub_key;
                let acc2 = result@.map_values(|b: Bytes| b@);
                assert(((count as nat + 1) % 0x1_0000_0000_0000_0000) as u64 == count + 1);
                assert(crate::validity::elect_step(s, fpk, seed, window, count, accv, fuel_left)
                    == crate::validity::elect_step(
                    s,
                    fpk,
                    seed,
                    window,
                    (count + 1) as u64,
                    acc2,
                    (fuel_left - 1) as nat,
                ));
            }
            steps = steps + 1;
        }
        proof {
            lemma_elect_step_stops(
                s,
                block@.pub_key,
                seed,
                window,
                (steps + 1) as u64,
                result@.map_values(|b: Bytes| b@),
                (crate::validity::elect_fuel() - steps) as nat,
            );
        }
        if stored_matches {
            self.signers.index = block.index;
            self.signers.signers = clone_keys(&result);
            proof {
                lemma_signers_spec_fields(s, block@, s[block@.index - 1]);
            }
        }
        result
    }

    /// Whether `block`'s miner is a fresh elected signer for the payload
    /// block `full_block`: elected, and not the miner of any block strictly
    /// between the two.
    pub fn is_good_signer_for_block(&mut self, block: &Block, full_block: &Block) -> (r: bool)
        requires
            old(self).wf(),
            full_block@.transaction is Some,
        ensures
            final(self).wf(),
            same_core(final(self)@, old(self)@),
            final(self)@.zones_cache == old(self)@.zones_cache,
            r == crate::validity::good_signer(old(self)@.blocks, block@, full_block@),
    {
        let ghost s = self@.blocks;
        let signers = self.get_block_signers(full_block);
        if !Self::contains_key(&signers, &block.pub_key) {
            return false;
        }
        if full_block.index >= block.index {
            return true;
        }
        let mut i: u64 = full_block.index;
        while i + 1 < block.index
            invariant
                self.wf(),
                s == self@.blocks,
                same_core(self@, old(self)@),
                self@.zones_cache == old(self)@.zones_cache,
                full_block@.index <= i < block@.index,
                forall|j: int|
                    full_block@.index <= j < i && 0 <= j < s.len() ==> (#[trigger] s[j]).pub_key
                        != block@.pub_key,
            decreases block@.index - i,
        {
            match self.get_block(i + 1) {
                Some(b) => {
                    if crate::bytes::slices_equal(b.pub_key.as_slice(), block.pub_key.as_slice()) {
                        return false;
                    }
                },
                None => {},
            }
            i = i + 1;
        }
        true
    }

    /// The signer rules for a candidate, as `good_sign_block` states them.
    pub fn is_good_sign_block(&mut self, block: &Block, last_full_block: &Option<Block>) -> (r:
        bool)
        requires
            old(self).wf(),
            (match last_full_block {
                Some(f) => f@.transaction is Some,
                None => true,
            }),
        ensures
            final(self).wf(),
            same_core(final(self)@, old(self)@),
            final(self)@.zones_cache == old(self)@.zones_cache,
            r == crate::validity::good_sign_block(
                old(self)@.blocks,
                block@,
                opt_view(*last_full_block),
            ),
    {
        match last_full_block {
            None => true,
            Some(f) => {
                let height = self.get_height();
                let acc_lt_min = height < f.index || height - f.index < BLOCK_SIGNERS_MIN;
                let acc_lt_all = height < f.index || height - f.index < BLOCK_SIGNERS_ALL;
                if acc_lt_min {
                    if block.is_full() {
                        !(block.index > f.index)
                    } else {
                        self.is_good_signer_for_block(block, f)
                    }
                } else if acc_lt_all && !block.is_full() {
                    self.is_good_signer_for_block(block, f)
                } else {
                    true
                }
            },
        }
    }

    /// The difficulty a transaction must reach, judged by the zones declared
    /// below block index `limit`.
    fn get_difficulty_for_transaction(&self, transaction: &Transaction, limit: u64) -> (r: u32)
        requires
            self.wf(),
        ensures
            r == crate::validity::tx_required_difficulty(
                self@.blocks,
                limit as int,
                transaction@,
            ),
    {
        if str_eq(transaction.class.as_str(), "domain") {
            match transaction.get_domain_data() {
                Some(data) => {
                    let mut n: usize = self.blocks.len();
                    if limit == 0 {
                        n = 0;
                    } else if limit - 1 < self.blocks.len() as u64 {
                        n = (limit - 1) as usize;
                    }
                    proof {
                        lemma_zones_fold_clip(self@.blocks, limit - 1, n as int);
                    }
                    let zones = self.zones_before(n);
                    match Self::find_zone_exec(&zones, data.zone.as_str()) {
                        Some(p) => zones[p].difficulty,
                        None => u32::MAX,
                    }
                },
                None => u32::MAX,
            }
        } else if str_eq(transaction.class.as_str(), "zone") {
            crate::constants::ZONE_DIFFICULTY
        } else {
            u32::MAX
        }
    }

    /// The difficulty a candidate block must reach.
    fn required_difficulty(&self, block: &Block) -> (r: u32)
        requires
            self.wf(),
        ensures
            r == crate::validity::required_difficulty_spec(self@.blocks, block@),
    {
        match &block.transaction {
            None => {
                if block.index == 1 {
                    crate::constants::ZONE_DIFFICULTY
                } else {
                    SIGNER_DIFFICULTY
                }
            },
            Some(t) => self.get_difficulty_for_transaction(t, block.index),
        }
    }

    /// The gates a payload's transaction must pass; `true` for signing blocks.
    fn tx_gates(&self, block: &Block) -> (r: bool)
        requires
            self.wf(),
        ensures
            r == (match block@.transaction {
                Some(_) => crate::validity::tx_gates_ok(self@.blocks, block@),
                None => true,
            }),
    {
        let transaction = match &block.transaction {
            Some(t) => t.clone(),
            None => {
                return true;
            },
        };
        proof {
            assert(transaction@ == block@.transaction->Some_0);
        }
        if !crate::bytes::slices_equal(
            transaction.pub_key.as_slice(),
            block.pub_key.as_slice(),
        ) {
            return false;
        }
        if !self.is_id_available(block.index, &transaction.identity, &block.pub_key, false) {
            return false;
        }
        if !self.is_id_available(block.index, &transaction.identity, &block.pub_key, true) {
            return false;
        }
        match self.get_last_full_block(block.index, Some(block.pub_key.as_slice())) {
            Some(last) => {
                let new_id = !self.is_id_in_blockchain(block.index, &transaction.identity, false);
                let early = (last.timestamp as i128) + (NEW_DOMAINS_INTERVAL as i128) > (
                block.timestamp as i128);
                if new_id && early {
                    return false;
                }
            },
            None => {},
        }
        let ghost s = self@.blocks;
        let ghost t = block@.transaction->Some_0;
        match transaction.get_domain_data() {
            Some(data) => {
                let mut n: usize = self.blocks.len();
                if block.index == 0 {
                    n = 0;
                } else if block.index - 1 < self.blocks.len() as u64 {
                    n = (block.index - 1) as usize;
                }
                proof {
                    lemma_zones_fold_clip(self@.blocks, block@.index - 1, n as int);
                }
                let zones = self.zones_before(n);
                match Self::find_zone_exec(&zones, data.zone.as_str()) {
                    Some(p) => {
                        if zones[p].yggdrasil {
                            let ghost recs = data.records.deep_view();
                            proof {
                                assert(crate::transaction::domain_data_of(t.data) == Some(
                                    (data.zone@, data.domain@, recs),
                                ));
                                assert(zone_lookup(s, block@.index - 1, data.zone@) == Some(
                                    (zones@[p as int].name@, zones@[p as int].difficulty, true),
                                ));
                            }
                            let mut k: usize = 0;
                            while k < data.records.len()
                                invariant
                                    k <= recs.len(),
                                    recs == data.records.deep_view(),
                                    s == self@.blocks,
                                    block@.transaction is Some,
                                    t == block@.transaction->Some_0,
                                    crate::transaction::domain_data_of(t.data) == Some(
                                        (data.zone@, data.domain@, recs),
                                    ),
                                    (exists|z: (Seq<char>, u32, bool)|
                                        zone_lookup(s, block@.index - 1, data.zone@) == Some(z)
                                            && z.2),
                                    forall|j: int|
                                        0 <= j < k ==> crate::names::record_is_yggdrasil(
                                            (#[trigger] recs[j]).0,
                                            vstd::utf8::encode_utf8(recs[j].1),
                                        ),
                                decreases recs.len() - k,
                            {
                                if !crate::names::is_yggdrasil_record(&data.records[k]) {
                                    proof {
                                        let ghost d = (data.zone@, data.domain@, recs);
                                        assert(recs[k as int] == data.records@[k as int]@);
                                        assert(!crate::names::record_is_yggdrasil(
                                            recs[k as int].0,
                                            vstd::utf8::encode_utf8(recs[k as int].1),
                                        ));
                                        assert(crate::transaction::domain_data_of(t.data) == Some(
                                            d,
                                        ));
                                        let z = choose|z: (Seq<char>, u32, bool)|
                                            zone_lookup(s, block@.index - 1, data.zone@) == Some(z)
                                                && z.2;
                                        assert(zone_lookup(s, block@.index - 1, d.0) == Some(z));
                                        assert(0 <= k < d.2.len());
                                        assert(d.2[k as int] == recs[k as int]);
                                        assert(!crate::names::record_is_yggdrasil(
                                            d.2[k as int].0,
                                            vstd::utf8::encode_utf8(d.2[k as int].1),
                                        ));
                                        assert(!crate::validity::ygg_ok(s, block@.index as int, t));
                                    }
                                    return false;
                                }
                                proof {
                                    assert(recs[k as int] == data.records@[k as int]@);
                                }
                                k = k + 1;
                            }
                            proof {
                                assert(crate::validity::ygg_ok(s, block@.index as int, t));
                            }
                        }
                    },
                    None => {},
                }
            },
            None => {},
        }
        true
    }

    /// Validates a candidate block against an explicit tip context, at the
    /// clock reading `now`. The first failing gate decides the verdict.
    #[verifier::rlimit(50)]
    pub fn check_block_at(
        &mut self,
        block: &Block,
        last_block: &Option<Block>,
        last_full_block: &Option<Block>,
        now: i64,
    ) -> (r: BlockQuality)
        requires
            old(self).wf(),
            (match last_full_block {
                Some(f) => f@.transaction is Some,
                None => true,
            }),
        ensures
            final(self).wf(),
            same_core(final(self)@, old(self)@),
            r == check_block_spec(
                old(self)@.blocks,
                old(self)@.origin,
                opt_view(*last_block),
                opt_view(*last_full_block),
                block@,
                now,
            ),
    {
        if block.version > crate::constants::CHAIN_VERSION {
            return BlockQuality::Bad;
        }
        let in_future = match now.checked_add(60) {
            Some(limit) => block.timestamp > limit,
            None => false,
        };
        if in_future {
            return BlockQuality::Bad;
        }
        match last_block {
            Some(last) => {
                if last.index < u64::MAX && block.index > last.index + 1 {
                    return BlockQuality::Future;
                }
            },
            None => {},
        }
        if !check_public_key_strength(&block.pub_key, KEYSTORE_DIFFICULTY) {
            return BlockQuality::Bad;
        }
        let required = self.required_difficulty(block);
        if block.difficulty < required {
            return BlockQuality::Bad;
        }
        if !crate::hashing::meets_difficulty(&block.hash, block.difficulty) {
            return BlockQuality::Bad;
        }
        if !crate::block::check_block_hash(block) {
            return BlockQuality::Bad;
        }
        if !crate::block::check_block_signature(block) {
            return BlockQuality::Bad;
        }
        if block.index >= 2 && block.index - 2 < self.blocks.len() as u64 {
            let prev = &self.blocks[(block.index - 2) as usize];
            if !crate::bytes::slices_equal(
                prev.hash.as_slice(),
                block.prev_block_hash.as_slice(),
            ) {
                return BlockQuality::Rewind;
            }
        }
        if block.is_full() && !self.tx_gates(block) {
            return BlockQuality::Bad;
        }
        match last_block {
            None => {
                if !block.is_genesis() {
                    return BlockQuality::Future;
                }
                if !self.origin.is_zero() && !crate::bytes::slices_equal(
                    block.hash.as_slice(),
                    self.origin.as_slice(),
                ) {
                    return BlockQuality::Bad;
                }
                BlockQuality::Good
            },
            Some(last) => {
                if block.timestamp < last.timestamp && block.index > last.index {
                    return BlockQuality::Bad;
                }
                if last.index < u64::MAX && last.index + 1 < block.index {
                    return BlockQuality::Future;
                }
                if block.index > BLOCK_SIGNERS_START && !self.is_good_sign_block(
                    block,
                    last_full_block,
                ) {
                    return BlockQuality::Bad;
                }
                if block.index <= last.index {
                    if block.index == last.index && crate::bytes::slices_equal(
                        last.hash.as_slice(),
                        block.hash.as_slice(),
                    ) {
                        return BlockQuality::Twin;
                    }
                    if block.index >= 1 && block.index - 1 < self.blocks.len() as u64 {
                        let mine = &self.blocks[(block.index - 1) as usize];
                        if !crate::bytes::slices_equal(
                            mine.hash.as_slice(),
                            block.hash.as_slice(),
                        ) {
                            return BlockQuality::Fork;
                        }
                        return BlockQuality::Twin;
                    }
                    return BlockQuality::Twin;
                }
                if !crate::bytes::slices_equal(
                    block.prev_block_hash.as_slice(),
                    last.hash.as_slice(),
                ) {
                    return BlockQuality::Bad;
                }
                BlockQuality::Good
            },
        }
    }

    /// As `check_block_at`, read at the wall clock.
    pub fn check_block(
        &mut self,
        block: &Block,
        last_block: &Option<Block>,
        last_full_block: &Option<Block>,
    ) -> (r: BlockQuality)
        requires
            old(self).wf(),
            (match last_full_block {
                Some(f) => f@.transaction is Some,
                None => true,
            }),
        ensures
            final(self).wf(),
            same_core(final(self)@, old(self)@),
            exists|t: i64|
                r == check_block_spec(
                    old(self)@.blocks,
                    old(self)@.origin,
                    opt_view(*last_block),
                    opt_view(*last_full_block),
                    block@,
                    t,
                ),
    {
        let now = now_timestamp();
        let r = self.check_block_at(block, last_block, last_full_block, now);
        proof {
            let witness = now;
            assert(r == check_block_spec(
                old(self)@.blocks,
                old(self)@.origin,
                opt_view(*last_block),
                opt_view(*last_full_block),
                block@,
                witness,
            ));
        }
        r
    }

    /// Validates a candidate against the engine's own tip caches.
    pub fn check_new_block(&mut self, block: &Block) -> (r: BlockQuality)
        requires
            old(self).wf(),
        ensures
            final(self).wf(),
            same_core(final(self)@, old(self)@),
            exists|t: i64|
                r == check_block_spec(
                    old(self)@.blocks,
                    old(self)@.origin,
                    old(self)@.last_block,
                    old(self)@.last_full_block,
                    block@,
                    t,
                ),
    {
        let last = self.last_block();
        let last_full = match &self.last_full_block {
            Some(b) => Some(b.clone()),
            None => None,
        };
        proof {
            assert(opt_view(last) == self@.last_block);
            assert(opt_view(last_full) == self@.last_full_block);
            crate::validity::lemma_last_payload_pos_props(
                self@.blocks,
                self@.blocks.len() as int,
            );
        }
        self.check_block(block, &last, &last_full)
    }
}

/// Zone folds ignore positions past the table, so a clipped bound folds the same.
proof fn lemma_zones_fold_clip(s: Seq<BlockV>, n: int, m: int)
    requires
        m == (if n <= 0 {
            0int
        } else if n > s.len() {
            s.len() as int
        } else {
            n
        }),
    ensures
        zones_fold(s, n) == zones_fold(s, m),
{
}

/// Clones a list of keys.
fn clone_keys(v: &Vec<Bytes>) -> (r: Vec<Bytes>)
    ensures
        r@.map_values(|b: Bytes| b@) == v@.map_values(|b: Bytes| b@),
{
    let mut r: Vec<Bytes> = Vec::new();
    let mut i: usize = 0;
    while i < v.len()
        invariant
            i <= v@.len(),
            r@.len() == i,
            forall|j: int| 0 <= j < i ==> r@[j]@ == v@[j]@,
        decreases v@.len() - i,
    {
        r.push(v[i].clone());
        i = i + 1;
    }
    proof {
        assert(r@.map_values(|b: Bytes| b@) =~= v@.map_values(|b: Bytes| b@));
    }
    r
}

/// The election reads nothing of `f` but its index, key and signature.
proof fn lemma_signers_spec_fields(s: Seq<BlockV>, f1: BlockV, f2: BlockV)
    requires
        f1.index == f2.index,
        f1.pub_key == f2.pub_key,
        f1.signature == f2.signature,
    ensures
        crate::validity::signers_spec(s, f1) == crate::validity::signers_spec(s, f2),
{
}

/// An election walk that has filled its list or exhausted its fuel is done.
proof fn lemma_elect_step_stops(
    s: Seq<BlockV>,
    fpk: Seq<u8>,
    seed: u64,
    window: u64,
    count: u64,
    acc: Seq<Seq<u8>>,
    fuel: nat,
)
    requires
        fuel == 0 || acc.len() >= BLOCK_SIGNERS_ALL,
    ensures
        crate::validity::elect_step(s, fpk, seed, window, count, acc, fuel) == acc,
{
}

impl Chain {
    /// Appends a block the caller has validated: the verdict on it, against
    /// this engine's tip, must have been `Good`. The tip caches follow.
    pub fn add_block(&mut self, block: Block)
        requires
            old(self).wf(),
            old(self)@.blocks.len() + 1 < 0x7fff_ffff_ffff_ffff,
            exists|t: i64|
                check_block_spec(
                    old(self)@.blocks,
                    old(self)@.origin,
                    old(self)@.last_block,
                    old(self)@.last_full_block,
                    block@,
                    t,
                ) == BlockQuality::Good,
        ensures
            final(self).wf(),
            final(self)@.blocks == old(self)@.blocks.push(block@),
            final(self)@.origin == old(self)@.origin,
            final(self)@.options_origin == old(self)@.options_origin,
            final(self)@.options_version == old(self)@.options_version,
            final(self)@.max_height == old(self)@.max_height,
            final(self)@.zones_cache == old(self)@.zones_cache,
            final(self)@.last_block == Some(block@),
            final(self)@.last_full_block == (if block@.transaction is Some {
                Some(block@)
            } else {
                old(self)@.last_full_block
            }),
    {
        let ghost s = self@.blocks;
        proof {
            let t = choose|t: i64|
                check_block_spec(
                    s,
                    self@.origin,
                    self@.last_block,
                    self@.last_full_block,
                    block@,
                    t,
                ) == BlockQuality::Good;
            crate::validity::lemma_good_extends(s, self@.origin, self@.last_full_block, block@, t);
        }
        self.last_block = Some(block.clone());
        if block.is_full() {
            self.last_full_block = Some(block.clone());
        }
        let ghost bv = block@;
        self.blocks.push(block);
        proof {
            let s2 = self@.blocks;
            assert(s2 =~= s.push(bv));
            assert(s2.last() == bv);
            assert forall|i: int| 0 <= i < s2.len() implies (#[trigger] s2[i]).index == i + 1 by {
                if i < s.len() {
                    assert(s2[i] == s[i]);
                    assert(s[i].index == i + 1);
                } else {
                    assert(s2[i] == bv);
                }
            }
            crate::validity::lemma_last_payload_pos_push(s, bv, s.len() as int);
            if bv.transaction is Some {
                assert(last_payload_pos(s2, s2.len() as int) == s.len());
            } else {
                assert(last_payload_pos(s2, s2.len() as int) == last_payload_pos(
                    s,
                    s.len() as int,
                ));
                crate::validity::lemma_last_payload_pos_props(s, s.len() as int);
                let p = last_payload_pos(s, s.len() as int);
                if p >= 0 {
                    assert(s2[p] == s[p]);
                }
            }
            if self@.signers_index != 0 {
                assert(s2[self@.signers_index - 1] == s[self@.signers_index - 1]);
                crate::validity::lemma_signers_spec_push(s, bv, s[self@.signers_index - 1]);
            }
            assert(wf_seq(s2));
            assert(s2.len() < 0x7fff_ffff_ffff_ffff);
            assert(s2.len() > 0);
            assert(last_of(s2) == Some(bv));
            assert(self@.last_block == opt_view(self.last_block));
            assert(opt_view(self.last_block) == Some(bv));
            assert(self@.last_block == last_of(s2));
            assert(self@.last_full_block == last_full_of(s2));
            assert(self@.signers_index == 0 ==> self@.signers_list.len() == 0);
            assert(self@.signers_index != 0 ==> self@.signers_list == signers_spec(
                s2,
                s2[self@.signers_index - 1],
            ));
        }
    }

    /// Drops every block of index `index` and above, with the projection rows
    /// they carried, and clears the signer cache.
    fn truncate_db_from_block(&mut self, index: u64)
        requires
            old(self).wf(),
        ensures
            final(self).wf(),
            final(self)@.blocks == crate::validity::truncated(old(self)@.blocks, index),
            final(self)@.origin == old(self)@.origin,
            final(self)@.options_origin == old(self)@.options_origin,
            final(self)@.options_version == old(self)@.options_version,
            final(self)@.max_height == old(self)@.max_height,
            final(self)@.zones_cache == old(self)@.zones_cache,
            final(self)@.signers_index == 0,
            final(self)@.signers_list.len() == 0,
    {
        let ghost s = self@.blocks;
        if index == 0 {
            self.blocks.clear();
            proof {
                assert(self@.blocks =~= crate::validity::truncated(s, index));
            }
        } else if index - 1 < self.blocks.len() as u64 {
            self.blocks.truncate((index - 1) as usize);
            proof {
                assert(self@.blocks =~= crate::validity::truncated(s, index));
            }
        } else {
            proof {
                assert(self@.blocks =~= crate::validity::truncated(s, index));
            }
        }
        self.signers.clear();
        self.reset_tip_caches();
    }

    /// Replaces the stored suffix from `block`'s index on with `block` alone:
    /// the fork-resolution step. The caller must have found the block `Good`
    /// against the truncated chain.
    pub fn replace_block(&mut self, block: Block)
        requires
            old(self).wf(),
            old(self)@.blocks.len() + 1 < 0x7fff_ffff_ffff_ffff,
            exists|t: i64|
                check_block_spec(
                    crate::validity::truncated(old(self)@.blocks, block@.index),
                    old(self)@.origin,
                    last_of(crate::validity::truncated(old(self)@.blocks, block@.index)),
                    last_full_of(crate::validity::truncated(old(self)@.blocks, block@.index)),
                    block@,
                    t,
                ) == BlockQuality::Good,
        ensures
            final(self).wf(),
            final(self)@.blocks == crate::validity::truncated(old(self)@.blocks, block@.index).push(
                block@,
            ),
            final(self)@.origin == old(self)@.origin,
            final(self)@.options_origin == old(self)@.options_origin,
            final(self)@.options_version == old(self)@.options_version,
            final(self)@.max_height == old(self)@.max_height,
            final(self)@.zones_cache == old(self)@.zones_cache,
    {
        self.signers.clear();
        self.truncate_db_from_block(block.index);
        self.add_block(block);
    }
}

impl Chain {
    /// Where the startup check begins: the position `count` blocks below the
    /// tip, or the start of the chain.
    pub open spec fn start_pos(len: int, count: u64) -> int {
        if len > count {
            len - count
        } else {
            0
        }
    }

    /// Re-validates the last `count` blocks, each in its historical context,
    /// at the clock reading `now`; on the first bad block the suffix from it
    /// on is dropped. Genesis answers only for the configured origin, which
    /// the caller must have checked.
    #[verifier::rlimit(100)]
    pub fn check_chain_at(&mut self, count: u64, now: i64)
        requires
            old(self).wf(),
            old(self)@.blocks.len() == 0 || all_zero(old(self)@.origin) || old(
                self,
            )@.blocks[0].hash == old(self)@.origin,
        ensures
            final(self).wf(),
            final(self)@.blocks == old(self)@.blocks.take(
                crate::validity::first_bad_from(
                    old(self)@.blocks,
                    old(self)@.origin,
                    Self::start_pos(old(self)@.blocks.len() as int, count),
                    now,
                ),
            ),
            final(self)@.origin == old(self)@.origin,
            final(self)@.options_origin == old(self)@.options_origin,
            final(self)@.options_version == old(self)@.options_version,
            final(self)@.max_height == old(self)@.max_height,
    {
        let ghost s = self@.blocks;
        let ghost origin_v = self@.origin;
        let ghost p0 = Self::start_pos(s.len() as int, count);
        let height = self.get_height();
        let start_idx: u64 = if height > count {
            height - count + 1
        } else {
            1
        };
        let mut p: u64 = start_idx - 1;
        if p == 0 {
            p = 1;
        }
        proof {
            assert(crate::validity::first_bad_from(s, origin_v, p0, now)
                == crate::validity::first_bad_from(s, origin_v, p as int, now));
        }
        if p >= height {
            proof {
                assert(crate::validity::first_bad_from(s, origin_v, p as int, now)
                    == s.len() as int);
                assert(self@.blocks =~= s.take(s.len() as int));
            }
            return ;
        }
        let mut last: Option<Block> = self.get_block(p);
        let mut last_full: Option<Block> = self.get_last_full_block(p + 1, None);
        while p < height
            invariant
                old(self).wf(),
                self.wf(),
                same_core(self@, old(self)@),
                s == self@.blocks,
                origin_v == self@.origin,
                height == s.len(),
                p0 == Self::start_pos(old(self)@.blocks.len() as int, count),
                1 <= p <= height,
                opt_view(last) == Some(s[p - 1]),
                opt_view(last_full) == crate::validity::lf_opt(s, p as int),
                crate::validity::first_bad_from(s, origin_v, p0, now)
                    == crate::validity::first_bad_from(s, origin_v, p as int, now),
            decreases height - p,
        {
            proof {
                crate::validity::lemma_last_payload_pos_props(s, p as int);
            }
            let block = match self.get_block(p + 1) {
                Some(b) => b,
                None => {
                    proof {
                        assert(false);
                    }
                    return ;
                },
            };
            let verdict = self.check_block_at(&block, &last, &last_full, now);
            if !matches!(verdict, BlockQuality::Good) {
                self.truncate_db_from_block(p + 1);
                proof {
                    assert(crate::validity::first_bad_from(s, origin_v, p as int, now)
                        == p as int);
                    assert(self@.blocks =~= s.take(p as int));
                }
                return ;
            }
            if block.is_full() {
                last_full = Some(block.clone());
            }
            proof {
                assert(crate::validity::last_payload_pos(s, p + 1) == (
                if crate::validity::is_payload(s[p as int]) {
                    p as int
                } else {
                    crate::validity::last_payload_pos(s, p as int)
                }));
            }
            last = Some(block);
            p = p + 1;
        }
        proof {
            assert(crate::validity::first_bad_from(s, origin_v, p as int, now) == s.len() as int);
            assert(self@.blocks =~= s.take(s.len() as int));
        }
    }

    /// As `check_chain_at`, read at the wall clock.
    pub fn check_chain(&mut self, count: u64)
        requires
            old(self).wf(),
            old(self)@.blocks.len() == 0 || all_zero(old(self)@.origin) || old(
                self,
            )@.blocks[0].hash == old(self)@.origin,
        ensures
            final(self).wf(),
            exists|t: i64|
                final(self)@.blocks == old(self)@.blocks.take(
                    crate::validity::first_bad_from(
                        old(self)@.blocks,
                        old(self)@.origin,
                        Self::start_pos(old(self)@.blocks.len() as int, count),
                        t,
                    ),
                ),
            final(self)@.origin == old(self)@.origin,
            final(self)@.options_origin == old(self)@.options_origin,
            final(self)@.options_version == old(self)@.options_version,
            final(self)@.max_height == old(self)@.max_height,
    {
        let now = now_timestamp();
        self.check_chain_at(count, now);
        proof {
            let witness = now;
            assert(self@.blocks == old(self)@.blocks.take(
                crate::validity::first_bad_from(
                    old(self)@.blocks,
                    old(self)@.origin,
                    Self::start_pos(old(self)@.blocks.len() as int, count),
                    witness,
                ),
            ));
        }
    }
}

impl Chain {
    /// The signing block the engine wants mined, if any: the chain has caught
    /// up with the network, the last payload block still lacks ratification,
    /// the tip has rested a minute, and the key holder is an elected signer
    /// who has not signed yet. The template carries no key; the miner fills
    /// it in.
    pub open spec fn sign_block_wanted(c: ChainV, key: Seq<u8>, now: i64) -> Option<BlockV> {
        let s = c.blocks;
        if s.len() < BLOCK_SIGNERS_START {
            None
        } else if s.len() < c.max_height {
            None
        } else {
            match c.last_full_block {
                None => None,
                Some(f) => if s.len() - f.index >= BLOCK_SIGNERS_MIN {
                    None
                } else {
                    match c.last_block {
                        None => None,
                        Some(l) => if l.timestamp + 60 > now {
                            None
                        } else if !crate::validity::signers_guarded(s, f).contains(key) {
                            None
                        } else if (exists|j: int|
                            f.index - 1 <= j < s.len() && (#[trigger] s[j]).pub_key == key) {
                            None
                        } else {
                            Some(
                                BlockV {
                                    index: (l.index + 1) as u64,
                                    timestamp: now,
                                    version: crate::constants::CHAIN_VERSION,
                                    difficulty: SIGNER_DIFFICULTY,
                                    random: 0,
                                    nonce: 0,
                                    prev_block_hash: l.hash,
                                    hash: Seq::<u8>::empty(),
                                    pub_key: Seq::<u8>::empty(),
                                    signature: Seq::<u8>::empty(),
                                    transaction: None,
                                },
                            )
                        },
                    }
                },
            }
        }
    }

    /// Asks for a signing-block template at the clock reading `now`.
    pub fn get_sign_block_at(&mut self, keystore: &Option<Keystore>, now: i64) -> (r: Option<
        Block,
    >)
        requires
            old(self).wf(),
        ensures
            final(self).wf(),
            same_core(final(self)@, old(self)@),
            (match keystore {
                None => r is None,
                Some(k) => opt_view(r) == Self::sign_block_wanted(old(self)@, k@, now),
            }),
    {
        let ghost s = self@.blocks;
        let height = self.get_height();
        if height < BLOCK_SIGNERS_START {
            return None;
        }
        let ks = match keystore {
            Some(k) => k,
            None => {
                return None;
            },
        };
        if height < self.max_height() {
            return None;
        }
        let full = match &self.last_full_block {
            None => {
                return None;
            },
            Some(b) => b.clone(),
        };
        proof {
            crate::validity::lemma_last_payload_pos_props(s, s.len() as int);
            assert(full@.index <= s.len());
        }
        if height - full.index >= BLOCK_SIGNERS_MIN {
            return None;
        }
        let (last_hash, last_index, last_ts) = match &self.last_block {
            Some(b) => (b.hash.clone(), b.index, b.timestamp),
            None => {
                return None;
            },
        };
        let fresh = match last_ts.checked_add(60) {
            Some(rest) => rest > now,
            None => true,
        };
        if fresh {
            return None;
        }
        let key = ks.get_public();
        let signers = self.get_block_signers(&full);
        if !Self::contains_key(&signers, &key) {
            return None;
        }
        let mut i: u64 = full.index;
        while i <= height
            invariant
                old(self).wf(),
                self.wf(),
                same_core(self@, old(self)@),
                s == self@.blocks,
                height == s.len(),
                1 <= full@.index <= i <= height + 1,
                (*keystore) is Some && (*keystore)->Some_0@ == key@,
                old(self)@.last_full_block == Some(full@),
                forall|j: int|
                    full@.index - 1 <= j < i - 1 && 0 <= j < s.len() ==> (#[trigger] s[j]).pub_key
                        != key@,
            decreases height + 1 - i,
        {
            let b = match self.get_block(i) {
                Some(b) => b,
                None => {
                    proof {
                        assert(false);
                    }
                    return None;
                },
            };
            if crate::bytes::slices_equal(b.pub_key.as_slice(), key.as_slice()) {
                proof {
                    assert(s[i - 1].pub_key == key@);
                    assert(exists|j: int|
                        full@.index - 1 <= j < s.len() && (#[trigger] s[j]).pub_key == key@);
                }
                return None;
            }
            i = i + 1;
        }
        proof {
            assert(!(exists|j: int|
                full@.index - 1 <= j < s.len() && (#[trigger] s[j]).pub_key == key@)) by {
                if exists|j: int| full@.index - 1 <= j < s.len() && (#[trigger] s[j]).pub_key
                    == key@ {
                    let j = choose|j: int|
                        full@.index - 1 <= j < s.len() && (#[trigger] s[j]).pub_key == key@;
                }
            }
        }
        let mut block = Block::new_at(
            None,
            Bytes::empty(),
            last_hash,
            SIGNER_DIFFICULTY,
            now,
        );
        block.index = last_index + 1;
        Some(block)
    }

    /// Asks for a signing-block template at the wall clock.
    pub fn get_sign_block(&mut self, keystore: &Option<Keystore>) -> (r: Option<Block>)
        requires
            old(self).wf(),
        ensures
            final(self).wf(),
            same_core(final(self)@, old(self)@),
            (match keystore {
                None => r is None,
                Some(k) => exists|t: i64|
                    opt_view(r) == Self::sign_block_wanted(old(self)@, k@, t),
            }),
    {
        let now = now_timestamp();
        let r = self.get_sign_block_at(keystore, now);
        proof {
            match keystore {
                None => {},
                Some(k) => {
                    let witness = now;
                    assert(opt_view(r) == Self::sign_block_wanted(old(self)@, k@, witness));
                },
            }
        }
        r
    }

    /// Retargets a queued signing-block template at the current tip, unless
    /// the last payload block has meanwhile gathered its ratifications.
    pub fn update_sign_block_for_mining(&self, block: Block) -> (r: Option<Block>)
        requires
            self.wf(),
        ensures
            (match r {
                Some(b) => {
                    &&& self@.last_full_block is Some
                    &&& self@.last_block is Some
                    &&& self@.blocks.len() - self@.last_full_block->Some_0.index
                        < BLOCK_SIGNERS_MIN
                    &&& b@ == (BlockV {
                        index: (self@.last_block->Some_0.index + 1) as u64,
                        prev_block_hash: self@.last_block->Some_0.hash,
                        ..block@
                    })
                },
                None => self@.last_full_block is None || self@.blocks.len()
                    - self@.last_full_block->Some_0.index >= BLOCK_SIGNERS_MIN,
            }),
    {
        let ghost s = self@.blocks;
        let mut block = block;
        let full_index = match &self.last_full_block {
            Some(b) => b.index,
            None => {
                return None;
            },
        };
        proof {
            crate::validity::lemma_last_payload_pos_props(s, s.len() as int);
        }
        let height = self.get_height();
        if height - full_index >= BLOCK_SIGNERS_MIN {
            return None;
        }
        match &self.last_block {
            Some(last) => {
                block.index = last.index + 1;
                block.prev_block_hash = last.hash.clone();
                Some(block)
            },
            None => None,
        }
    }

    /// Whether the last payload block still waits for ratification: mining a
    /// new payload must hold off while this is true.
    pub fn is_waiting_signers(&self) -> (r: bool)
        requires
            self.wf(),
        ensures
            r == (match self@.last_full_block {
                Some(f) => self@.blocks.len() - f.index < BLOCK_SIGNERS_MIN,
                None => false,
            }),
    {
        let ghost s = self@.blocks;
        match &self.last_full_block {
            Some(full) => {
                proof {
                    crate::validity::lemma_last_payload_pos_props(s, s.len() as int);
                }
                self.get_height() - full.index < BLOCK_SIGNERS_MIN
            },
            None => false,
        }
    }

    /// The lowest index at which the next payload block may sit: past the
    /// ratification window of the last one.
    pub fn next_allowed_full_block(&self) -> (r: u64)
        requires
            self.wf(),
        ensures
            r == (match self@.last_full_block {
                None => self@.blocks.len() as int + 1,
                Some(f) => if f.index < BLOCK_SIGNERS_START {
                    self@.blocks.len() as int + 1
                } else if f.index + BLOCK_SIGNERS_MIN > self@.blocks.len() + 1 {
                    f.index + BLOCK_SIGNERS_MIN
                } else {
                    self@.blocks.len() as int + 1
                },
            }),
    {
        let ghost s = self@.blocks;
        proof {
            crate::validity::lemma_last_payload_pos_props(s, s.len() as int);
        }
        match &self.last_full_block {
            None => self.get_height() + 1,
            Some(block) => {
                if block.index < BLOCK_SIGNERS_START {
                    self.get_height() + 1
                } else {
                    let a = block.index + BLOCK_SIGNERS_MIN;
                    let b = self.get_height() + 1;
                    if a > b {
                        a
                    } else {
                        b
                    }
                }
            },
        }
    }
}

/// One domain of the keyholder, as `get_my_domains` reports it.
pub struct MyDomain {
    pub identity: Bytes,
    pub name: String,
    pub timestamp: i64,
    pub data: crate::transaction::DomainData,
}

/// A domain row owned by `key`: a domain-class payload whose transaction the
/// key signed and whose data parses.
pub open spec fn my_row(s: Seq<BlockV>, key: Seq<u8>, j: int) -> bool {
    &&& 0 <= j < s.len()
    &&& s[j].transaction is Some
    &&& s[j].transaction->Some_0.class == "domain"@
    &&& s[j].transaction->Some_0.pub_key == key
    &&& crate::transaction::domain_data_of(s[j].transaction->Some_0.data) is Some
}

/// The last of the keyholder's rows carrying `identity` below position
/// `limit`, or -1.
pub open spec fn last_my_row_pos(s: Seq<BlockV>, key: Seq<u8>, identity: Seq<u8>, limit: int) -> int
    decreases limit,
{
    if limit <= 0 {
        -1
    } else if limit > s.len() {
        last_my_row_pos(s, key, identity, s.len() as int)
    } else if my_row(s, key, limit - 1) && s[limit - 1].transaction->Some_0.identity == identity {
        limit - 1
    } else {
        last_my_row_pos(s, key, identity, limit - 1)
    }
}

/// The legacy walk for a sealed name: failing the stored salt, the hashes of
/// the ten blocks before the row serve as candidate IVs, oldest encoding
/// first tried nearest.
pub open spec fn legacy_attempt(
    s: Seq<BlockV>,
    key: Seq<u8>,
    sealed: Seq<u8>,
    idx: int,
    i: int,
) -> Seq<u8>
    decreases 11 - i,
{
    if i > 10 {
        Seq::<u8>::empty()
    } else {
        let bidx = idx - i;
        let att = if 1 <= bidx && bidx - 1 < s.len() && s[bidx - 1].hash.len() >= 12 {
            crate::keys::decrypt_spec(key, s[bidx - 1].hash.take(12), sealed)
        } else {
            Seq::<u8>::empty()
        };
        if att.len() > 0 {
            att
        } else {
            legacy_attempt(s, key, sealed, idx, i + 1)
        }
    }
}

/// The bytes a sealed name opens to: first under the row's own salt, then
/// under the legacy walk; empty when nothing opens it.
pub open spec fn name_bytes_spec(
    s: Seq<BlockV>,
    key: Seq<u8>,
    idx: int,
    sealed: Seq<u8>,
    conf: Seq<u8>,
) -> Seq<u8> {
    let first = if conf.len() >= 12 {
        crate::keys::decrypt_spec(key, conf.take(12), sealed)
    } else {
        Seq::<u8>::empty()
    };
    if first.len() > 0 {
        first
    } else {
        legacy_attempt(s, key, sealed, idx, 1)
    }
}

/// Relies on `String::from_utf8`: it accepts exactly the valid UTF-8 byte
/// strings, and the accepted string's encoding is the input.
#[verifier::external_body]
fn string_from_utf8(v: Vec<u8>) -> (r: Option<String>)
    ensures
        (match r {
            Some(name) => vstd::utf8::valid_utf8(v@) && vstd::utf8::encode_utf8(name@) == v@,
            None => !vstd::utf8::valid_utf8(v@),
        }),
{
    String::from_utf8(v).ok()
}

/// The name an opened byte string displays as: the decoded text, or
/// `unknown` when nothing opened or the bytes are not text.
pub open spec fn display_name(bytes: Seq<u8>, name: Seq<char>) -> bool {
    if bytes.len() > 0 && vstd::utf8::valid_utf8(bytes) {
        vstd::utf8::encode_utf8(name) == bytes
    } else {
        name == "unknown"@
    }
}

impl Chain {
    /// Opens a sealed domain name under the keyholder's key: with the row's
    /// salt as IV, then with the hashes of the ten blocks before the row.
    fn recover_name(&self, ks: &Keystore, idx: u64, sealed: &Bytes, confirmation: &Bytes) -> (r:
        Bytes)
        requires
            self.wf(),
        ensures
            r@ == name_bytes_spec(self@.blocks, ks@, idx as int, sealed@, confirmation@),
    {
        let ghost s = self@.blocks;
        if confirmation.len() >= 12 {
            let iv = vstd::slice::slice_subrange(confirmation.as_slice(), 0, 12);
            proof {
                assert(iv@ =~= confirmation@.take(12));
            }
            let first = ks.decrypt(sealed.as_slice(), iv);
            if first.len() > 0 {
                return first;
            }
        }
        let mut i: u64 = 1;
        while i <= 10
            invariant
                self.wf(),
                s == self@.blocks,
                1 <= i <= 11,
                confirmation@.len() < 12 || crate::keys::decrypt_spec(
                    ks@,
                    confirmation@.take(12),
                    sealed@,
                ).len() == 0,
                legacy_attempt(s, ks@, sealed@, idx as int, 1) == legacy_attempt(
                    s,
                    ks@,
                    sealed@,
                    idx as int,
                    i as int,
                ),
            decreases 11 - i,
        {
            if idx > i {
                let bidx = idx - i;
                match self.get_block(bidx) {
                    Some(b) => {
                        if b.hash.len() >= 12 {
                            let iv = vstd::slice::slice_subrange(b.hash.as_slice(), 0, 12);
                            proof {
                                assert(iv@ =~= s[bidx - 1].hash.take(12));
                            }
                            let att = ks.decrypt(sealed.as_slice(), iv);
                            if att.len() > 0 {
                                return att;
                            }
                        }
                    },
                    None => {},
                }
            }
            i = i + 1;
        }
        Bytes::empty()
    }

    /// The keyholder's domains: one entry per registered identity, carrying
    /// the opened name, the row's timestamp and the parsed data. An identity
    /// registered more than once keeps its latest row.
    pub fn get_my_domains(&self, keystore: &Option<Keystore>) -> (r: Vec<MyDomain>)
        requires
            self.wf(),
        ensures
            (match keystore {
                None => r@.len() == 0,
                Some(ks) => {
                    &&& (forall|k1: int, k2: int|
                        0 <= k1 < k2 < r@.len() ==> (#[trigger] r@[k1]).identity@ != (
                        #[trigger] r@[k2]).identity@)
                    &&& (forall|k: int|
                        #![trigger r@[k]]
                        0 <= k < r@.len() ==> {
                            let q = last_my_row_pos(
                                self@.blocks,
                                ks@,
                                r@[k].identity@,
                                self@.blocks.len() as int,
                            );
                            q >= 0 && entry_answers_for(self@.blocks, ks@, entry_view(r@[k]), q)
                        })
                    &&& (forall|j: int|
                        my_row(self@.blocks, ks@, j) ==> exists|k: int|
                            0 <= k < r@.len() && (#[trigger] r@[k]).identity@ == s_at(
                                self@.blocks,
                                j,
                            ).transaction->Some_0.identity)
                },
            }),
    {
        let ghost s = self@.blocks;
        let mut result: Vec<MyDomain> = Vec::new();
        let ks = match keystore {
            Some(k) => k,
            None => {
                return result;
            },
        };
        let key = ks.get_public();
        let mut j: usize = 0;
        while j < self.blocks.len()
            invariant
                self.wf(),
                s == self@.blocks,
                key@ == ks@,
                (*keystore) is Some && (*keystore)->Some_0@ == ks@,
                j <= s.len(),
                forall|k1: int, k2: int|
                    0 <= k1 < k2 < result@.len() ==> (#[trigger] result@[k1]).identity@ != (
                    #[trigger] result@[k2]).identity@,
                forall|k: int|
                    #![trigger result@[k]]
                    0 <= k < result@.len() ==> {
                        let q = last_my_row_pos(s, ks@, result@[k].identity@, j as int);
                        q >= 0 && entry_answers_for(s, ks@, entry_view(result@[k]), q)
                    },
                forall|q: int|
                    0 <= q < j && my_row(s, ks@, q) ==> exists|k: int|
                        0 <= k < result@.len() && (#[trigger] result@[k]).identity@ == s_at(
                            s,
                            q,
                        ).transaction->Some_0.identity,
            decreases s.len() - j,
        {
            let ghost res0 = result@;
            let b = &self.blocks[j];
            let mut processed = false;
            match &b.transaction {
                Some(t) => {
                    let is_mine = str_eq(t.class.as_str(), "domain") && crate::bytes::slices_equal(
                        t.pub_key.as_slice(),
                        key.as_slice(),
                    );
                    if is_mine {
                        match t.get_domain_data() {
                            Some(data) => {
                                processed = true;
                                let opened = self.recover_name(
                                    ks,
                                    b.index,
                                    &data.domain,
                                    &t.confirmation,
                                );
                                let name: String = if opened.len() > 0 {
                                    match string_from_utf8(vstd::slice::slice_to_vec(
                                        opened.as_slice(),
                                    )) {
                                        Some(text) => text,
                                        None => "unknown".to_owned(),
                                    }
                                } else {
                                    "unknown".to_owned()
                                };
                                let entry = MyDomain {
                                    identity: t.identity.clone(),
                                    name,
                                    timestamp: b.timestamp,
                                    data,
                                };
                                proof {
                                    assert(my_row(s, ks@, j as int));
                                    assert(entry.identity@ == s[j as int].transaction
                                        ->Some_0.identity);
                                    assert(entry_answers_for(s, ks@, entry_view(entry), j as int));
                                }
                                let mut k: usize = 0;
                                let mut placed = false;
                                while k < result.len() && !placed
                                    invariant
                                        k <= result@.len(),
                                        placed ==> k < result@.len() && result@.len() == res0.len()
                                            && entry_view(result@[k as int]) == entry_view(entry)
                                            && result@[k as int].identity@ == res0[k as int].identity@,
                                        !placed ==> result@ == res0 && (forall|k2: int|
                                            0 <= k2 < k ==> (#[trigger] result@[k2]).identity@
                                                != entry.identity@),
                                        placed ==> forall|k2: int|
                                            0 <= k2 < result@.len() && k2 != k ==> result@[k2]
                                                == res0[k2],
                                    decreases result@.len() - k + (if placed {
                                        0int
                                    } else {
                                        1int
                                    }),
                                {
                                    if crate::bytes::slices_equal(
                                        result[k].identity.as_slice(),
                                        entry.identity.as_slice(),
                                    ) {
                                        result.set(k, entry.clone_entry());
                                        placed = true;
                                    } else {
                                        k = k + 1;
                                    }
                                }
                                let ghost ev = entry_view(entry);
                                if !placed {
                                    result.push(entry);
                                }
                                proof {
                                    let rid = s[j as int].transaction->Some_0.identity;
                                    assert(last_my_row_pos(s, ks@, rid, j + 1) == j);
                                    assert forall|k1: int, k2: int|
                                        0 <= k1 < k2 < result@.len() implies (#[trigger] result@[k1]).identity@
                                            != (#[trigger] result@[k2]).identity@ by {
                                        if placed {
                                            if k1 != k {
                                                assert(result@[k1] == res0[k1]);
                                            }
                                            if k2 != k {
                                                assert(result@[k2] == res0[k2]);
                                            }
                                            assert(result@[k1].identity@ == res0[k1].identity@);
                                            assert(result@[k2].identity@ == res0[k2].identity@);
                                        } else {
                                            assert(result@[k1] == res0[k1]);
                                            if k2 == result@.len() - 1 {
                                                assert(entry_view(result@[k2]) == ev);
                                                assert(res0[k1].identity@ != ev.identity);
                                            } else {
                                                assert(result@[k2] == res0[k2]);
                                            }
                                        }
                                    }
                                    assert forall|k2: int|
                                        #![trigger result@[k2]]
                                        0 <= k2 < result@.len() implies {
                                        let q = last_my_row_pos(
                                            s,
                                            ks@,
                                            result@[k2].identity@,
                                            j + 1,
                                        );
                                        q >= 0 && entry_answers_for(
                                            s,
                                            ks@,
                                            entry_view(result@[k2]),
                                            q,
                                        )
                                    } by {
                                        if placed && k2 == k {
                                            assert(entry_view(result@[k2]) == ev);
                                            assert(result@[k2].identity@ == rid);
                                            assert(entry_answers_for(
                                                s,
                                                ks@,
                                                entry_view(result@[k2]),
                                                j as int,
                                            ));
                                        } else if !placed && k2 == result@.len() - 1 {
                                            assert(entry_view(result@[k2]) == ev);
                                            assert(result@[k2].identity@ == rid);
                                            assert(entry_answers_for(
                                                s,
                                                ks@,
                                                entry_view(result@[k2]),
                                                j as int,
                                            ));
                                        } else {
                                            assert(result@[k2] == res0[k2]);
                                            assert(res0[k2].identity@ != rid);
                                            assert(last_my_row_pos(
                                                s,
                                                ks@,
                                                res0[k2].identity@,
                                                j + 1,
                                            ) == last_my_row_pos(
                                                s,
                                                ks@,
                                                res0[k2].identity@,
                                                j as int,
                                            ));
                                        }
                                    }
                                    assert forall|q: int|
                                        0 <= q < j + 1 && my_row(s, ks@, q) implies exists|k2: int|
                                            0 <= k2 < result@.len() && (#[trigger] result@[k2]).identity@
                                                == s_at(s, q).transaction->Some_0.identity by {
                                        if q == j {
                                            if placed {
                                                assert(result@[k as int].identity@ == rid);
                                            } else {
                                                assert(result@[result@.len() - 1].identity@
                                                    == rid);
                                            }
                                        } else {
                                            let k0 = choose|k2: int|
                                                0 <= k2 < res0.len() && (#[trigger] res0[k2]).identity@
                                                    == s_at(s, q).transaction->Some_0.identity;
                                            assert(result@[k0].identity@ == res0[k0].identity@);
                                        }
                                    }
                                }
                            },
                            None => {},
                        }
                    }
                },
                None => {},
            }
            if !processed {
                proof {
                    assert(!my_row(s, ks@, j as int));
                    assert(result@ == res0);
                    assert forall|k2: int|
                        #![trigger result@[k2]]
                        0 <= k2 < result@.len() implies {
                        let q = last_my_row_pos(s, ks@, result@[k2].identity@, j + 1);
                        q >= 0 && entry_answers_for(s, ks@, entry_view(result@[k2]), q)
                    } by {
                        assert(last_my_row_pos(s, ks@, result@[k2].identity@, j + 1)
                            == last_my_row_pos(s, ks@, result@[k2].identity@, j as int));
                    }
                }
            }
            j = j + 1;
        }
        result
    }
}

/// The block at a position, total for the spec's sake.
pub open spec fn s_at(s: Seq<BlockV>, j: int) -> BlockV {
    s[j]
}

/// The mathematical shape of a reported domain entry.
pub ghost struct MyDomainV {
    pub identity: Seq<u8>,
    pub name: Seq<char>,
    pub timestamp: i64,
    pub zone: Seq<char>,
    pub domain: Seq<u8>,
    pub records: Seq<(Seq<char>, Seq<char>)>,
}

/// The view of a reported entry.
pub open spec fn entry_view(e: MyDomain) -> MyDomainV {
    MyDomainV {
        identity: e.identity@,
        name: e.name@,
        timestamp: e.timestamp,
        zone: e.data.zone@,
        domain: e.data.domain@,
        records: e.data.records.deep_view(),
    }
}

/// An entry reports the row at position `q` exactly: the row's identity and
/// timestamp, the parsed data, and the opened display name.
pub open spec fn entry_answers_for(s: Seq<BlockV>, key: Seq<u8>, e: MyDomainV, q: int) -> bool {
    let t = s_at(s, q).transaction->Some_0;
    let d = crate::transaction::domain_data_of(t.data)->Some_0;
    &&& e.identity == t.identity
    &&& e.timestamp == s_at(s, q).timestamp
    &&& (e.zone, e.domain, e.records) == d
    &&& display_name(name_bytes_spec(s, key, s_at(s, q).index as int, d.1, t.confirmation), e.name)
}

impl MyDomain {
    /// Copies an entry.
    fn clone_entry(&self) -> (r: MyDomain)
        ensures
            r.identity@ == self.identity@,
            r.name@ == self.name@,
            r.timestamp == self.timestamp,
            r.data.zone@ == self.data.zone@,
            r.data.domain@ == self.data.domain@,
            r.data.records.deep_view() == self.data.records.deep_view(),
    {
        MyDomain {
            identity: self.identity.clone(),
            name: self.name.clone(),
            timestamp: self.timestamp,
            data: self.data.clone(),
        }
    }
}

} // verus!
