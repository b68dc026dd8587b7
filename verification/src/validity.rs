//! The mathematical model of the chain: what each validation gate asks, what
//! a committed chain guarantees, and how signers are elected.
//!
//! Everything here speaks of a chain as a sequence of block views, position
//! `i` holding the block of index `i + 1`.

use vstd::prelude::*;

use crate::block::{block_hash_ok, block_pow_ok, block_sig_ok, BlockV};
use crate::bytes::{all_zero, tail_u64};
use crate::constants::{
    BLOCK_SIGNERS_ALL, BLOCK_SIGNERS_MIN, BLOCK_SIGNERS_START, CHAIN_VERSION, KEYSTORE_DIFFICULTY,
    NEW_DOMAINS_INTERVAL, SIGNER_DIFFICULTY, ZONE_DIFFICULTY,
};
use crate::hashing::{key_strong, lz_bits};
use crate::names::record_is_yggdrasil;
use crate::transaction::{domain_data_of, zone_data_of, TransactionV};
use crate::types::BlockQuality;

verus! {

/// A payload block carries a transaction.
pub open spec fn is_payload(b: BlockV) -> bool {
    b.transaction is Some
}

/// Position `i` holds the block of index `i + 1`.
pub open spec fn wf_seq(s: Seq<BlockV>) -> bool {
    forall|i: int| 0 <= i < s.len() ==> (#[trigger] s[i]).index == i + 1
}

/// The position of the last payload block among the first `limit` positions,
/// or -1 when there is none.
pub open spec fn last_payload_pos(s: Seq<BlockV>, limit: int) -> int
    decreases limit,
{
    if limit <= 0 {
        -1
    } else if limit > s.len() {
        last_payload_pos(s, s.len() as int)
    } else if is_payload(s[limit - 1]) {
        limit - 1
    } else {
        last_payload_pos(s, limit - 1)
    }
}

/// The position of the last payload block mined by `key` among the first
/// `limit` positions, or -1. The key compared is the block's own.
pub open spec fn last_payload_of_key_pos(s: Seq<BlockV>, limit: int, key: Seq<u8>) -> int
    decreases limit,
{
    if limit <= 0 {
        -1
    } else if limit > s.len() {
        last_payload_of_key_pos(s, s.len() as int, key)
    } else if is_payload(s[limit - 1]) && s[limit - 1].pub_key == key {
        limit - 1
    } else {
        last_payload_of_key_pos(s, limit - 1, key)
    }
}

/// Whether a block is a projection row of the given kind and identity: a
/// payload whose class is `zone` or `domain` and whose identity matches.
pub open spec fn row_match(b: BlockV, identity: Seq<u8>, zone_kind: bool) -> bool {
    &&& b.transaction is Some
    &&& b.transaction->Some_0.class == (if zone_kind {
        "zone"@
    } else {
        "domain"@
    })
    &&& b.transaction->Some_0.identity == identity
}

/// The first position at or after `p` holding a row of this kind and
/// identity below block index `limit`, or -1.
pub open spec fn first_row_from(
    s: Seq<BlockV>,
    p: int,
    limit: int,
    identity: Seq<u8>,
    zone_kind: bool,
) -> int
    decreases s.len() - p,
{
    if p < 0 || p >= s.len() || p + 1 >= limit {
        -1
    } else if row_match(s[p], identity, zone_kind) {
        p
    } else {
        first_row_from(s, p + 1, limit, identity, zone_kind)
    }
}

/// The store answers ownership queries from the first matching row: an
/// identity is available to `key` when no row of this kind sits below block
/// index `limit`, or the first one that does is owned by `key`.
pub open spec fn id_available(
    s: Seq<BlockV>,
    limit: int,
    identity: Seq<u8>,
    key: Seq<u8>,
    zone_kind: bool,
) -> bool {
    let p = first_row_from(s, 0, limit, identity, zone_kind);
    p < 0 || s[p].transaction->Some_0.pub_key == key
}

/// A row of this kind and identity exists below block index `limit`.
pub open spec fn id_in_chain(s: Seq<BlockV>, limit: int, identity: Seq<u8>, zone_kind: bool) -> bool {
    first_row_from(s, 0, limit, identity, zone_kind) >= 0
}

/// The last position holding a row of this kind and identity, or -1.
pub open spec fn last_row_pos(s: Seq<BlockV>, limit: int, identity: Seq<u8>, zone_kind: bool) -> int
    decreases limit,
{
    if limit <= 0 {
        -1
    } else if limit > s.len() {
        last_row_pos(s, s.len() as int, identity, zone_kind)
    } else if row_match(s[limit - 1], identity, zone_kind) {
        limit - 1
    } else {
        last_row_pos(s, limit - 1, identity, zone_kind)
    }
}

/// The zone data a block declares, when it is a zone payload that parses.
pub open spec fn zone_decl_of(b: BlockV) -> Option<(Seq<char>, u32, bool)> {
    match b.transaction {
        Some(t) => if t.class == "zone"@ {
            zone_data_of(t.data)
        } else {
            None
        },
        None => None,
    }
}

/// The position of the first zone entry named `name` at or after `i`, or -1.
pub open spec fn find_zone_from(acc: Seq<(Seq<char>, u32, bool)>, name: Seq<char>, i: int) -> int
    decreases acc.len() - i,
{
    if i < 0 || i >= acc.len() {
        -1
    } else if acc[i].0 == name {
        i
    } else {
        find_zone_from(acc, name, i + 1)
    }
}

/// The position of the first zone entry named `name`, or -1.
pub open spec fn find_zone(acc: Seq<(Seq<char>, u32, bool)>, name: Seq<char>) -> int {
    find_zone_from(acc, name, 0)
}

/// The list of zones the first `n` positions declare, every zone once, a
/// later declaration of the same name replacing the earlier one in place.
pub open spec fn zones_fold(s: Seq<BlockV>, n: int) -> Seq<(Seq<char>, u32, bool)>
    decreases n,
{
    if n <= 0 {
        Seq::<(Seq<char>, u32, bool)>::empty()
    } else if n > s.len() {
        zones_fold(s, s.len() as int)
    } else {
        let acc = zones_fold(s, n - 1);
        match zone_decl_of(s[n - 1]) {
            Some(z) => {
                let j = find_zone(acc, z.0);
                if j >= 0 {
                    acc.update(j, z)
                } else {
                    acc.push(z)
                }
            },
            None => acc,
        }
    }
}

/// The zone entry named `name` among the first `n` positions, if any.
pub open spec fn zone_lookup(s: Seq<BlockV>, n: int, name: Seq<char>) -> Option<
    (Seq<char>, u32, bool),
> {
    let acc = zones_fold(s, n);
    let j = find_zone(acc, name);
    if j >= 0 {
        Some(acc[j])
    } else {
        None
    }
}

/// The difficulty a transaction must reach, judged by the zones declared
/// below block index `limit`: a zone registration needs `ZONE_DIFFICULTY`, a
/// domain what its zone declares, and anything unplaceable is impossible.
pub open spec fn tx_required_difficulty(s: Seq<BlockV>, limit: int, t: TransactionV) -> u32 {
    if t.class == "domain"@ {
        match domain_data_of(t.data) {
            Some(d) => match zone_lookup(s, limit - 1, d.0) {
                Some(z) => z.1,
                None => 0xffff_ffffu32,
            },
            None => 0xffff_ffffu32,
        }
    } else if t.class == "zone"@ {
        ZONE_DIFFICULTY
    } else {
        0xffff_ffffu32
    }
}

/// The difficulty a block must reach: signing blocks need
/// `SIGNER_DIFFICULTY`, genesis `ZONE_DIFFICULTY`, payloads what their
/// transaction demands.
pub open spec fn required_difficulty_spec(s: Seq<BlockV>, b: BlockV) -> u32 {
    match b.transaction {
        None => if b.index == 1 {
            ZONE_DIFFICULTY
        } else {
            SIGNER_DIFFICULTY
        },
        Some(t) => tx_required_difficulty(s, b.index as int, t),
    }
}

/// How many rounds the signer election tries before giving up. A healthy
/// chain elects its seven signers within a handful of rounds; the bound only
/// keeps the walk finite when the window cannot yield seven distinct keys.
pub open spec fn elect_fuel() -> nat {
    65536
}

/// The product of two words, wrapped to 64 bits.
pub open spec fn mul_wrap(a: u64, b: u64) -> u64 {
    (((a as nat) * (b as nat)) % 0x1_0000_0000_0000_0000) as u64
}

/// One walk of the signer election: round `count` looks at the block of
/// index `(seed * count) mod window + 1` and collects its key when it is new
/// and not the payload miner's own; the walk ends with `BLOCK_SIGNERS_ALL`
/// keys or when the fuel runs out.
pub open spec fn elect_step(
    s: Seq<BlockV>,
    fpk: Seq<u8>,
    seed: u64,
    window: u64,
    count: u64,
    acc: Seq<Seq<u8>>,
    fuel: nat,
) -> Seq<Seq<u8>>
    decreases fuel,
{
    if fuel == 0 || acc.len() >= BLOCK_SIGNERS_ALL || window == 0 {
        acc
    } else {
        let idx = (mul_wrap(seed, count) % window) + 1;
        let key = s[idx - 1].pub_key;
        let acc2 = if key != fpk && !acc.contains(key) {
            acc.push(key)
        } else {
            acc
        };
        elect_step(s, fpk, seed, window, ((count as nat + 1) % 0x1_0000_0000_0000_0000) as u64, acc2, (fuel - 1) as nat)
    }
}

/// The ordered signers elected for the payload block `f`: keys drawn
/// pseudo-randomly from the blocks below `f`, seeded by the tail of `f`'s
/// signature. A payload at index one has no blocks below it and no signers.
pub open spec fn signers_spec(s: Seq<BlockV>, f: BlockV) -> Seq<Seq<u8>> {
    if f.index < 2 {
        Seq::<Seq<u8>>::empty()
    } else {
        elect_step(
            s,
            f.pub_key,
            tail_u64(f.signature),
            (f.index - 1) as u64,
            1,
            Seq::<Seq<u8>>::empty(),
            elect_fuel(),
        )
    }
}

/// The election the engine actually answers with: empty when the chain has
/// not reached `f` yet or signing has not begun.
pub open spec fn signers_guarded(s: Seq<BlockV>, f: BlockV) -> Seq<Seq<u8>> {
    if f.index < BLOCK_SIGNERS_START || s.len() < f.index {
        Seq::<Seq<u8>>::empty()
    } else {
        signers_spec(s, f)
    }
}

/// A good signer for the payload `f`: elected for `f`, and not the miner of
/// any block strictly between `f` and the candidate.
pub open spec fn good_signer(s: Seq<BlockV>, b: BlockV, f: BlockV) -> bool {
    &&& signers_guarded(s, f).contains(b.pub_key)
    &&& forall|j: int|
        f.index <= j < b.index - 1 && 0 <= j < s.len() ==> (#[trigger] s[j]).pub_key != b.pub_key
}

/// The signer rules over the last payload block `f`, with `acc` signing
/// blocks already sitting atop it: while fewer than `BLOCK_SIGNERS_MIN` have
/// accumulated, no new payload may stack and a signing block must come from a
/// fresh elected signer; until `BLOCK_SIGNERS_ALL` have accumulated, signing
/// blocks still must; after that anything goes.
pub open spec fn good_sign_block(s: Seq<BlockV>, b: BlockV, last_full: Option<BlockV>) -> bool {
    match last_full {
        None => true,
        Some(f) => {
            let acc = s.len() - f.index;
            if acc < BLOCK_SIGNERS_MIN {
                if is_payload(b) {
                    !(b.index > f.index)
                } else {
                    good_signer(s, b, f)
                }
            } else if acc < BLOCK_SIGNERS_ALL && !is_payload(b) {
                good_signer(s, b, f)
            } else {
                true
            }
        },
    }
}

/// The cooldown gate: when the block introduces an identity new to the chain,
/// its miner's previous payload block must be at least `NEW_DOMAINS_INTERVAL`
/// seconds older.
pub open spec fn cooldown_ok(s: Seq<BlockV>, b: BlockV, t: TransactionV) -> bool {
    let p = last_payload_of_key_pos(s, b.index - 1, b.pub_key);
    if p >= 0 {
        let new_id = !id_in_chain(s, b.index as int, t.identity, false);
        !(new_id && s[p].timestamp + NEW_DOMAINS_INTERVAL > b.timestamp)
    } else {
        true
    }
}

/// The Yggdrasil gate: a domain under a zone that allows Yggdrasil records
/// only may carry no other records. Zones are judged as declared below the
/// block's own index.
pub open spec fn ygg_ok(s: Seq<BlockV>, limit: int, t: TransactionV) -> bool {
    match domain_data_of(t.data) {
        Some(d) => match zone_lookup(s, limit - 1, d.0) {
            Some(z) => z.2 ==> forall|i: int|
                0 <= i < d.2.len() ==> record_is_yggdrasil(
                    (#[trigger] d.2[i]).0,
                    vstd::utf8::encode_utf8(d.2[i].1),
                ),
            None => true,
        },
        None => true,
    }
}

/// The gates a transaction must pass: it is owned by the key that mined it,
/// its identity is free of other owners under both kinds below the block's
/// index, and the cooldown and Yggdrasil rules hold.
pub open spec fn tx_gates_ok(s: Seq<BlockV>, b: BlockV) -> bool {
    let t = b.transaction->Some_0;
    &&& t.pub_key == b.pub_key
    &&& id_available(s, b.index as int, t.identity, b.pub_key, false)
    &&& id_available(s, b.index as int, t.identity, b.pub_key, true)
    &&& cooldown_ok(s, b, t)
    &&& ygg_ok(s, b.index as int, t)
}

/// What validation says of the candidate `b` against the stored chain `s`,
/// the configured `origin`, the cached tip blocks, and the clock reading
/// `now`. The first failing gate decides.
pub open spec fn check_block_spec(
    s: Seq<BlockV>,
    origin: Seq<u8>,
    last: Option<BlockV>,
    last_full: Option<BlockV>,
    b: BlockV,
    now: i64,
) -> BlockQuality {
    if b.version > CHAIN_VERSION {
        BlockQuality::Bad
    } else if b.timestamp > now + 60 {
        BlockQuality::Bad
    } else if last is Some && b.index > last->Some_0.index + 1 {
        BlockQuality::Future
    } else if !key_strong(b.pub_key, KEYSTORE_DIFFICULTY) {
        BlockQuality::Bad
    } else if b.difficulty < required_difficulty_spec(s, b) {
        BlockQuality::Bad
    } else if lz_bits(b.hash) < b.difficulty {
        BlockQuality::Bad
    } else if !block_hash_ok(b) {
        BlockQuality::Bad
    } else if !block_sig_ok(b) {
        BlockQuality::Bad
    } else if b.index >= 2 && b.index - 2 < s.len() && s[b.index - 2].hash != b.prev_block_hash {
        BlockQuality::Rewind
    } else if b.transaction is Some && !tx_gates_ok(s, b) {
        BlockQuality::Bad
    } else {
        match last {
            None => {
                if !(b.index == 1 && b.prev_block_hash.len() == 0) {
                    BlockQuality::Future
                } else if !all_zero(origin) && b.hash != origin {
                    BlockQuality::Bad
                } else {
                    BlockQuality::Good
                }
            },
            Some(l) => {
                if b.timestamp < l.timestamp && b.index > l.index {
                    BlockQuality::Bad
                } else if l.index + 1 < b.index {
                    BlockQuality::Future
                } else if b.index > BLOCK_SIGNERS_START && !good_sign_block(s, b, last_full) {
                    BlockQuality::Bad
                } else if b.index <= l.index {
                    if b.index == l.index && l.hash == b.hash {
                        BlockQuality::Twin
                    } else if b.index >= 1 && b.index - 1 < s.len() {
                        if s[b.index - 1].hash != b.hash {
                            BlockQuality::Fork
                        } else {
                            BlockQuality::Twin
                        }
                    } else {
                        BlockQuality::Twin
                    }
                } else if b.prev_block_hash != l.hash {
                    BlockQuality::Bad
                } else {
                    BlockQuality::Good
                }
            },
        }
    }
}

/// What one committed block guarantees within a chain. Genesis answers for
/// its place and the configured origin alone; every later block answers for
/// the full set of gates it passed, judged against the chain before it.
pub open spec fn block_valid_at(s: Seq<BlockV>, origin: Seq<u8>, i: int) -> bool {
    let b = s[i];
    &&& b.index == i + 1
    &&& (i == 0 ==> (!all_zero(origin) ==> b.hash == origin))
    &&& (i > 0 ==> {
        &&& b.version <= CHAIN_VERSION
        &&& key_strong(b.pub_key, KEYSTORE_DIFFICULTY)
        &&& b.difficulty >= required_difficulty_spec(s.take(i), b)
        &&& block_pow_ok(b)
        &&& block_hash_ok(b)
        &&& block_sig_ok(b)
        &&& b.prev_block_hash == s[i - 1].hash
        &&& b.timestamp >= s[i - 1].timestamp
        &&& (is_payload(b) ==> tx_gates_ok(s.take(i), b))
        &&& (b.index > BLOCK_SIGNERS_START ==> good_sign_block(
            s.take(i),
            b,
            if last_payload_pos(s, i) >= 0 {
                Some(s[last_payload_pos(s, i)])
            } else {
                None
            },
        ))
    })
}

/// A found last-payload position is a payload position inside the range.
pub proof fn lemma_last_payload_pos_props(s: Seq<BlockV>, limit: int)
    ensures
        ({
            let p = last_payload_pos(s, limit);
            p >= 0 ==> 0 <= p < s.len() && p < limit && is_payload(s[p])
        }),
    decreases limit,
{
    if limit > s.len() {
        lemma_last_payload_pos_props(s, s.len() as int);
    } else if limit > 0 && !is_payload(s[limit - 1]) {
        lemma_last_payload_pos_props(s, limit - 1);
    }
}

/// The chain after dropping every block of index `index` and above.
pub open spec fn truncated(s: Seq<BlockV>, index: u64) -> Seq<BlockV> {
    if index == 0 {
        Seq::<BlockV>::empty()
    } else if index - 1 < s.len() {
        s.take(index - 1)
    } else {
        s
    }
}

/// Appending a block moves no payload position below the old length.
pub proof fn lemma_last_payload_pos_push(s: Seq<BlockV>, b: BlockV, limit: int)
    requires
        limit <= s.len(),
    ensures
        last_payload_pos(s.push(b), limit) == last_payload_pos(s, limit),
    decreases limit,
{
    if limit > 0 {
        assert(s.push(b)[limit - 1] == s[limit - 1]);
        if !is_payload(s[limit - 1]) {
            lemma_last_payload_pos_push(s, b, limit - 1);
        }
    }
}

/// The election walk reads only blocks below the window, so appending a
/// block changes nothing.
pub proof fn lemma_elect_step_push(
    s: Seq<BlockV>,
    b: BlockV,
    fpk: Seq<u8>,
    seed: u64,
    window: u64,
    count: u64,
    acc: Seq<Seq<u8>>,
    fuel: nat,
)
    requires
        window <= s.len(),
    ensures
        elect_step(s.push(b), fpk, seed, window, count, acc, fuel) == elect_step(
            s,
            fpk,
            seed,
            window,
            count,
            acc,
            fuel,
        ),
    decreases fuel,
{
    if fuel != 0 && acc.len() < BLOCK_SIGNERS_ALL && window != 0 {
        let idx = (mul_wrap(seed, count) % window) + 1;
        assert(s.push(b)[idx - 1] == s[idx - 1]);
        let key = s[idx - 1].pub_key;
        let acc2 = if key != fpk && !acc.contains(key) {
            acc.push(key)
        } else {
            acc
        };
        lemma_elect_step_push(
            s,
            b,
            fpk,
            seed,
            window,
            ((count as nat + 1) % 0x1_0000_0000_0000_0000) as u64,
            acc2,
            (fuel - 1) as nat,
        );
    }
}

/// Appending a block does not change the election of an older payload block.
pub proof fn lemma_signers_spec_push(s: Seq<BlockV>, b: BlockV, f: BlockV)
    requires
        f.index <= s.len() + 1,
    ensures
        signers_spec(s.push(b), f) == signers_spec(s, f),
{
    if f.index >= 2 {
        lemma_elect_step_push(
            s,
            b,
            f.pub_key,
            tail_u64(f.signature),
            (f.index - 1) as u64,
            1,
            Seq::<Seq<u8>>::empty(),
            elect_fuel(),
        );
    }
}

/// A candidate judged `Good` extends the chain: its index is the next one,
/// and it links to the tip.
pub proof fn lemma_good_extends(
    s: Seq<BlockV>,
    origin: Seq<u8>,
    last_full: Option<BlockV>,
    b: BlockV,
    t: i64,
)
    requires
        wf_seq(s),
        check_block_spec(
            s,
            origin,
            if s.len() == 0 {
                None
            } else {
                Some(s.last())
            },
            last_full,
            b,
            t,
        ) == BlockQuality::Good,
    ensures
        b.index == s.len() + 1,
        s.len() > 0 ==> b.prev_block_hash == s.last().hash,
        s.len() == 0 ==> b.index == 1,
{
    if s.len() == 0 {
    } else {
        let l = s.last();
        assert(l.index == s.len());
    }
}

/// The last payload block strictly below position `p`, if any.
pub open spec fn lf_opt(s: Seq<BlockV>, p: int) -> Option<BlockV> {
    let q = last_payload_pos(s, p);
    if q >= 0 {
        Some(s[q])
    } else {
        None
    }
}

/// The first position at or after `p` whose block fails re-validation in its
/// historical context, or the chain length when none does. Genesis is never
/// re-validated here; it answers only for the origin.
pub open spec fn first_bad_from(s: Seq<BlockV>, origin: Seq<u8>, p: int, now: i64) -> int
    decreases s.len() + 1 - p,
{
    if p >= s.len() {
        s.len() as int
    } else if p <= 0 {
        first_bad_from(s, origin, 1, now)
    } else if check_block_spec(s, origin, Some(s[p - 1]), lf_opt(s, p), s[p], now)
        != BlockQuality::Good {
        p
    } else {
        first_bad_from(s, origin, p + 1, now)
    }
}

/// What a committed chain guarantees, block for block.
pub open spec fn chain_valid(s: Seq<BlockV>, origin: Seq<u8>) -> bool {
    forall|i: int| 0 <= i < s.len() ==> block_valid_at(s, origin, i)
}

} // verus!
