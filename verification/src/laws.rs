//! What a committed chain guarantees, stated on its own and proved from the
//! validation gates. These are the library's laws: anyone holding a chain
//! that satisfies `chain_valid` may rely on every one of them, and `add_block`
//! preserves `chain_valid` whenever the verdict on the candidate was `Good`.

use vstd::prelude::*;

use crate::block::{block_hash_ok, block_pow_ok, block_sig_ok, BlockV};
use crate::bytes::tail_u64;
use crate::chain::{last_full_of, last_of};
use crate::constants::{BLOCK_SIGNERS_ALL, BLOCK_SIGNERS_MIN, KEYSTORE_DIFFICULTY};
use crate::hashing::key_strong;
use crate::types::BlockQuality;
use crate::validity::{
    block_valid_at, chain_valid, check_block_spec, elect_fuel, elect_step, first_row_from,
    good_sign_block, good_signer, is_payload, last_payload_pos, mul_wrap, required_difficulty_spec,
    row_match, signers_spec, tx_gates_ok, wf_seq,
};

verus! {

/// Every committed block chains to the hash of the block below it.
pub proof fn lemma_chain_links(s: Seq<BlockV>, origin: Seq<u8>, i: int)
    requires
        chain_valid(s, origin),
        1 <= i < s.len(),
    ensures
        s[i].prev_block_hash == s[i - 1].hash,
        s[i].index == i + 1,
{
    assert(block_valid_at(s, origin, i));
}

/// Every committed block past genesis carries the hash of its own
/// serialization and a signature that verifies under its own key.
pub proof fn lemma_chain_crypto(s: Seq<BlockV>, origin: Seq<u8>, i: int)
    requires
        chain_valid(s, origin),
        1 <= i < s.len(),
    ensures
        block_hash_ok(s[i]),
        block_sig_ok(s[i]),
        key_strong(s[i].pub_key, KEYSTORE_DIFFICULTY),
{
    assert(block_valid_at(s, origin, i));
}

/// Every committed block past genesis reaches the difficulty it claims, and
/// claims at least what its place demands.
pub proof fn lemma_chain_difficulty(s: Seq<BlockV>, origin: Seq<u8>, i: int)
    requires
        chain_valid(s, origin),
        1 <= i < s.len(),
    ensures
        block_pow_ok(s[i]),
        s[i].difficulty >= required_difficulty_spec(s.take(i), s[i]),
{
    assert(block_valid_at(s, origin, i));
}

/// A row scan reads only positions below its limit, so a longer chain
/// answers the same as its prefix.
proof fn lemma_first_row_prefix(
    s: Seq<BlockV>,
    m: int,
    p: int,
    limit: int,
    identity: Seq<u8>,
    zone_kind: bool,
)
    requires
        0 <= m <= s.len(),
        limit <= m + 1,
        0 <= p,
    ensures
        first_row_from(s, p, limit, identity, zone_kind) == first_row_from(
            s.take(m),
            p,
            limit,
            identity,
            zone_kind,
        ),
    decreases s.len() - p,
{
    if p < s.len() && p + 1 < limit {
        assert(s.take(m)[p] == s[p]);
        if !row_match(s[p], identity, zone_kind) {
            lemma_first_row_prefix(s, m, p + 1, limit, identity, zone_kind);
        }
    }
}

/// The first row of a kind and identity, over the whole chain.
pub open spec fn first_owner_pos(s: Seq<BlockV>, identity: Seq<u8>, zone_kind: bool) -> int {
    first_row_from(s, 0, s.len() as int + 1, identity, zone_kind)
}

/// A found first row is a matching row, and the first: nothing matches below it.
proof fn lemma_first_row_props(
    s: Seq<BlockV>,
    p: int,
    limit: int,
    identity: Seq<u8>,
    zone_kind: bool,
)
    requires
        0 <= p,
    ensures
        ({
            let f = first_row_from(s, p, limit, identity, zone_kind);
            &&& (f >= 0 ==> p <= f < s.len() && f + 1 < limit && row_match(
                s[f],
                identity,
                zone_kind,
            ))
            &&& (forall|j: int|
                p <= j < s.len() && j + 1 < limit && j < f && row_match(
                    #[trigger] s[j],
                    identity,
                    zone_kind,
                ) ==> false)
            &&& (f < 0 ==> forall|j: int|
                p <= j < s.len() && j + 1 < limit ==> !row_match(
                    #[trigger] s[j],
                    identity,
                    zone_kind,
                ))
        }),
    decreases s.len() - p,
{
    if p < s.len() && p + 1 < limit && !row_match(s[p], identity, zone_kind) {
        lemma_first_row_props(s, p + 1, limit, identity, zone_kind);
    }
}

/// A widened limit keeps the same first row as long as one was found.
proof fn lemma_first_row_widen(
    s: Seq<BlockV>,
    p: int,
    limit1: int,
    limit2: int,
    identity: Seq<u8>,
    zone_kind: bool,
)
    requires
        0 <= p,
        limit1 <= limit2,
        first_row_from(s, p, limit1, identity, zone_kind) >= 0,
    ensures
        first_row_from(s, p, limit2, identity, zone_kind) == first_row_from(
            s,
            p,
            limit1,
            identity,
            zone_kind,
        ),
    decreases s.len() - p,
{
    if p < s.len() && p + 1 < limit1 && !row_match(s[p], identity, zone_kind) {
        lemma_first_row_widen(s, p + 1, limit1, limit2, identity, zone_kind);
    }
}

/// The key a committed row is owned by is the key of the chain's first row
/// of that kind and identity.
proof fn lemma_row_owner(s: Seq<BlockV>, origin: Seq<u8>, j: int, zone_kind: bool)
    requires
        chain_valid(s, origin),
        1 <= j < s.len(),
        row_match(s[j], s[j].transaction->Some_0.identity, zone_kind),
    ensures
        ({
            let x = s[j].transaction->Some_0.identity;
            let f = first_owner_pos(s, x, zone_kind);
            0 <= f <= j && s[j].pub_key == s[f].transaction->Some_0.pub_key
        }),
    decreases j,
{
    let x = s[j].transaction->Some_0.identity;
    let f = first_owner_pos(s, x, zone_kind);
    lemma_first_row_props(s, 0, s.len() as int + 1, x, zone_kind);
    assert(f >= 0) by {
        if f < 0 {
            assert(!row_match(s[j], x, zone_kind));
        }
    }
    assert(f <= j) by {
        if f > j {
            assert(row_match(s[j], x, zone_kind));
        }
    }
    if f == j {
        assert(block_valid_at(s, origin, j));
        assert(tx_gates_ok(s.take(j), s[j]));
    } else {
        // row `j` passed the ownership gate against the first matching row
        assert(block_valid_at(s, origin, j));
        assert(tx_gates_ok(s.take(j), s[j]));
        let fj = first_row_from(s.take(j), 0, j + 1, x, zone_kind);
        lemma_first_row_prefix(s, j, 0, j + 1, x, zone_kind);
        assert(fj == first_row_from(s, 0, j + 1, x, zone_kind));
        assert(first_row_from(s, 0, j + 1, x, zone_kind) >= 0) by {
            lemma_first_row_props(s, 0, j + 1, x, zone_kind);
            if first_row_from(s, 0, j + 1, x, zone_kind) < 0 {
                assert(!row_match(s[f], x, zone_kind));
            }
        }
        lemma_first_row_widen(s, 0, j + 1, s.len() as int + 1, x, zone_kind);
        assert(fj == f);
        assert(s.take(j)[f] == s[f]);
        assert(s[j].pub_key == s[f].transaction->Some_0.pub_key);
    }
}

/// One identity, one owner: two committed payload blocks registering the
/// same identity under the same kind carry the same miner key.
pub proof fn lemma_identity_single_owner(
    s: Seq<BlockV>,
    origin: Seq<u8>,
    j1: int,
    j2: int,
    zone_kind: bool,
)
    requires
        chain_valid(s, origin),
        1 <= j1 < s.len(),
        1 <= j2 < s.len(),
        row_match(s[j1], s[j1].transaction->Some_0.identity, zone_kind),
        row_match(s[j2], s[j2].transaction->Some_0.identity, zone_kind),
        s[j1].transaction->Some_0.identity == s[j2].transaction->Some_0.identity,
    ensures
        s[j1].pub_key == s[j2].pub_key,
{
    lemma_row_owner(s, origin, j1, zone_kind);
    lemma_row_owner(s, origin, j2, zone_kind);
}

/// The election walk reads only positions below the window, so a longer
/// chain elects the same signers as its prefix.
proof fn lemma_elect_step_prefix(
    s: Seq<BlockV>,
    m: int,
    fpk: Seq<u8>,
    seed: u64,
    window: u64,
    count: u64,
    acc: Seq<Seq<u8>>,
    fuel: nat,
)
    requires
        window <= m <= s.len(),
    ensures
        elect_step(s.take(m), fpk, seed, window, count, acc, fuel) == elect_step(
            s,
            fpk,
            seed,
            window,
            count,
            acc,
            fuel,
        ),
    decreases fuel,
{
    if fuel != 0 && acc.len() < BLOCK_SIGNERS_ALL && window != 0 {
        let idx = (mul_wrap(seed, count) % window) + 1;
        assert(s.take(m)[idx - 1] == s[idx - 1]);
        let key = s[idx - 1].pub_key;
        let acc2 = if key != fpk && !acc.contains(key) {
            acc.push(key)
        } else {
            acc
        };
        lemma_elect_step_prefix(
            s,
            m,
            fpk,
            seed,
            window,
            ((count as nat + 1) % 0x1_0000_0000_0000_0000) as u64,
            acc2,
            (fuel - 1) as nat,
        );
    }
}

/// The signers elected for a payload block depend on the chain below it
/// alone: any extension of that prefix elects the same ordered list. With
/// the seed drawn from the block's own signature, the election is a function
/// of the payload block and the chain it closed over, and re-electing after
/// the cache is dropped gives the same list back.
pub proof fn lemma_signers_deterministic(s: Seq<BlockV>, m: int, f: BlockV)
    requires
        f.index >= 1,
        f.index - 1 <= m <= s.len(),
    ensures
        signers_spec(s.take(m), f) == signers_spec(s, f),
{
    if f.index >= 2 {
        lemma_elect_step_prefix(
            s,
            m,
            f.pub_key,
            tail_u64(f.signature),
            (f.index - 1) as u64,
            1,
            Seq::<Seq<u8>>::empty(),
            elect_fuel(),
        );
    }
}

/// The signer quota: when the chain extends past a committed payload block,
/// the two blocks above it are signing blocks from two distinct signers
/// elected for it.
pub proof fn lemma_signer_quota(s: Seq<BlockV>, origin: Seq<u8>, f: int)
    requires
        chain_valid(s, origin),
        0 <= f,
        f + 2 < s.len(),
        is_payload(s[f]),
    ensures
        !is_payload(s[f + 1]),
        !is_payload(s[f + 2]),
        signers_spec(s, s[f]).contains(s[f + 1].pub_key),
        signers_spec(s, s[f]).contains(s[f + 2].pub_key),
        s[f + 1].pub_key != s[f + 2].pub_key,
{
    assert(block_valid_at(s, origin, f));
    assert(block_valid_at(s, origin, f + 1));
    assert(block_valid_at(s, origin, f + 2));
    assert(s[f].index == f + 1);
    assert(last_payload_pos(s, f + 1) == f);
    assert(s[f + 1].index == f + 2);
    let b1 = s[f + 1];
    assert(good_sign_block(s.take(f + 1), b1, Some(s[f])));
    assert(s.take(f + 1).len() - s[f].index == 0);
    assert(!is_payload(b1)) by {
        if is_payload(b1) {
            assert(!(b1.index > s[f].index));
        }
    }
    assert(good_signer(s.take(f + 1), b1, s[f]));
    lemma_signers_deterministic(s, f + 1, s[f]);
    assert(last_payload_pos(s, f + 2) == f);
    let b2 = s[f + 2];
    assert(good_sign_block(s.take(f + 2), b2, Some(s[f])));
    assert(s.take(f + 2).len() - s[f].index == 1);
    assert(!is_payload(b2)) by {
        if is_payload(b2) {
            assert(!(b2.index > s[f].index));
        }
    }
    assert(good_signer(s.take(f + 2), b2, s[f]));
    lemma_signers_deterministic(s, f + 2, s[f]);
    assert(s[f + 1].pub_key != s[f + 2].pub_key) by {
        assert(s.take(f + 2)[f + 1] == s[f + 1]);
        assert(s[f].index <= f + 1 < b2.index - 1);
    }
}

/// A block judged `Good` against a valid chain's tip extends it into a valid
/// chain: `add_block` keeps every law alive.
pub proof fn lemma_good_preserves_valid(s: Seq<BlockV>, origin: Seq<u8>, b: BlockV, t: i64)
    requires
        wf_seq(s),
        chain_valid(s, origin),
        check_block_spec(s, origin, last_of(s), last_full_of(s), b, t) == BlockQuality::Good,
    ensures
        chain_valid(s.push(b), origin),
        wf_seq(s.push(b)),
{
    let s2 = s.push(b);
    crate::validity::lemma_good_extends(s, origin, last_full_of(s), b, t);
    assert(s2.len() == s.len() + 1);
    assert forall|i: int| 0 <= i < s2.len() implies block_valid_at(s2, origin, i) by {
        if i < s.len() {
            assert(block_valid_at(s, origin, i));
            assert(s2[i] == s[i]);
            if i > 0 {
                assert(s2[i - 1] == s[i - 1]);
                assert(s2.take(i) =~= s.take(i));
                crate::validity::lemma_last_payload_pos_push(s, b, i);
                crate::validity::lemma_last_payload_pos_props(s, i);
                if last_payload_pos(s, i) >= 0 {
                    assert(s2[last_payload_pos(s, i)] == s[last_payload_pos(s, i)]);
                }
            }
        } else {
            assert(i == s.len());
            assert(s2[i] == b);
            assert(s2.take(i) =~= s);
            if s.len() == 0 {
                assert(b.index == 1);
            } else {
                let l = s.last();
                assert(block_valid_at(s2, origin, i)) by {
                    assert(b.index == i + 1);
                    assert(s2[i - 1] == l);
                    crate::validity::lemma_last_payload_pos_push(s, b, s.len() as int);
                    assert(last_payload_pos(s2, i) == last_payload_pos(s, s.len() as int));
                    crate::validity::lemma_last_payload_pos_props(s, s.len() as int);
                }
            }
        }
    }
}

/// The zones declared among the first `n` positions read nothing past `n`.
proof fn lemma_zones_fold_prefix(s: Seq<BlockV>, m: int, n: int)
    requires
        0 <= n <= m <= s.len(),
    ensures
        crate::validity::zones_fold(s.take(m), n) == crate::validity::zones_fold(s, n),
    decreases n,
{
    if n > 0 {
        lemma_zones_fold_prefix(s, m, n - 1);
        assert(s.take(m)[n - 1] == s[n - 1]);
    }
}

/// The last payload of a key below a limit reads nothing past the limit.
proof fn lemma_last_payload_of_key_prefix(s: Seq<BlockV>, m: int, limit: int, key: Seq<u8>)
    requires
        0 <= limit <= m <= s.len(),
    ensures
        crate::validity::last_payload_of_key_pos(s.take(m), limit, key)
            == crate::validity::last_payload_of_key_pos(s, limit, key),
    decreases limit,
{
    if limit > 0 {
        assert(s.take(m)[limit - 1] == s[limit - 1]);
        if !(is_payload(s[limit - 1]) && s[limit - 1].pub_key == key) {
            lemma_last_payload_of_key_prefix(s, m, limit - 1, key);
        }
    }
}

/// A committed block re-validates as `Good` in its historical context, at
/// any clock reading its timestamp has not outrun.
#[verifier::rlimit(100)]
pub proof fn lemma_revalidation_good(s: Seq<BlockV>, origin: Seq<u8>, p: int, now: i64)
    requires
        wf_seq(s),
        chain_valid(s, origin),
        1 <= p < s.len(),
        forall|i: int| 0 <= i < s.len() ==> (#[trigger] s[i]).timestamp <= now + 60,
    ensures
        check_block_spec(
            s,
            origin,
            Some(s[p - 1]),
            crate::validity::lf_opt(s, p),
            s[p],
            now,
        ) == BlockQuality::Good,
{
    let b = s[p];
    let l = s[p - 1];
    assert(block_valid_at(s, origin, p));
    assert(block_valid_at(s, origin, p - 1));
    assert(b.index == p + 1);
    assert(l.index == p);
    // the difficulty gate judges by the zones below the block, which the
    // prefix it was committed against already held
    assert(required_difficulty_spec(s, b) == required_difficulty_spec(s.take(p), b)) by {
        match b.transaction {
            None => {},
            Some(t) => {
                if t.class == "domain"@ {
                    match crate::transaction::domain_data_of(t.data) {
                        Some(d) => {
                            lemma_zones_fold_prefix(s, p, p);
                        },
                        None => {},
                    }
                }
            },
        }
    }
    // the transaction gates over the whole chain agree with the prefix form
    if b.transaction is Some {
        let t = b.transaction->Some_0;
        assert(tx_gates_ok(s.take(p), b));
        assert(tx_gates_ok(s, b)) by {
            lemma_first_row_prefix(s, p, 0, b.index as int, t.identity, false);
            lemma_first_row_prefix(s, p, 0, b.index as int, t.identity, true);
            let f1 = first_row_from(s, 0, b.index as int, t.identity, false);
            if f1 >= 0 {
                lemma_first_row_props(s, 0, b.index as int, t.identity, false);
                assert(s.take(p)[f1] == s[f1]);
            }
            let f2 = first_row_from(s, 0, b.index as int, t.identity, true);
            if f2 >= 0 {
                lemma_first_row_props(s, 0, b.index as int, t.identity, true);
                assert(s.take(p)[f2] == s[f2]);
            }
            lemma_last_payload_of_key_prefix(s, p, b.index - 1, b.pub_key);
            let q = crate::validity::last_payload_of_key_pos(s, b.index - 1, b.pub_key);
            if q >= 0 {
                crate::validity::lemma_last_payload_pos_props(s, p as int);
                assert(s.take(p)[q] == s[q]) by {
                    lemma_last_payload_of_key_props(s, b.index - 1, b.pub_key);
                }
            }
            match crate::transaction::domain_data_of(t.data) {
                Some(d) => {
                    lemma_zones_fold_prefix(s, p, p);
                },
                None => {},
            }
        }
    }
    // the signer rules pass with the accumulation the full chain shows
    let lp = last_payload_pos(s, p);
    crate::validity::lemma_last_payload_pos_props(s, p);
    if lp >= 0 {
        let f = s[lp];
        assert(block_valid_at(s, origin, lp));
        assert(f.index == lp + 1);
        assert(good_sign_block(s.take(p), b, Some(f)));
        let acc_p = p - f.index;
        let acc_full = s.len() - f.index;
        assert(acc_p <= acc_full);
        assert(good_sign_block(s, b, Some(f))) by {
            if b.transaction is Some {
                assert(acc_p >= BLOCK_SIGNERS_MIN) by {
                    if acc_p < BLOCK_SIGNERS_MIN {
                        assert(!(b.index > f.index));
                    }
                }
            } else {
                if acc_full < BLOCK_SIGNERS_ALL {
                    assert(good_signer(s.take(p), b, f)) by {
                        if acc_p < BLOCK_SIGNERS_MIN {
                        } else {
                            assert(acc_p < BLOCK_SIGNERS_ALL);
                        }
                    }
                    assert(good_signer(s, b, f)) by {
                        lemma_signers_deterministic(s, p, f);
                        assert(crate::validity::signers_guarded(s.take(p), f)
                            == crate::validity::signers_guarded(s, f));
                        assert forall|j: int|
                            f.index <= j < b.index - 1 && 0 <= j < s.len() implies (
                        #[trigger] s[j]).pub_key != b.pub_key by {
                            assert(s.take(p)[j] == s[j]);
                        }
                    }
                }
            }
        }
    }
    assert(check_block_spec(s, origin, Some(l), crate::validity::lf_opt(s, p), b, now)
        == BlockQuality::Good);
}

/// A found last payload of a key is such a payload, inside the range.
proof fn lemma_last_payload_of_key_props(s: Seq<BlockV>, limit: int, key: Seq<u8>)
    ensures
        ({
            let q = crate::validity::last_payload_of_key_pos(s, limit, key);
            q >= 0 ==> 0 <= q < s.len() && q < limit && is_payload(s[q]) && s[q].pub_key == key
        }),
    decreases limit,
{
    if limit > s.len() {
        lemma_last_payload_of_key_props(s, s.len() as int, key);
    } else if limit > 0 && !(is_payload(s[limit - 1]) && s[limit - 1].pub_key == key) {
        lemma_last_payload_of_key_props(s, limit - 1, key);
    }
}

/// Re-checking a valid chain finds nothing to cut: `check_chain` leaves it
/// whole, whatever depth it walks.
pub proof fn lemma_check_chain_noop(s: Seq<BlockV>, origin: Seq<u8>, p: int, now: i64)
    requires
        wf_seq(s),
        chain_valid(s, origin),
        0 <= p,
        forall|i: int| 0 <= i < s.len() ==> (#[trigger] s[i]).timestamp <= now + 60,
    ensures
        crate::validity::first_bad_from(s, origin, p, now) == s.len(),
        s.take(crate::validity::first_bad_from(s, origin, p, now)) == s,
    decreases s.len() + 1 - p,
{
    if p >= s.len() {
    } else if p == 0 {
        lemma_check_chain_noop(s, origin, 1, now);
    } else {
        lemma_revalidation_good(s, origin, p, now);
        lemma_check_chain_noop(s, origin, p + 1, now);
    }
    assert(s.take(s.len() as int) =~= s);
}

/// The election order of the spec's worked example, as a law: a payload
/// block at index ten whose signature tail reads seven draws its window of
/// nine earlier miners in the order eight, six, four, two, nine, seven,
/// five. When those miners' keys are pairwise distinct and none is the
/// payload miner's own, the elected list is exactly those seven keys in
/// discovery order — and, the election being a function of the payload block
/// and the chain below it, every re-election returns the same list.
pub proof fn lemma_election_order_seed_seven(s: Seq<BlockV>, f: BlockV)
    requires
        s.len() >= 9,
        f.index == 10,
        tail_u64(f.signature) == 7,
        forall|i: int| 0 <= i < 9 ==> (#[trigger] s[i]).pub_key != f.pub_key,
        forall|i: int, j: int|
            0 <= i < j < 9 ==> (#[trigger] s[i]).pub_key != (#[trigger] s[j]).pub_key,
    ensures
        signers_spec(s, f) == seq![
            s[7].pub_key,
            s[5].pub_key,
            s[3].pub_key,
            s[1].pub_key,
            s[8].pub_key,
            s[6].pub_key,
            s[4].pub_key,
        ],
{
    let a0 = Seq::<Seq<u8>>::empty();
    let a1 = a0.push(s[7].pub_key);
    assert(elect_step(s, f.pub_key, 7, 9, 1, a0, (elect_fuel() - 0) as nat)
        == elect_step(s, f.pub_key, 7, 9, 2, a1, (elect_fuel() - 1) as nat));
    let a2 = a1.push(s[5].pub_key);
    assert(!a1.contains(s[5].pub_key)) by {
        if a1.contains(s[5].pub_key) {
            let i = choose|i: int| 0 <= i < a1.len() && a1[i] == s[5].pub_key;
        }
    }
    assert(elect_step(s, f.pub_key, 7, 9, 2, a1, (elect_fuel() - 1) as nat)
        == elect_step(s, f.pub_key, 7, 9, 3, a2, (elect_fuel() - 2) as nat));
    let a3 = a2.push(s[3].pub_key);
    assert(!a2.contains(s[3].pub_key)) by {
        if a2.contains(s[3].pub_key) {
            let i = choose|i: int| 0 <= i < a2.len() && a2[i] == s[3].pub_key;
        }
    }
    assert(elect_step(s, f.pub_key, 7, 9, 3, a2, (elect_fuel() - 2) as nat)
        == elect_step(s, f.pub_key, 7, 9, 4, a3, (elect_fuel() - 3) as nat));
    let a4 = a3.push(s[1].pub_key);
    assert(!a3.contains(s[1].pub_key)) by {
        if a3.contains(s[1].pub_key) {
            let i = choose|i: int| 0 <= i < a3.len() && a3[i] == s[1].pub_key;
        }
    }
    assert(elect_step(s, f.pub_key, 7, 9, 4, a3, (elect_fuel() - 3) as nat)
        == elect_step(s, f.pub_key, 7, 9, 5, a4, (elect_fuel() - 4) as nat));
    let a5 = a4.push(s[8].pub_key);
    assert(!a4.contains(s[8].pub_key)) by {
        if a4.contains(s[8].pub_key) {
            let i = choose|i: int| 0 <= i < a4.len() && a4[i] == s[8].pub_key;
        }
    }
    assert(elect_step(s, f.pub_key, 7, 9, 5, a4, (elect_fuel() - 4) as nat)
        == elect_step(s, f.pub_key, 7, 9, 6, a5, (elect_fuel() - 5) as nat));
    let a6 = a5.push(s[6].pub_key);
    assert(!a5.contains(s[6].pub_key)) by {
        if a5.contains(s[6].pub_key) {
            let i = choose|i: int| 0 <= i < a5.len() && a5[i] == s[6].pub_key;
        }
    }
    assert(elect_step(s, f.pub_key, 7, 9, 6, a5, (elect_fuel() - 5) as nat)
        == elect_step(s, f.pub_key, 7, 9, 7, a6, (elect_fuel() - 6) as nat));
    let a7 = a6.push(s[4].pub_key);
    assert(!a6.contains(s[4].pub_key)) by {
        if a6.contains(s[4].pub_key) {
            let i = choose|i: int| 0 <= i < a6.len() && a6[i] == s[4].pub_key;
        }
    }
    assert(elect_step(s, f.pub_key, 7, 9, 7, a6, (elect_fuel() - 6) as nat)
        == elect_step(s, f.pub_key, 7, 9, 8, a7, (elect_fuel() - 7) as nat));
    assert(elect_step(s, f.pub_key, 7, 9, 8, a7, (elect_fuel() - 7) as nat) == a7);
    assert(signers_spec(s, f) == a7);
}

} // verus!
