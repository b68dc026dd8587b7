//! Mining: the job queue's rules and the nonce search.
//!
//! The worker threads, their clocks and their channels live outside the
//! library; they call in to queue jobs, to search nonce ranges, and to sign
//! what was found.

use vstd::prelude::*;

use crate::block::{block_bytes, block_pow_ok, Block, BlockV};
use crate::hashing::{difficulty_of, hash_bytes, hash_of, lz_bits};
use crate::keys::{sig_of, Keystore};
use crate::timeutil::{now_timestamp, random_u32};

verus! {

/// The mathematical shape of a queued job.
pub ghost struct MineJobV {
    pub start: i64,
    pub block: BlockV,
}

/// A queued piece of mining work: the block template and the earliest second
/// it is due; zero means due at once.
pub struct MineJob {
    pub start: i64,
    pub block: Block,
}

impl View for MineJob {
    type V = MineJobV;

    open spec fn view(&self) -> MineJobV {
        MineJobV { start: self.start, block: self.block@ }
    }
}

impl Clone for MineJob {
    fn clone(&self) -> (r: Self)
        ensures
            r@ == self@,
    {
        MineJob { start: self.start, block: self.block.clone() }
    }
}

impl MineJob {
    /// A job mining a payload block.
    pub fn is_full(&self) -> (r: bool)
        ensures
            r == self@.block.transaction is Some,
    {
        self.block.is_full()
    }

    /// A job mining a signing block.
    pub fn is_signing(&self) -> (r: bool)
        ensures
            r == self@.block.transaction is None,
    {
        !self.block.is_full()
    }

    /// Whether the job is due at second `now`.
    pub fn is_due(&self, now: i64) -> (r: bool)
        ensures
            r == (self@.start == 0 || self@.start < now),
    {
        self.start == 0 || self.start < now
    }
}

/// What the miner is doing, for display.
pub struct MinerState {
    pub mining: bool,
    pub full: bool,
}

/// The payload jobs of a queue, in order: queuing a signing job evicts every
/// earlier signing job.
pub open spec fn keep_full(jobs: Seq<MineJobV>) -> Seq<MineJobV>
    decreases jobs.len(),
{
    if jobs.len() == 0 {
        Seq::<MineJobV>::empty()
    } else if jobs.last().block.transaction is Some {
        keep_full(jobs.drop_last()).push(jobs.last())
    } else {
        keep_full(jobs.drop_last())
    }
}

/// The miner's queue and flags. The worker pool around it owns the threads;
/// here live the rules of the queue: payload jobs stack up, but at most one
/// signing job ever waits.
pub struct Miner {
    jobs: Vec<MineJob>,
    running: bool,
    mining: bool,
}

/// The mathematical shape of the miner.
pub ghost struct MinerV {
    pub jobs: Seq<MineJobV>,
    pub running: bool,
    pub mining: bool,
}

impl View for Miner {
    type V = MinerV;

    closed spec fn view(&self) -> MinerV {
        MinerV {
            jobs: self.jobs@.map_values(|j: MineJob| j@),
            running: self.running,
            mining: self.mining,
        }
    }
}

impl Miner {
    /// An idle miner with an empty queue.
    pub fn new() -> (r: Miner)
        ensures
            r@.jobs.len() == 0,
            !r@.running,
            !r@.mining,
    {
        Miner { jobs: Vec::new(), running: false, mining: false }
    }

    /// Queues a block for mining, due at once. A signing block first evicts
    /// every queued signing job: only one may ever wait.
    pub fn add_block(&mut self, block: Block)
        ensures
            final(self)@.jobs == (if block@.transaction is Some {
                old(self)@.jobs
            } else {
                keep_full(old(self)@.jobs)
            }).push(MineJobV { start: 0, block: block@ }),
            final(self)@.running == old(self)@.running,
            final(self)@.mining == old(self)@.mining,
    {
        let ghost jobs0 = self@.jobs;
        if !block.is_full() {
            let mut kept: Vec<MineJob> = Vec::new();
            let mut i: usize = 0;
            proof {
                assert(jobs0.take(0) =~= Seq::<MineJobV>::empty());
                assert(kept@.map_values(|j: MineJob| j@) =~= keep_full(jobs0.take(0)));
            }
            while i < self.jobs.len()
                invariant
                    i <= self.jobs@.len(),
                    jobs0 == self@.jobs,
                    self@.running == old(self)@.running,
                    self@.mining == old(self)@.mining,
                    kept@.map_values(|j: MineJob| j@) == keep_full(jobs0.take(i as int)),
                decreases self.jobs@.len() - i,
            {
                proof {
                    assert(jobs0.take(i + 1).drop_last() =~= jobs0.take(i as int));
                    assert(jobs0.take(i + 1).last() == jobs0[i as int]);
                }
                if self.jobs[i].is_full() {
                    kept.push(self.jobs[i].clone());
                    proof {
                        assert(kept@.map_values(|j: MineJob| j@) =~= keep_full(jobs0.take(i + 1)));
                    }
                }
                i = i + 1;
            }
            proof {
                assert(jobs0.take(jobs0.len() as int) =~= jobs0);
            }
            self.jobs = kept;
        }
        self.jobs.push(MineJob { start: 0, block });
        proof {
            assert(self@.jobs =~= (if self@.jobs.last().block.transaction is Some {
                jobs0
            } else {
                keep_full(jobs0)
            }).push(self@.jobs.last()));
        }
    }

    /// Queues a job due at its own time.
    pub fn add_job(&mut self, job: MineJob)
        ensures
            final(self)@.jobs == old(self)@.jobs.push(job@),
            final(self)@.running == old(self)@.running,
            final(self)@.mining == old(self)@.mining,
    {
        let ghost jobs0 = self@.jobs;
        let ghost jv = job@;
        self.jobs.push(job);
        proof {
            assert(self@.jobs =~= jobs0.push(jv));
        }
    }

    /// Takes the front job when it is due; an undue front job stays put.
    pub fn take_due_job(&mut self, now: i64) -> (r: Option<MineJob>)
        ensures
            final(self)@.running == old(self)@.running,
            final(self)@.mining == old(self)@.mining,
            (match r {
                Some(job) => old(self)@.jobs.len() > 0 && job@ == old(self)@.jobs[0] && (job@.start
                    == 0 || job@.start < now) && final(self)@.jobs == old(self)@.jobs.drop_first(),
                None => final(self)@.jobs == old(self)@.jobs && (old(self)@.jobs.len() == 0 || !(
                old(self)@.jobs[0].start == 0 || old(self)@.jobs[0].start < now)),
            }),
    {
        let ghost jobs0 = self@.jobs;
        if self.jobs.len() == 0 {
            return None;
        }
        if self.jobs[0].is_due(now) {
            let job = self.jobs.remove(0);
            proof {
                assert(self@.jobs =~= jobs0.drop_first());
            }
            Some(job)
        } else {
            None
        }
    }

    /// Puts a job back at the front of the queue.
    pub fn requeue_front(&mut self, job: MineJob)
        ensures
            final(self)@.jobs == seq![job@] + old(self)@.jobs,
            final(self)@.running == old(self)@.running,
            final(self)@.mining == old(self)@.mining,
    {
        let ghost jobs0 = self@.jobs;
        let ghost jv = job@;
        self.jobs.insert(0, job);
        proof {
            assert(self@.jobs =~= seq![jv] + jobs0);
        }
    }

    /// Marks the scheduler alive.
    pub fn start(&mut self)
        ensures
            final(self)@ == (MinerV { running: true, ..old(self)@ }),
    {
        self.running = true;
    }

    /// Marks a mining attempt in progress, or cancels one: clearing the flag
    /// is the only cancellation there is.
    pub fn set_mining(&mut self, mining: bool)
        ensures
            final(self)@ == (MinerV { mining, ..old(self)@ }),
    {
        self.mining = mining;
    }

    /// Stops everything: mining attempts drain and the scheduler exits.
    pub fn stop(&mut self)
        ensures
            final(self)@ == (MinerV { running: false, mining: false, ..old(self)@ }),
    {
        self.mining = false;
        self.running = false;
    }

    /// Whether the scheduler is alive.
    pub fn is_mining(&self) -> (r: bool)
        ensures
            r == self@.running,
    {
        self.running
    }

    /// Whether a mining attempt is in progress.
    pub fn mining_now(&self) -> (r: bool)
        ensures
            r == self@.mining,
    {
        self.mining
    }

    /// How many jobs wait.
    pub fn job_count(&self) -> (r: usize)
        ensures
            r == self@.jobs.len(),
    {
        self.jobs.len()
    }
}

/// The template `b` stamped with a stir value, a timestamp and a nonce, its
/// hash still empty.
pub open spec fn stamped(b: BlockV, random: u32, timestamp: i64, nonce: u64) -> BlockV {
    BlockV { random, timestamp, nonce, ..b }
}

/// Searches `tries` nonces from `start_nonce` up for a hash that reaches the
/// block's own difficulty, at the given stir value and timestamp. A found
/// block carries its hash; every earlier nonce in the range provably misses.
pub fn find_hash(block: &Block, random: u32, timestamp: i64, start_nonce: u64, tries: u64) -> (r:
    Option<Block>)
    requires
        start_nonce + tries <= u64::MAX,
    ensures
        (match r {
            Some(b) => {
                &&& start_nonce <= b@.nonce < start_nonce + tries
                &&& b@ == (BlockV {
                    hash: hash_of(block_bytes(stamped(block@, random, timestamp, b@.nonce))),
                    ..stamped(block@, random, timestamp, b@.nonce)
                })
                &&& block_pow_ok(b@)
                &&& crate::block::block_hash_ok(b@)
                &&& forall|n: u64|
                    start_nonce <= n < b@.nonce ==> lz_bits(
                        hash_of(block_bytes(stamped(block@, random, timestamp, n))),
                    ) < block@.difficulty
            },
            None => forall|n: u64|
                start_nonce <= n < start_nonce + tries ==> lz_bits(
                    hash_of(block_bytes(stamped(block@, random, timestamp, n))),
                ) < block@.difficulty,
        }),
{
    let ghost template = block@;
    let mut work = block.clone();
    work.random = random;
    work.timestamp = timestamp;
    let mut i: u64 = 0;
    while i < tries
        invariant
            i <= tries,
            start_nonce + tries <= u64::MAX,
            template == block@,
            work@ == stamped(template, random, timestamp, work@.nonce),
            forall|n: u64|
                start_nonce <= n < start_nonce + i ==> lz_bits(
                    hash_of(block_bytes(stamped(template, random, timestamp, n))),
                ) < template.difficulty,
        decreases tries - i,
    {
        work.nonce = start_nonce + i;
        let bytes = work.bytes_for_hash();
        let h = hash_bytes(bytes.as_slice());
        let d = difficulty_of(&h);
        if d >= work.difficulty {
            work.hash = h;
            proof {
                assert(work@ == (BlockV {
                    hash: hash_of(block_bytes(stamped(template, random, timestamp, work@.nonce))),
                    ..stamped(template, random, timestamp, work@.nonce)
                }));
                assert(block_bytes(work@) =~= block_bytes(
                    stamped(template, random, timestamp, work@.nonce),
                ));
                assert(crate::block::block_hash_ok(work@));
                assert(block_pow_ok(work@));
                assert(start_nonce <= work@.nonce < start_nonce + tries);
            }
            return Some(work);
        }
        i = i + 1;
    }
    None
}

/// A mining attempt as the worker makes it: a fresh stir value and the
/// clock. A found block is the given template stamped with those two draws
/// and the winning nonce, carrying its own hash.
pub fn mine_attempt(block: &Block, start_nonce: u64, tries: u64) -> (r: Option<Block>)
    requires
        start_nonce + tries <= u64::MAX,
    ensures
        (match r {
            Some(b) => {
                &&& block_pow_ok(b@)
                &&& crate::block::block_hash_ok(b@)
                &&& start_nonce <= b@.nonce < start_nonce + tries
                &&& exists|random: u32, ts: i64|
                    #![trigger stamped(block@, random, ts, b@.nonce)]
                    b@ == (BlockV {
                        hash: hash_of(block_bytes(stamped(block@, random, ts, b@.nonce))),
                        ..stamped(block@, random, ts, b@.nonce)
                    })
            },
            None => true,
        }),
{
    let random = random_u32();
    let timestamp = now_timestamp();
    let r = find_hash(block, random, timestamp, start_nonce, tries);
    proof {
        match &r {
            Some(b) => {
                let wr = random;
                let wt = timestamp;
                assert(b@ == (BlockV {
                    hash: hash_of(block_bytes(stamped(block@, wr, wt, b@.nonce))),
                    ..stamped(block@, wr, wt, b@.nonce)
                }));
            },
            None => {},
        }
    }
    r
}

/// Signs a mined block under the keystore's key: the signature covers the
/// same bytes the hash does. A block signed by its own miner then carries a
/// signature the whole chain accepts.
pub fn sign_block(block: &mut Block, keystore: &Keystore)
    ensures
        final(block)@ == (BlockV {
            signature: sig_of(keystore@, block_bytes(old(block)@)),
            ..old(block)@
        }),
        old(block)@.pub_key == keystore@ ==> crate::block::block_sig_ok(final(block)@),
{
    let bytes = block.bytes_for_hash();
    block.signature = keystore.sign(bytes.as_slice());
    proof {
        assert(block_bytes(block@) == block_bytes(old(block)@));
    }
}

} // verus!
