//! Verdicts the engine hands out, and the options stored beside the chain.

use vstd::prelude::*;

verus! {

/// What validation says of a candidate block. `Bad` and `Twin` are terminal;
/// `Future` and `Rewind` ask the network for missing ancestors; `Fork` asks
/// higher policy whether to replace the stored block.
#[derive(Clone, Copy, Debug, PartialEq, Eq, Structural)]
pub enum BlockQuality {
    Good,
    Bad,
    Future,
    Rewind,
    Twin,
    Fork,
}

/// Whether a domain may be mined now, and if not, why not.
#[derive(Clone, Copy, Debug, PartialEq, Eq, Structural)]
pub enum MineResult {
    Fine,
    WrongName,
    WrongZone,
    NotOwned,
    Cooldown { time: i64 },
}

/// The key/value options stored beside the block table: the hex of the
/// accepted genesis hash, and the schema version.
pub struct Options {
    pub origin: String,
    pub version: u32,
}

impl Options {
    /// The options of a freshly created store.
    pub fn empty() -> (r: Options)
        ensures
            r.origin@ == Seq::<char>::empty(),
            r.version == 0,
    {
        Options { origin: String::new(), version: 0 }
    }
}

impl Clone for Options {
    fn clone(&self) -> (r: Self)
        ensures
            r.origin@ == self.origin@,
            r.version == self.version,
    {
        Options { origin: self.origin.clone(), version: self.version }
    }
}

} // verus!
