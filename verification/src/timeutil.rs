//! The wall clock and the stir value, behind trusted calls.
//!
//! Both results depend on the world outside, so nothing is promised of them;
//! every rule that hinges on a time takes the time as an argument and is
//! verified for all of its values.

use vstd::prelude::*;

verus! {

/// Relies on `chrono::Utc::now`: seconds since the epoch, as the host clock
/// reports them. No two calls need to agree.
#[verifier::external_body]
pub fn now_timestamp() -> i64 {
    chrono::Utc::now().timestamp()
}

/// Relies on `rand::random`: a fresh stir value for a mining attempt.
#[verifier::external_body]
pub(crate) fn random_u32() -> u32 {
    rand::random::<u32>()
}

} // verus!
