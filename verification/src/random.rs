//! Numbers drawn by chance.

use vstd::prelude::*;

verus! {

/// Calls `rand::random` for a 64-bit number. Every number can come.
#[verifier::external_body]
pub(crate) fn random_number() -> u64 {
    rand::random::<u64>()
}

} // verus!
