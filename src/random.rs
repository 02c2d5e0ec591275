//! The machine's one source of chance.

use vstd::prelude::*;

verus! {

/// Relies on `rand::rng` (rand's thread-local generator) and `Rng::random`
/// for one byte; any byte may come back.
#[verifier::external_body]
pub(crate) fn random_byte() -> (r: u8) {
    rand::Rng::random::<u8>(&mut rand::rng())
}

} // verus!
