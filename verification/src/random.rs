//! The source of randomness for the `Cxkk` instruction.
use vstd::prelude::*;

verus! {

/// A byte from `rand::random`, the thread-local generator of the `rand`
/// crate. Nothing is claimed of its value: any byte may come back, and two
/// calls may return different bytes. (`rand` panics if the thread-local
/// generator cannot be seeded from the operating system; that is not stated.)
#[verifier::external_body]
pub(crate) fn random_byte() -> u8 {
    rand::random::<u8>()
}

} // verus!
