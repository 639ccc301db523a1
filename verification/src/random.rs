//! The random choices of a session.
use rand::seq::IndexedRandom;
use rand::RngCore;
use vstd::prelude::*;

verus! {

/// `IndexedRandom::choose` with the thread's generator: one of the items, or nothing when there is
/// none. Which item is left to chance.
#[verifier::external_body]
pub(crate) fn pick<T: Copy>(items: &[T]) -> (chosen: Option<T>)
    ensures
        chosen is None <==> items@.len() == 0,
        chosen matches Some(item) ==> items@.contains(item),
{
    items.choose(&mut rand::rng()).copied()
}

/// `rand::random`: a 32-bit number, left to chance.
#[verifier::external_body]
pub(crate) fn number() -> u32 {
    rand::random()
}

/// `RngCore::fill_bytes` with the thread's generator: twelve bytes, left to chance.
#[verifier::external_body]
pub(crate) fn twelve_bytes() -> [u8; 12] {
    let mut bytes = [0u8; 12];
    rand::rng().fill_bytes(&mut bytes);
    bytes
}

} // verus!
