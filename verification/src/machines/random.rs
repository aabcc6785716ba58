use vstd::prelude::*;

use std::collections::hash_map::RandomState;
use std::hash::BuildHasher;

verus! {

/// A new random state (`RandomState::new`): std keys each one at random, the keys seeded
/// per process and moved on for each new state. Nothing is stated of the keys.
#[verifier::external_body]
fn new_random_state() -> (r: RandomState) {
    RandomState::new()
}

/// The hash of a number under a random state's keys (`BuildHasher::hash_one`). It depends
/// on the keys, which are random, so nothing is stated of it.
#[verifier::external_body]
fn hash_under(state: &RandomState, x: u64) -> (r: u64) {
    state.hash_one(x)
}

/// A random choice: the low bit of the hash of `0` under a new random state. Nothing is
/// stated of it beyond its type: any choice can come back.
pub(crate) fn random_bit() -> (r: bool) {
    let state = new_random_state();
    hash_under(&state, 0) % 2 == 1
}

} // verus!
