//! The deterministic priority hash.
//!
//! Each tick derives pseudorandom groupings and collision priorities from
//! the tick counter through a seeded hasher with a fixed global state. The
//! result depends on the seed and the hashed value alone, which is what
//! makes a tick reproducible.

use std::hash::BuildHasher;

use vstd::prelude::*;

verus! {

/// What the seeded fixed-state hasher returns for a value: a pure function
/// of the seed and the value, the same in every process and on every
/// machine.
pub uninterp spec fn hash_of(seed: u64, key: u64) -> u64;

/// Relies on `bevy_platform::hash::FixedState` (foldhash's fixed-state
/// hasher): `with_seed(seed).hash_one(key)` mixes the two 64-bit inputs
/// through fixed compile-time constants, so the result is a function of
/// `seed` and `key` alone.
#[verifier::external_body]
pub(crate) fn hash_cell(seed: u64, key: u64) -> (r: u64)
    ensures
        r == hash_of(seed, key),
{
    bevy_platform::hash::FixedState::with_seed(seed).hash_one(key)
}

} // verus!
