//! A toolkit of permutation-based symmetric constructions: a duplex
//! object, two nonce-keyed stream ciphers, and a refresh/next pseudorandom
//! generator, all built generically over a fixed-width word abstraction
//! and an externally supplied permutation.
//!
//! Words are modelled as bit sequences ([`bitspec`]); any shape satisfying
//! the [`word::StateWord`] contract -- a single unsigned limb or the
//! four-limb register [`utilities::ustates::Ux4`] -- can carry a state,
//! and any [`perm::Permutation`] instance drives the sponge rounds.  Key,
//! IV and seed material is drawn through an injected
//! [`rng::RandomSource`], so deterministic sources can replace the ambient
//! one under test.

use vstd::prelude::*;

pub mod bitspec;
pub mod construction;
pub mod errors;
pub mod hash;
pub mod other;
pub mod perm;
pub mod prng;
pub mod rng;
pub mod stream;
pub mod utilities;
pub mod word;

verus! {

} // verus!
