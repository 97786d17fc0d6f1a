//! The randomness contract.
//!
//! Key, IV and seed material is drawn through an explicitly injected
//! provider, so deterministic providers can replace the ambient one under
//! test.  Nothing is promised about a drawn value: every contract in the
//! crate holds for every outcome.

use vstd::prelude::*;

verus! {

use crate::utilities::ustates::Ux4;

/// A source of uniformly distributed words; consumed only at setup,
/// reset, rekey and init time, never inside the deterministic core.
pub trait RandomSource<W> {
    /// Draws one word.
    fn sample(&mut self) -> W;
}

/// The ambient randomness of the running thread, as a `RandomSource`.
pub struct ThreadRandom;

/// Relies on rand::random: one uniformly drawn `u64`; nothing can be
/// promised of the value.
#[verifier::external_body]
fn random_u64() -> u64 {
    rand::random::<u64>()
}

/// Relies on rand::random: one uniformly drawn `u32`; nothing can be
/// promised of the value.
#[verifier::external_body]
fn random_u32() -> u32 {
    rand::random::<u32>()
}

/// Relies on rand::random: one uniformly drawn `u8`; nothing can be
/// promised of the value.
#[verifier::external_body]
fn random_u8() -> u8 {
    rand::random::<u8>()
}

impl RandomSource<u64> for ThreadRandom {
    fn sample(&mut self) -> u64 {
        random_u64()
    }
}

impl RandomSource<u32> for ThreadRandom {
    fn sample(&mut self) -> u32 {
        random_u32()
    }
}

impl RandomSource<u8> for ThreadRandom {
    fn sample(&mut self) -> u8 {
        random_u8()
    }
}

impl RandomSource<Ux4<u64>> for ThreadRandom {
    fn sample(&mut self) -> Ux4<u64> {
        Ux4::new([random_u64(), random_u64(), random_u64(), random_u64()])
    }
}

impl Ux4<u64> {
    /// Draw a random four-limb state from the thread's ambient randomness.
    pub fn rand() -> Self {
        Ux4::new([random_u64(), random_u64(), random_u64(), random_u64()])
    }
}

} // verus!
