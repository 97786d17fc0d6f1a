//! Module implementing pseudorandom number generators.
//!
//! The generators are accessible through the `PRNG` trait, which offers
//! the `refresh` and `next` operations.

use vstd::prelude::*;

pub mod gt2016;
pub mod sprng;

verus! {

use crate::errors::CtError;

/// Trait for pseudorandom number generators, with general-purpose
/// `refresh` and `next` operations.
pub trait PRNG {
    /// PRNG input type.
    type Input;

    /// PRNG output type.
    type Output;

    /// Reseeds the state of the generator using the given inputs.
    fn refresh(&mut self, inputs: Vec<Self::Input>) -> Result<(), CtError>;

    /// Computes the next output of the generator.
    fn next(&mut self) -> Result<Self::Output, CtError>;
}

} // verus!
