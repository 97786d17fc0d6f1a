//! Module implementing hash functions.
//!
//! The hash functions are accessible through the `Digest` trait, which
//! defines the general interface: collect input with `update`, produce
//! the output with `finalize`.

use vstd::prelude::*;

pub mod siphash;

verus! {

use crate::errors::CtError;

/// Trait for hash functions, with general-purpose `update` and
/// `finalize` operations.
pub trait Digest {
    /// Type of the output of the hash function.
    type Output;

    /// Reset the hash function to its initial state.
    fn reset(&mut self);

    /// Collect inputs and update the hash function.
    fn update(&mut self, data: &[u8]);

    /// Finalize the hash function and return the output.
    fn finalize(&mut self) -> Result<Self::Output, CtError>;
}

} // verus!
