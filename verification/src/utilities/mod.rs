//! Module implementing various utilities.

use vstd::prelude::*;

pub mod bitops;
pub mod strings;
pub mod ustates;

verus! {

/// Trait for converting types to their little-endian byte representation.
///
/// `to_le_bytes` returns the value as a vector of bytes, least significant
/// byte first; `le_spec` is the byte sequence it promises to produce.
pub trait ToLeBytes {
    /// The byte sequence the conversion yields.
    spec fn le_spec(&self) -> Seq<u8>;

    /// Converts the value to a vector of bytes in little-endian order.
    fn to_le_bytes(&self) -> (r: Vec<u8>)
        ensures
            r@ == self.le_spec(),
    ;
}

} // verus!
