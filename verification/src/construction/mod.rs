//! Module grouping various constructions.

/// Module implementing the keyed duplex construction.
pub mod duplex;
