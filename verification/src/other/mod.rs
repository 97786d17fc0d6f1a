//! Module grouping additional constructions.

/// Module implementing the keyed duplex construction, getter-style
/// revision.
pub mod duplex;
