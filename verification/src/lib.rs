//! Exact scale mapping between an absolute domain and a relative position.
//!
//! Values are mapped between a caller-facing "absolute" domain and a
//! normalized "relative" position, nominally in [0, 1], through a linear or a
//! base-10 logarithmic strategy.  All arithmetic is exact: numbers are
//! represented as rational combinations of 1 and log10(2), so the logarithmic
//! transform and its inverse are exact on the representable domain, and the
//! undefined edge cases (zero-width bounds, logarithm of zero or of a negative
//! magnitude) propagate dedicated not-a-number and infinity values instead of
//! raising errors.

pub mod num;
pub mod mag;
pub mod linear;
pub mod logarithmic;
pub mod laws;
