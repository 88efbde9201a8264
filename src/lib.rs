//! Finding the largest element of a slice, for a fixed integer type, for
//! characters, and for any type ordered by `PartialOrd`.
//!
//! The finders that return an element require a non-empty slice; the
//! position finder `largest_index` is total and returns `None` for an empty
//! one. Comparisons are strict, so of several equal largest elements the
//! first is the one found.
pub mod finder;
pub mod laws;
