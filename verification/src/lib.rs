//! A structural differ for strongly typed, recursively nested parameter
//! trees.
//!
//! Given two trees of the same shape, the differ produces a tree in the
//! same representation that records every changed leaf, or reports that
//! the two trees are value-equal.  The top-level entry is
//! [`diff::diff_param_struct`]; its `None` result is the explicit
//! no-difference outcome, and callers decide whether to treat it as an
//! error or as an empty result.

pub mod diff;
pub mod laws;
pub mod param;
