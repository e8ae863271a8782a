//! Linkage criteria for agglomerative (hierarchical) clustering.
//!
//! The clustering estimator itself is floating-point glue around an
//! outside linear-algebra crate and lives with the unverified callers;
//! the criterion a caller picks is plain data and is defined here.

use vstd::prelude::*;

verus! {

/// How the distance between two clusters is derived from the pairwise
/// distances of their members.
#[derive(Clone, Copy, PartialEq, Eq, Structural, Debug)]
pub enum ClusterDistance {
    /// Minimum pairwise distance.
    Single,
    /// Maximum pairwise distance.
    Complete,
    /// Mean pairwise distance.
    Average,
}

} // verus!
