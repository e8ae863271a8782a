//! Classical statistical-learning estimators on dense numeric data.
//!
//! The heart of the crate is a binary margin classifier trained by
//! sequential minimal optimization: two trainer variants (`svc::SVC`,
//! a paired-heuristic solver over signed coefficients, and
//! `svc2::SVC2`, a KKT-scan solver over box-constrained coefficients)
//! share a kernel-matrix / error-cache utility module and a common
//! pairwise coordinate optimizer shape.  All numeric work is done on
//! exact fixed-point scalars (`fx::Fx`), so every update the solvers
//! make is pinned down by the contracts.

use vstd::prelude::*;

pub mod fx;
pub mod hclust;
pub mod kernel;
pub mod mat;
pub mod svc;
pub mod svc2;

verus! {

/// Why a `fit` call was rejected; no partial state is retained.
#[derive(Clone, Copy, PartialEq, Eq, Structural, Debug)]
pub enum FitError {
    /// The data matrix has no rows.
    EmptyData,
    /// The label vector's length differs from the row count.
    LengthMismatch,
}

} // verus!
