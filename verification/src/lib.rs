//! Sparse matrices built from diagonals.
//!
//! A matrix is described by a table of bands, one per diagonal, and the
//! offset of each diagonal from the main one. [`diags`] places the bands and
//! returns the matrix in compressed-row storage.

pub mod bands;
pub mod builder;
pub mod error;
pub mod laws;
pub mod model;
pub mod placement;
pub mod sparse;
pub mod validate;

pub use bands::BandTable;
pub use builder::diags;
pub use error::DiagError;
pub use sparse::CsrMatrix;
