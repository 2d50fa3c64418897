//! Why a set of diagonals cannot be placed.

use vstd::prelude::*;

verus! {

/// The first thing found wrong with the offsets and bands of a matrix.
/// `index` is the position of the offending offset in the list of offsets.
#[derive(Clone, Copy, Debug, PartialEq, Eq, Structural)]
pub enum DiagError {
    /// The diagonal at `offset` crosses no cell of the matrix.
    InvalidOffset { index: usize, offset: isize },
    /// The diagonal at `offset` crosses `required` cells, and its band holds
    /// only `available` values.
    BandTooShort { index: usize, offset: isize, required: usize, available: usize },
}

} // verus!
