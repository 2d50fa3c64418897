//! Where one diagonal lies in a matrix, and which part of its band fills it.
//!
//! A diagonal is named by its offset from the main diagonal: negative below,
//! zero on, positive above. Everything here is arithmetic on the offset and
//! the shape; no band values are read.

use vstd::prelude::*;

verus! {

/// The row of the first cell of the diagonal: `max(0, -offset)`.
pub open spec fn start_row(offset: int) -> int {
    if offset < 0 {
        -offset
    } else {
        0
    }
}

/// The column of the first cell of the diagonal: `max(0, offset)`.
pub open spec fn start_col(offset: int) -> int {
    if offset > 0 {
        offset
    } else {
        0
    }
}

/// How many cells of a `rows` by `cols` matrix the diagonal crosses:
/// `min(rows - start_row, cols - start_col)`. Zero or negative where the
/// diagonal lies outside the matrix.
pub open spec fn placed_count(offset: int, rows: int, cols: int) -> int {
    let down = rows - start_row(offset);
    let across = cols - start_col(offset);
    if down <= across {
        down
    } else {
        across
    }
}

/// The diagonal crosses at least one cell of the matrix.
pub open spec fn offset_fits(offset: int, rows: int, cols: int) -> bool {
    placed_count(offset, rows, cols) > 0
}

/// The cell `(row, col)` lies inside the matrix and on the diagonal.
pub open spec fn on_diagonal(offset: int, rows: int, cols: int, row: int, col: int) -> bool {
    0 <= row < rows && 0 <= col < cols && col - row == offset
}

/// Which end of its band a diagonal is filled from.
#[derive(Clone, Copy, Debug, PartialEq, Eq, Structural)]
pub enum BandSlice {
    /// The first `n` values of the band.
    TakeFirst,
    /// The last `n` values of the band.
    TakeLast,
}

/// The end of the band that fills a diagonal. In a square or tall matrix a
/// diagonal below the main one is filled from the front of its band and the
/// others from the back; in a wide matrix it is the other way round.
pub open spec fn slice_rule(offset: int, rows: int, cols: int) -> BandSlice {
    match (offset < 0, rows >= cols) {
        (true, true) => BandSlice::TakeFirst,
        (true, false) => BandSlice::TakeLast,
        (false, true) => BandSlice::TakeLast,
        (false, false) => BandSlice::TakeFirst,
    }
}

/// The index in a band of `width` values at which a slice of `count` values
/// begins.
pub open spec fn slice_start(rule: BandSlice, count: int, width: int) -> int {
    match rule {
        BandSlice::TakeFirst => 0,
        BandSlice::TakeLast => width - count,
    }
}

/// The index in its band of the first value that lands on the diagonal.
pub open spec fn source_start(offset: int, rows: int, cols: int, width: int) -> int {
    slice_start(slice_rule(offset, rows, cols), placed_count(offset, rows, cols), width)
}

/// The cells of one diagonal: `count` of them, the first at `(row, col)`, each
/// next one a row down and a column to the right.
#[derive(Clone, Copy, Debug, PartialEq, Eq, Structural)]
pub struct Span {
    pub count: usize,
    pub row: usize,
    pub col: usize,
}

impl Span {
    /// This span is the one that `offset` has in a `rows` by `cols` matrix.
    pub open spec fn matches(self, offset: int, rows: int, cols: int) -> bool {
        &&& self.count == placed_count(offset, rows, cols)
        &&& self.row == start_row(offset)
        &&& self.col == start_col(offset)
    }
}

/// The span of the diagonal at `offset`, or `None` where the diagonal
/// crosses no cell of the matrix.
pub fn diagonal_span(offset: isize, rows: usize, cols: usize) -> (span: Option<Span>)
    ensures
        span is Some <==> offset_fits(offset as int, rows as int, cols as int),
        span is Some ==> span->0.matches(offset as int, rows as int, cols as int),
{
    let mut row: usize = 0;
    let mut col: usize = 0;
    if offset < 0 {
        // -(offset + 1) fits in an isize even for the least offset.
        row = (-(offset + 1)) as usize + 1;
    } else {
        col = offset as usize;
    }
    if row >= rows || col >= cols {
        return None;
    }
    let down: usize = rows - row;
    let across: usize = cols - col;
    let count: usize = if down <= across {
        down
    } else {
        across
    };
    Some(Span { count, row, col })
}

/// The end of its band from which the diagonal at `offset` is filled.
pub fn select_slice(offset: isize, rows: usize, cols: usize) -> (rule: BandSlice)
    ensures
        rule == slice_rule(offset as int, rows as int, cols as int),
{
    if (offset < 0) == (rows >= cols) {
        BandSlice::TakeFirst
    } else {
        BandSlice::TakeLast
    }
}

/// Where in a band of `width` values a slice of `count` values begins.
pub fn slice_origin(rule: BandSlice, count: usize, width: usize) -> (start: usize)
    requires
        count <= width,
    ensures
        start == slice_start(rule, count as int, width as int),
{
    match rule {
        BandSlice::TakeFirst => 0,
        BandSlice::TakeLast => width - count,
    }
}

} // verus!
