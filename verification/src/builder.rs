//! Building the sparse matrix of a set of diagonals.

use crate::bands::BandTable;
use crate::error::DiagError;
use crate::model::{
    all_triplets, band_triplets, diag_entries, lemma_entry_count, lemma_no_fault_at,
    lemma_triplets_distinct, lemma_triplets_entries, lemma_upto_len, total_placed, triplets_upto,
};
use crate::placement::{diagonal_span, placed_count, select_slice, slice_origin};
use crate::sparse::{
    triplet_shape, triplets_add, triplets_new, triplets_of, triplets_to_csr, CsrMatrix,
};
use crate::validate::{check_offsets, first_fault, no_fault, offsets_distinct};
use vstd::prelude::*;

verus! {

/// Appends to `mat` the triplets of the diagonal at `offset`, filled from
/// band `k`.
fn place_band(
    mat: &mut sprs::TriMat<i64>,
    bands: &BandTable,
    k: usize,
    offset: isize,
    shape: (usize, usize),
)
    requires
        bands.wf(),
        k < bands@.len(),
        triplet_shape(*old(mat)) == shape,
        0 < placed_count(offset as int, shape.0 as int, shape.1 as int) <= bands@[k as int].len(),
    ensures
        triplet_shape(*final(mat)) == shape,
        triplets_of(*final(mat)) == triplets_of(*old(mat)) + band_triplets(
            bands@[k as int],
            offset as int,
            shape.0 as int,
            shape.1 as int,
        ),
{
    let ghost before = triplets_of(*mat);
    let ghost band = bands@[k as int];
    let ghost placed = band_triplets(band, offset as int, shape.0 as int, shape.1 as int);
    if let Some(span) = diagonal_span(offset, shape.0, shape.1) {
        let rule = select_slice(offset, shape.0, shape.1);
        let width: usize = bands.width();
        let start: usize = slice_origin(rule, span.count, width);
        let mut l: usize = 0;
        while l < span.count
            invariant
                l <= span.count,
                k < bands@.len(),
                band == bands@[k as int],
                band.len() == width,
                start + span.count <= band.len(),
                span.matches(offset as int, shape.0 as int, shape.1 as int),
                span.count == placed.len(),
                forall|i: int|
                    0 <= i < span.count ==> (#[trigger] placed[i]) == (
                        (span.row + i) as usize,
                        (span.col + i) as usize,
                        band[start + i],
                    ),
                triplet_shape(*mat) == shape,
                triplets_of(*mat) == before + placed.take(l as int),
            decreases span.count - l,
        {
            let value: i64 = bands.get(k, start + l);
            triplets_add(mat, span.row + l, span.col + l, value);
            proof {
                assert(before + placed.take(l as int + 1) =~= (before + placed.take(
                    l as int,
                )).push(placed[l as int]));
            }
            l = l + 1;
        }
        proof {
            assert(placed.take(span.count as int) =~= placed);
        }
    }
}

/// Builds the sparse matrix, in compressed-row storage, whose stored cells
/// are those of the given diagonals.
///
/// Band `k` of `bands` fills the diagonal at `offsets[k]` of a matrix of
/// `shape = (rows, cols)`. The diagonal starts at row `max(0, -offset)` and
/// column `max(0, offset)` and crosses `n = min(rows - row, cols - col)`
/// cells. Its values are `n` consecutive values of the band: the first `n`
/// or the last `n`, as `slice_rule` says.
///
/// All offsets are checked before anything is placed. The result is the
/// fault of the first offset that has one, if any has: `InvalidOffset` where
/// the diagonal crosses no cell, `BandTooShort` where the band holds fewer
/// than `n` values.
///
/// There must be one offset for each band, and no offset twice: two bands
/// on one diagonal would share every cell of it.
pub fn diags(bands: &BandTable, offsets: &[isize], shape: (usize, usize)) -> (res: Result<
    CsrMatrix,
    DiagError,
>)
    requires
        bands.wf(),
        offsets@.len() == bands@.len(),
        offsets_distinct(offsets@),
    ensures
        res is Ok <==> no_fault(bands@, offsets@, shape.0 as int, shape.1 as int),
        res matches Ok(m) ==> m.spec_shape() == shape,
        res matches Ok(m) ==> m@ == diag_entries(bands@, offsets@, shape.0 as int, shape.1 as int),
        res matches Ok(m) ==> m@.dom().finite() && m@.dom().len() == total_placed(
            offsets@,
            shape.0 as int,
            shape.1 as int,
        ),
        res matches Err(e) ==> first_fault(bands@, offsets@, shape.0 as int, shape.1 as int, e),
{
    match check_offsets(bands, offsets, shape) {
        Err(e) => {
            return Err(e);
        },
        Ok(()) => {},
    }
    let ghost rows = shape.0 as int;
    let ghost cols = shape.1 as int;
    let mut mat = triplets_new(shape);
    let mut k: usize = 0;
    while k < offsets.len()
        invariant
            k <= offsets@.len(),
            bands.wf(),
            offsets@.len() == bands@.len(),
            rows == shape.0,
            cols == shape.1,
            no_fault(bands@, offsets@, rows, cols),
            triplet_shape(mat) == shape,
            triplets_of(mat) == triplets_upto(bands@, offsets@, rows, cols, k as nat),
        decreases offsets@.len() - k,
    {
        proof {
            lemma_no_fault_at(bands@, offsets@, rows, cols, k as int);
        }
        place_band(&mut mat, bands, k, offsets[k], shape);
        k = k + 1;
    }
    proof {
        let listed = all_triplets(bands@, offsets@, rows, cols);
        lemma_triplets_distinct(bands@, offsets@, rows, cols);
        lemma_triplets_entries(bands@, offsets@, rows, cols);
        lemma_entry_count(listed);
        lemma_upto_len(bands@, offsets@, rows, cols, offsets@.len());
    }
    Ok(triplets_to_csr(&mat))
}

} // verus!
