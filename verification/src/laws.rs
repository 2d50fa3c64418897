//! What holds of the matrix of a set of diagonals, whatever the bands hold.

use crate::error::DiagError;
use crate::model::{
    all_triplets, covers, diag_entries, lemma_cell_on_diagonal, lemma_entry_at, lemma_entry_count,
    lemma_no_fault_at, lemma_triplets_distinct, lemma_triplets_entries, lemma_upto_len, placed_len,
    total_placed,
};
use crate::placement::{
    offset_fits, placed_count, slice_rule, source_start, start_col, start_row,
};
use crate::sparse::{coords_distinct, dense_value};
use crate::validate::{fault_at, no_fault, offsets_distinct};
use vstd::prelude::*;

verus! {

/// A diagonal crosses a cell of the matrix exactly where the matrix has a
/// cell at all and the offset lies strictly between `-rows` and `cols`.
pub proof fn lemma_offset_fits_range(offset: int, rows: int, cols: int)
    ensures
        offset_fits(offset, rows, cols) <==> (0 < rows && 0 < cols && -rows < offset < cols),
{
}

/// An offset whose diagonal crosses no cell is never passed over: it is at
/// fault as an invalid offset, so the input as a whole is rejected.
pub proof fn lemma_unplaced_offset_rejected(
    bands: Seq<Seq<i64>>,
    offsets: Seq<isize>,
    rows: int,
    cols: int,
    k: int,
)
    requires
        0 <= k < offsets.len(),
        placed_count(offsets[k] as int, rows, cols) <= 0,
    ensures
        fault_at(bands, offsets, rows, cols, k) == Some(
            DiagError::InvalidOffset { index: k as usize, offset: offsets[k] },
        ),
        !no_fault(bands, offsets, rows, cols),
{
    assert(fault_at(bands, offsets, rows, cols, k) is Some);
}

/// One band of `size` values on the main diagonal of a square matrix of
/// that size gives the diagonal matrix of the band: value `i` of the band at
/// `(i, i)`, nothing stored elsewhere, so every other cell reads as zero.
pub proof fn lemma_main_diagonal(band: Seq<i64>, size: int)
    requires
        0 < size <= usize::MAX,
        band.len() == size,
    ensures
        no_fault(seq![band], seq![0isize], size, size),
        forall|row: usize, col: usize|
            #![trigger diag_entries(seq![band], seq![0isize], size, size).dom().contains((row, col))]
            diag_entries(seq![band], seq![0isize], size, size).dom().contains((row, col)) <==> (row
                == col && row < size),
        forall|row: usize, col: usize|
            #![trigger dense_value(diag_entries(seq![band], seq![0isize], size, size), row, col)]
            dense_value(diag_entries(seq![band], seq![0isize], size, size), row, col) == (if row
                == col && row < size {
                band[row as int]
            } else {
                0
            }),
{
    let bands = seq![band];
    let offsets = seq![0isize];
    let entries = diag_entries(bands, offsets, size, size);
    assert forall|k: int| 0 <= k < offsets.len() implies (#[trigger] fault_at(
        bands,
        offsets,
        size,
        size,
        k,
    )) is None by {
        assert(k == 0);
    }
    assert forall|row: usize, col: usize|
        #![trigger entries.dom().contains((row, col))]
        (entries.dom().contains((row, col)) <==> (row == col && row < size)) && dense_value(
            entries,
            row,
            col,
        ) == (if row == col && row < size {
            band[row as int]
        } else {
            0
        }) by {
        let cell = (row, col);
        if row == col && row < size {
            lemma_entry_at(bands, offsets, size, size, 0, cell);
        }
        if entries.dom().contains(cell) {
            let k = choose|k: int| covers(offsets, size, size, k, cell.0 as int, cell.1 as int);
            assert(k == 0);
        }
    }
}

/// The builder emits one triplet for each cell that a diagonal crosses, and
/// with distinct offsets no two of them lie on the same cell. The matrix
/// then stores as many entries as the diagonals cross cells: the sum over
/// the offsets of `placed_count`, each of which is positive where nothing is
/// at fault.
pub proof fn lemma_count_and_cells(bands: Seq<Seq<i64>>, offsets: Seq<isize>, rows: int, cols: int)
    requires
        bands.len() == offsets.len(),
        offsets_distinct(offsets),
        0 <= rows <= usize::MAX,
        0 <= cols <= usize::MAX,
    ensures
        all_triplets(bands, offsets, rows, cols).len() == total_placed(offsets, rows, cols),
        coords_distinct(all_triplets(bands, offsets, rows, cols)),
        diag_entries(bands, offsets, rows, cols).dom().finite(),
        diag_entries(bands, offsets, rows, cols).dom().len() == total_placed(offsets, rows, cols),
        no_fault(bands, offsets, rows, cols) ==> forall|k: int|
            0 <= k < offsets.len() ==> #[trigger] placed_len(offsets[k] as int, rows, cols)
                == placed_count(offsets[k] as int, rows, cols),
{
    lemma_upto_len(bands, offsets, rows, cols, offsets.len());
    lemma_triplets_distinct(bands, offsets, rows, cols);
    lemma_triplets_entries(bands, offsets, rows, cols);
    lemma_entry_count(all_triplets(bands, offsets, rows, cols));
    if no_fault(bands, offsets, rows, cols) {
        assert forall|k: int| 0 <= k < offsets.len() implies #[trigger] placed_len(
            offsets[k] as int,
            rows,
            cols,
        ) == placed_count(offsets[k] as int, rows, cols) by {
            lemma_no_fault_at(bands, offsets, rows, cols, k);
        }
    }
}

/// Diagonal `j` of `(bands, offsets)` has the given offset and band.
pub open spec fn pairs(
    bands: Seq<Seq<i64>>,
    offsets: Seq<isize>,
    j: int,
    offset: isize,
    band: Seq<i64>,
) -> bool {
    0 <= j < offsets.len() && offsets[j] == offset && bands[j] == band
}

/// Every diagonal of the first input occurs in the second, with the same
/// offset and the same band.
pub open spec fn pairs_kept(
    bands: Seq<Seq<i64>>,
    offsets: Seq<isize>,
    other_bands: Seq<Seq<i64>>,
    other_offsets: Seq<isize>,
) -> bool {
    forall|k: int|
        0 <= k < offsets.len() ==> exists|j: int|
            pairs(other_bands, other_offsets, j, #[trigger] offsets[k], bands[k])
}

/// Every cell that the first input stores, the second stores with the same
/// value, where it keeps every diagonal of the first.
proof fn lemma_pairs_kept_entries(
    bands: Seq<Seq<i64>>,
    offsets: Seq<isize>,
    other_bands: Seq<Seq<i64>>,
    other_offsets: Seq<isize>,
    rows: int,
    cols: int,
    cell: (usize, usize),
)
    requires
        offsets_distinct(other_offsets),
        pairs_kept(bands, offsets, other_bands, other_offsets),
        diag_entries(bands, offsets, rows, cols).dom().contains(cell),
    ensures
        diag_entries(other_bands, other_offsets, rows, cols).dom().contains(cell),
        diag_entries(other_bands, other_offsets, rows, cols)[cell] == diag_entries(
            bands,
            offsets,
            rows,
            cols,
        )[cell],
{
    let k = choose|k: int| covers(offsets, rows, cols, k, cell.0 as int, cell.1 as int);
    let offset = offsets[k];
    let j = choose|j: int| pairs(other_bands, other_offsets, j, offset, bands[k]);
    lemma_entry_at(other_bands, other_offsets, rows, cols, j, cell);
}

/// The order of the offsets does not matter: two inputs that pair the same
/// offsets with the same bands, in whatever order, give the same matrix.
pub proof fn lemma_order_of_offsets(
    bands: Seq<Seq<i64>>,
    offsets: Seq<isize>,
    other_bands: Seq<Seq<i64>>,
    other_offsets: Seq<isize>,
    rows: int,
    cols: int,
)
    requires
        offsets_distinct(offsets),
        offsets_distinct(other_offsets),
        pairs_kept(bands, offsets, other_bands, other_offsets),
        pairs_kept(other_bands, other_offsets, bands, offsets),
    ensures
        diag_entries(bands, offsets, rows, cols) == diag_entries(
            other_bands,
            other_offsets,
            rows,
            cols,
        ),
{
    let one = diag_entries(bands, offsets, rows, cols);
    let two = diag_entries(other_bands, other_offsets, rows, cols);
    assert forall|cell: (usize, usize)| #[trigger] one.dom().contains(cell) implies two.dom().contains(
        cell,
    ) && two[cell] == one[cell] by {
        lemma_pairs_kept_entries(bands, offsets, other_bands, other_offsets, rows, cols, cell);
    }
    assert forall|cell: (usize, usize)| #[trigger] two.dom().contains(cell) implies one.dom().contains(
        cell,
    ) by {
        lemma_pairs_kept_entries(other_bands, other_offsets, bands, offsets, rows, cols, cell);
    }
    assert(one.dom() =~= two.dom());
    assert(one =~= two);
}

/// `flipped` holds the offsets of `offsets`, each negated.
pub open spec fn negated(offsets: Seq<isize>, flipped: Seq<isize>) -> bool {
    &&& flipped.len() == offsets.len()
    &&& forall|k: int| 0 <= k < offsets.len() ==> #[trigger] flipped[k] == -offsets[k]
}

/// The matrix with rows and columns exchanged.
pub open spec fn transposed(m: Map<(usize, usize), i64>) -> Map<(usize, usize), i64> {
    Map::new(|rc: (usize, usize)| m.dom().contains((rc.1, rc.0)), |rc: (usize, usize)| m[(rc.1, rc.0)])
}

/// The values that `band` gives to the diagonal at `offset` of a `rows` by
/// `cols` matrix.
pub open spec fn taken_slice(band: Seq<i64>, offset: int, rows: int, cols: int) -> Seq<i64> {
    let start = source_start(offset, rows, cols, band.len() as int);
    band.subrange(start, start + placed_count(offset, rows, cols))
}

/// The band gives the same values to the diagonal at `offset` of a `rows`
/// by `cols` matrix as to the diagonal at `-offset` of a `cols` by `rows`
/// matrix.
pub open spec fn flip_keeps_slice(band: Seq<i64>, offset: int, rows: int, cols: int) -> bool {
    taken_slice(band, offset, rows, cols) == taken_slice(band, -offset, cols, rows)
}

/// Exchanging rows and columns and negating the offset leaves the count of
/// cells alone. It leaves the end of the band alone where the matrix is not
/// square and the offset not zero, and where the matrix is square and the
/// offset zero; in the other cases it exchanges the two ends. So a band
/// keeps its slice in the first cases, and in every case where the slice is
/// the whole band.
pub proof fn lemma_flip_slice_rule(band: Seq<i64>, offset: int, rows: int, cols: int)
    requires
        0 < placed_count(offset, rows, cols) <= band.len(),
    ensures
        placed_count(-offset, cols, rows) == placed_count(offset, rows, cols),
        slice_rule(-offset, cols, rows) == slice_rule(offset, rows, cols) <==> ((offset != 0
            && rows != cols) || (offset == 0 && rows == cols)),
        slice_rule(-offset, cols, rows) == slice_rule(offset, rows, cols) ==> flip_keeps_slice(
            band,
            offset,
            rows,
            cols,
        ),
        placed_count(offset, rows, cols) == band.len() ==> flip_keeps_slice(
            band,
            offset,
            rows,
            cols,
        ),
{
}

/// Cell `l` of diagonal `k`, and the cell across the main diagonal from it
/// in the exchanged matrix, hold value `l` of the slice that the band gives
/// to each.
proof fn lemma_slice_cells(
    bands: Seq<Seq<i64>>,
    offsets: Seq<isize>,
    flipped: Seq<isize>,
    rows: int,
    cols: int,
    k: int,
    l: int,
)
    requires
        bands.len() == offsets.len(),
        negated(offsets, flipped),
        offsets_distinct(offsets),
        offsets_distinct(flipped),
        0 <= rows <= usize::MAX,
        0 <= cols <= usize::MAX,
        no_fault(bands, offsets, rows, cols),
        0 <= k < offsets.len(),
        0 <= l < placed_count(offsets[k] as int, rows, cols),
    ensures
        ({
            let offset = offsets[k] as int;
            let row = (start_row(offset) + l) as usize;
            let col = (start_col(offset) + l) as usize;
            &&& covers(offsets, rows, cols, k, row as int, col as int)
            &&& covers(flipped, cols, rows, k, col as int, row as int)
            &&& diag_entries(bands, offsets, rows, cols)[(row, col)] == taken_slice(
                bands[k],
                offset,
                rows,
                cols,
            )[l]
            &&& diag_entries(bands, flipped, cols, rows)[(col, row)] == taken_slice(
                bands[k],
                -offset,
                cols,
                rows,
            )[l]
        }),
{
    let offset = offsets[k] as int;
    let row = (start_row(offset) + l) as usize;
    let col = (start_col(offset) + l) as usize;
    lemma_no_fault_at(bands, offsets, rows, cols, k);
    assert(flipped[k] == -offsets[k]);
    lemma_entry_at(bands, offsets, rows, cols, k, (row, col));
    lemma_entry_at(bands, flipped, cols, rows, k, (col, row));
}

/// Orientation symmetry: with the shape exchanged from `(rows, cols)` to
/// `(cols, rows)` and every offset negated, the same bands fill the
/// transposed cells, and the exchanged input is valid as well. The matrix is
/// the transpose of the first exactly where each band keeps its slice under
/// the exchange (see `lemma_flip_slice_rule` for when it does).
pub proof fn lemma_orientation_symmetry(
    bands: Seq<Seq<i64>>,
    offsets: Seq<isize>,
    flipped: Seq<isize>,
    rows: int,
    cols: int,
)
    requires
        bands.len() == offsets.len(),
        negated(offsets, flipped),
        offsets_distinct(offsets),
        0 <= rows <= usize::MAX,
        0 <= cols <= usize::MAX,
        no_fault(bands, offsets, rows, cols),
    ensures
        offsets_distinct(flipped),
        no_fault(bands, flipped, cols, rows),
        diag_entries(bands, flipped, cols, rows).dom() == transposed(
            diag_entries(bands, offsets, rows, cols),
        ).dom(),
        diag_entries(bands, flipped, cols, rows) == transposed(
            diag_entries(bands, offsets, rows, cols),
        ) <==> forall|k: int|
            0 <= k < offsets.len() ==> #[trigger] flip_keeps_slice(
                bands[k],
                offsets[k] as int,
                rows,
                cols,
            ),
{
    let there = diag_entries(bands, offsets, rows, cols);
    let back = diag_entries(bands, flipped, cols, rows);
    assert forall|a: int, b: int| 0 <= a < b < flipped.len() implies flipped[a] != flipped[b] by {
        assert(offsets[a] != offsets[b]);
    }
    assert forall|k: int| 0 <= k < flipped.len() implies (#[trigger] fault_at(
        bands,
        flipped,
        cols,
        rows,
        k,
    )) is None by {
        lemma_no_fault_at(bands, offsets, rows, cols, k);
        assert(flipped[k] == -offsets[k]);
    }
    assert forall|rc: (usize, usize)| #[trigger]
        back.dom().contains(rc) implies transposed(there).dom().contains(rc) by {
        let k = choose|k: int| covers(flipped, cols, rows, k, rc.0 as int, rc.1 as int);
        assert(flipped[k] == -offsets[k]);
        lemma_entry_at(bands, offsets, rows, cols, k, (rc.1, rc.0));
    }
    assert forall|rc: (usize, usize)| #[trigger]
        transposed(there).dom().contains(rc) implies back.dom().contains(rc) by {
        let k = choose|k: int| covers(offsets, rows, cols, k, rc.1 as int, rc.0 as int);
        assert(flipped[k] == -offsets[k]);
        lemma_entry_at(bands, flipped, cols, rows, k, rc);
    }
    assert(back.dom() =~= transposed(there).dom());
    let keeps = forall|k: int|
        0 <= k < offsets.len() ==> #[trigger] flip_keeps_slice(
            bands[k],
            offsets[k] as int,
            rows,
            cols,
        );
    if keeps {
        assert forall|rc: (usize, usize)| #[trigger]
            back.dom().contains(rc) implies back[rc] == transposed(there)[rc] by {
            let row = rc.1 as int;
            let col = rc.0 as int;
            let k = choose|k: int| covers(offsets, rows, cols, k, row, col);
            let offset = offsets[k] as int;
            let l = row - start_row(offset);
            lemma_cell_on_diagonal(offset, rows, cols, row, col);
            lemma_no_fault_at(bands, offsets, rows, cols, k);
            lemma_slice_cells(bands, offsets, flipped, rows, cols, k, l);
            assert(flip_keeps_slice(bands[k], offset, rows, cols));
        }
        assert(back =~= transposed(there));
    }
    if back == transposed(there) {
        assert forall|k: int| 0 <= k < offsets.len() implies #[trigger] flip_keeps_slice(
            bands[k],
            offsets[k] as int,
            rows,
            cols,
        ) by {
            let offset = offsets[k] as int;
            let one = taken_slice(bands[k], offset, rows, cols);
            let two = taken_slice(bands[k], -offset, cols, rows);
            lemma_no_fault_at(bands, offsets, rows, cols, k);
            lemma_no_fault_at(bands, flipped, cols, rows, k);
            assert(flipped[k] == -offsets[k]);
            assert(one.len() == two.len());
            assert forall|l: int| 0 <= l < one.len() implies one[l] == two[l] by {
                lemma_slice_cells(bands, offsets, flipped, rows, cols, k, l);
                let row = (start_row(offset) + l) as usize;
                let col = (start_col(offset) + l) as usize;
                lemma_entry_at(bands, offsets, rows, cols, k, (row, col));
                assert(transposed(there)[(col, row)] == there[(row, col)]);
            }
            assert(one =~= two);
        }
    }
}

} // verus!
