//! What the matrix of a set of diagonals is.
//!
//! Two descriptions are given and proved to agree. `diag_entries` says cell
//! by cell what the matrix stores. `all_triplets` is the list of triplets in
//! the order in which the builder emits them.

use crate::placement::{on_diagonal, placed_count, source_start, start_col, start_row};
use crate::sparse::{coords_distinct, entry_map, lies_on, Triplet};
use crate::validate::{fault_at, no_fault, offsets_distinct};
use vstd::prelude::*;

verus! {

/// The number of cells that the diagonal at `offset` crosses, zero where it
/// lies outside the matrix.
pub open spec fn placed_len(offset: int, rows: int, cols: int) -> nat {
    let n = placed_count(offset, rows, cols);
    if n > 0 {
        n as nat
    } else {
        0
    }
}

/// The cells crossed by the first `k` diagonals, counted per diagonal.
pub open spec fn placed_upto(offsets: Seq<isize>, rows: int, cols: int, k: nat) -> nat
    decreases k,
{
    if k == 0 {
        0
    } else {
        placed_upto(offsets, rows, cols, (k - 1) as nat) + placed_len(
            offsets[k - 1] as int,
            rows,
            cols,
        )
    }
}

/// The sum over all offsets of the number of cells each diagonal crosses.
pub open spec fn total_placed(offsets: Seq<isize>, rows: int, cols: int) -> nat {
    placed_upto(offsets, rows, cols, offsets.len())
}

/// The cell `(row, col)` lies on diagonal `k`.
pub open spec fn covers(offsets: Seq<isize>, rows: int, cols: int, k: int, row: int, col: int) -> bool {
    0 <= k < offsets.len() && on_diagonal(offsets[k] as int, rows, cols, row, col)
}

/// The value that `band` puts in row `row` of the diagonal at `offset`.
pub open spec fn band_value(band: Seq<i64>, offset: int, rows: int, cols: int, row: int) -> i64 {
    band[source_start(offset, rows, cols, band.len() as int) + row - start_row(offset)]
}

/// The matrix of the diagonals, as a map from each stored cell to its value:
/// a cell is stored where it lies on one of the diagonals, and holds the
/// value that the band of that diagonal has for its row.
pub open spec fn diag_entries(bands: Seq<Seq<i64>>, offsets: Seq<isize>, rows: int, cols: int) -> Map<
    (usize, usize),
    i64,
> {
    Map::new(
        |rc: (usize, usize)| exists|k: int| covers(offsets, rows, cols, k, rc.0 as int, rc.1 as int),
        |rc: (usize, usize)|
            {
                let k = choose|k: int| covers(offsets, rows, cols, k, rc.0 as int, rc.1 as int);
                band_value(bands[k], offsets[k] as int, rows, cols, rc.0 as int)
            },
    )
}

/// The triplets of one diagonal, from its first cell down.
pub open spec fn band_triplets(band: Seq<i64>, offset: int, rows: int, cols: int) -> Seq<Triplet> {
    Seq::new(
        placed_len(offset, rows, cols),
        |l: int|
            (
                (start_row(offset) + l) as usize,
                (start_col(offset) + l) as usize,
                band[source_start(offset, rows, cols, band.len() as int) + l],
            ),
    )
}

/// The triplets of the first `k` diagonals, diagonal after diagonal.
pub open spec fn triplets_upto(
    bands: Seq<Seq<i64>>,
    offsets: Seq<isize>,
    rows: int,
    cols: int,
    k: nat,
) -> Seq<Triplet>
    decreases k,
{
    if k == 0 {
        Seq::empty()
    } else {
        triplets_upto(bands, offsets, rows, cols, (k - 1) as nat) + band_triplets(
            bands[k - 1],
            offsets[k - 1] as int,
            rows,
            cols,
        )
    }
}

/// The triplets of all diagonals, in the order of the offsets.
pub open spec fn all_triplets(bands: Seq<Seq<i64>>, offsets: Seq<isize>, rows: int, cols: int) -> Seq<
    Triplet,
> {
    triplets_upto(bands, offsets, rows, cols, offsets.len())
}

/// The first `k` diagonals give as many triplets as they cross cells.
pub proof fn lemma_upto_len(bands: Seq<Seq<i64>>, offsets: Seq<isize>, rows: int, cols: int, k: nat)
    ensures
        triplets_upto(bands, offsets, rows, cols, k).len() == placed_upto(offsets, rows, cols, k),
    decreases k,
{
    if k > 0 {
        lemma_upto_len(bands, offsets, rows, cols, (k - 1) as nat);
    }
}

/// Triplet `l` of diagonal `j` stands at position `placed_upto(j) + l` of
/// the triplets of the first `k` diagonals, for every `k` beyond `j`.
pub proof fn lemma_upto_index(
    bands: Seq<Seq<i64>>,
    offsets: Seq<isize>,
    rows: int,
    cols: int,
    k: nat,
    j: int,
    l: int,
)
    requires
        0 <= j < k,
        0 <= l < placed_len(offsets[j] as int, rows, cols),
    ensures
        placed_upto(offsets, rows, cols, j as nat) + l < placed_upto(offsets, rows, cols, k),
        triplets_upto(bands, offsets, rows, cols, k)[placed_upto(offsets, rows, cols, j as nat) + l]
            == band_triplets(bands[j], offsets[j] as int, rows, cols)[l],
    decreases k,
{
    lemma_upto_len(bands, offsets, rows, cols, (k - 1) as nat);
    if j < k - 1 {
        lemma_upto_index(bands, offsets, rows, cols, (k - 1) as nat, j, l);
    }
}

/// Every triplet of the first `k` diagonals is triplet `l` of some diagonal
/// `j` among them. Returns `(j, l)`.
pub proof fn lemma_upto_locate(
    bands: Seq<Seq<i64>>,
    offsets: Seq<isize>,
    rows: int,
    cols: int,
    k: nat,
    p: int,
) -> (at: (int, int))
    requires
        0 <= p < triplets_upto(bands, offsets, rows, cols, k).len(),
    ensures
        0 <= at.0 < k,
        0 <= at.1 < placed_len(offsets[at.0] as int, rows, cols),
        p == placed_upto(offsets, rows, cols, at.0 as nat) + at.1,
        triplets_upto(bands, offsets, rows, cols, k)[p] == band_triplets(
            bands[at.0],
            offsets[at.0] as int,
            rows,
            cols,
        )[at.1],
    decreases k,
{
    lemma_upto_len(bands, offsets, rows, cols, (k - 1) as nat);
    let before = triplets_upto(bands, offsets, rows, cols, (k - 1) as nat);
    if p < before.len() {
        lemma_upto_locate(bands, offsets, rows, cols, (k - 1) as nat, p)
    } else {
        (k - 1, p - before.len())
    }
}

/// Triplet `l` of a diagonal that fits lies on that diagonal, `l` cells
/// from its first cell, and holds the band's value for its row.
pub proof fn lemma_band_triplet(band: Seq<i64>, offset: int, rows: int, cols: int, l: int)
    requires
        0 <= l < placed_len(offset, rows, cols),
        rows <= usize::MAX,
        cols <= usize::MAX,
    ensures
        band_triplets(band, offset, rows, cols)[l].0 == start_row(offset) + l,
        band_triplets(band, offset, rows, cols)[l].1 == start_col(offset) + l,
        band_triplets(band, offset, rows, cols)[l].2 == band_value(
            band,
            offset,
            rows,
            cols,
            start_row(offset) + l,
        ),
        on_diagonal(offset, rows, cols, start_row(offset) + l, start_col(offset) + l),
{
}

/// A cell on a diagonal is the cell of one of its triplets: the one as far
/// down the diagonal as the cell's row is from the diagonal's first row.
pub proof fn lemma_cell_on_diagonal(offset: int, rows: int, cols: int, row: int, col: int)
    requires
        on_diagonal(offset, rows, cols, row, col),
    ensures
        0 <= row - start_row(offset) < placed_len(offset, rows, cols),
        col == start_col(offset) + (row - start_row(offset)),
{
}

/// With distinct offsets, at most one diagonal crosses a cell.
pub proof fn lemma_covers_unique(
    offsets: Seq<isize>,
    rows: int,
    cols: int,
    j: int,
    k: int,
    row: int,
    col: int,
)
    requires
        offsets_distinct(offsets),
        covers(offsets, rows, cols, j, row, col),
        covers(offsets, rows, cols, k, row, col),
    ensures
        j == k,
{
    if j < k {
        assert(offsets[j] != offsets[k]);
    } else if k < j {
        assert(offsets[k] != offsets[j]);
    }
}

/// With distinct offsets, a cell on diagonal `k` is stored, and holds the
/// value that band `k` has for its row.
pub proof fn lemma_entry_at(
    bands: Seq<Seq<i64>>,
    offsets: Seq<isize>,
    rows: int,
    cols: int,
    k: int,
    cell: (usize, usize),
)
    requires
        offsets_distinct(offsets),
        covers(offsets, rows, cols, k, cell.0 as int, cell.1 as int),
    ensures
        diag_entries(bands, offsets, rows, cols).dom().contains(cell),
        diag_entries(bands, offsets, rows, cols)[cell] == band_value(
            bands[k],
            offsets[k] as int,
            rows,
            cols,
            cell.0 as int,
        ),
{
    let j = choose|j: int| covers(offsets, rows, cols, j, cell.0 as int, cell.1 as int);
    lemma_covers_unique(offsets, rows, cols, j, k, cell.0 as int, cell.1 as int);
}

/// With distinct offsets, no two triplets share a cell.
pub proof fn lemma_triplets_distinct(bands: Seq<Seq<i64>>, offsets: Seq<isize>, rows: int, cols: int)
    requires
        offsets_distinct(offsets),
        0 <= rows <= usize::MAX,
        0 <= cols <= usize::MAX,
    ensures
        coords_distinct(all_triplets(bands, offsets, rows, cols)),
{
    let s = all_triplets(bands, offsets, rows, cols);
    assert forall|a: int, b: int| 0 <= a < b < s.len() implies !(s[a].0 == s[b].0 && s[a].1
        == s[b].1) by {
        let (ja, la) = lemma_upto_locate(bands, offsets, rows, cols, offsets.len(), a);
        let (jb, lb) = lemma_upto_locate(bands, offsets, rows, cols, offsets.len(), b);
        lemma_band_triplet(bands[ja], offsets[ja] as int, rows, cols, la);
        lemma_band_triplet(bands[jb], offsets[jb] as int, rows, cols, lb);
        if ja == jb {
            assert(la != lb);
        } else {
            assert(offsets[ja] != offsets[jb]);
        }
    }
}

/// With distinct offsets, the triplets fill exactly the cells of
/// `diag_entries`, each with its value.
pub proof fn lemma_triplets_entries(bands: Seq<Seq<i64>>, offsets: Seq<isize>, rows: int, cols: int)
    requires
        bands.len() == offsets.len(),
        offsets_distinct(offsets),
        0 <= rows <= usize::MAX,
        0 <= cols <= usize::MAX,
    ensures
        entry_map(all_triplets(bands, offsets, rows, cols)) == diag_entries(
            bands,
            offsets,
            rows,
            cols,
        ),
{
    let s = all_triplets(bands, offsets, rows, cols);
    let left = entry_map(s);
    let right = diag_entries(bands, offsets, rows, cols);
    lemma_upto_len(bands, offsets, rows, cols, offsets.len());
    assert forall|rc: (usize, usize)| #[trigger]
        left.dom().contains(rc) implies right.dom().contains(rc) by {
        let p = choose|p: int| lies_on(s, p, rc.0, rc.1);
        let (j, l) = lemma_upto_locate(bands, offsets, rows, cols, offsets.len(), p);
        lemma_band_triplet(bands[j], offsets[j] as int, rows, cols, l);
        assert(covers(offsets, rows, cols, j, rc.0 as int, rc.1 as int));
    }
    assert forall|rc: (usize, usize)| #[trigger]
        right.dom().contains(rc) implies left.dom().contains(rc) && left[rc] == right[rc] by {
        let k = choose|k: int| covers(offsets, rows, cols, k, rc.0 as int, rc.1 as int);
        let l = rc.0 - start_row(offsets[k] as int);
        lemma_cell_on_diagonal(offsets[k] as int, rows, cols, rc.0 as int, rc.1 as int);
        lemma_upto_index(bands, offsets, rows, cols, offsets.len(), k, l);
        lemma_band_triplet(bands[k], offsets[k] as int, rows, cols, l);
        let q = placed_upto(offsets, rows, cols, k as nat) + l;
        assert(lies_on(s, q, rc.0, rc.1));
        let p = choose|p: int| lies_on(s, p, rc.0, rc.1);
        let (j, m) = lemma_upto_locate(bands, offsets, rows, cols, offsets.len(), p);
        lemma_band_triplet(bands[j], offsets[j] as int, rows, cols, m);
        lemma_covers_unique(offsets, rows, cols, j, k, rc.0 as int, rc.1 as int);
        assert(s[p] == s[q]);
    }
    assert(left.dom() =~= right.dom());
    assert(left =~= right);
}

/// A list of triplets on distinct cells fills as many cells as it has
/// triplets.
pub proof fn lemma_entry_count(s: Seq<Triplet>)
    requires
        coords_distinct(s),
    ensures
        entry_map(s).dom().finite(),
        entry_map(s).dom().len() == s.len(),
    decreases s.len(),
{
    if s.len() == 0 {
        assert(entry_map(s).dom() =~= Set::<(usize, usize)>::empty());
    } else {
        let front = s.drop_last();
        let last = s.last();
        lemma_entry_count(front);
        let cell = (last.0, last.1);
        assert forall|rc: (usize, usize)|
            entry_map(s).dom().contains(rc) <==> entry_map(front).dom().insert(cell).contains(
                rc,
            ) by {
            if entry_map(s).dom().contains(rc) {
                let p = choose|p: int| lies_on(s, p, rc.0, rc.1);
                if p < s.len() - 1 {
                    assert(lies_on(front, p, rc.0, rc.1));
                }
            }
            if entry_map(front).dom().contains(rc) {
                let p = choose|p: int| lies_on(front, p, rc.0, rc.1);
                assert(lies_on(s, p, rc.0, rc.1));
            }
            if rc == cell {
                assert(lies_on(s, s.len() - 1, rc.0, rc.1));
            }
        }
        assert(entry_map(s).dom() =~= entry_map(front).dom().insert(cell));
        assert(!entry_map(front).dom().contains(cell)) by {
            if entry_map(front).dom().contains(cell) {
                let p = choose|p: int| lies_on(front, p, cell.0, cell.1);
                assert(s[p].0 == s[s.len() - 1].0 && s[p].1 == s[s.len() - 1].1);
            }
        }
    }
}

/// Where nothing is at fault, every offset fits and its band reaches.
pub proof fn lemma_no_fault_at(bands: Seq<Seq<i64>>, offsets: Seq<isize>, rows: int, cols: int, k: int)
    requires
        no_fault(bands, offsets, rows, cols),
        0 <= k < offsets.len(),
    ensures
        0 < placed_count(offsets[k] as int, rows, cols) <= bands[k].len(),
        placed_len(offsets[k] as int, rows, cols) == placed_count(offsets[k] as int, rows, cols),
{
    assert(fault_at(bands, offsets, rows, cols, k) is None);
}

} // verus!
