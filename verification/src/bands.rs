//! The dense table of diagonal bands: one row of values per diagonal, every
//! row of the same length.

use vstd::prelude::*;

verus! {

/// A table of bands. Band `k` supplies the values of diagonal `k`.
///
/// The view is the sequence of bands, each the sequence of its values.
#[derive(Debug)]
pub struct BandTable {
    width: usize,
    rows: Vec<Vec<i64>>,
}

/// The rows of a vector of vectors, each as a sequence.
pub open spec fn rows_view(rows: Seq<Vec<i64>>) -> Seq<Seq<i64>> {
    Seq::new(rows.len(), |k: int| rows[k]@)
}

/// Every row of `rows` holds `width` values.
pub open spec fn all_of_width(rows: Seq<Seq<i64>>, width: int) -> bool {
    forall|k: int| 0 <= k < rows.len() ==> (#[trigger] rows[k]).len() == width
}

/// The common row length of a table built from `rows`: that of the first
/// row, or zero for a table without rows.
pub open spec fn width_of(rows: Seq<Seq<i64>>) -> int {
    if rows.len() == 0 {
        0
    } else {
        rows[0].len() as int
    }
}

impl View for BandTable {
    type V = Seq<Seq<i64>>;

    closed spec fn view(&self) -> Seq<Seq<i64>> {
        rows_view(self.rows@)
    }
}

impl BandTable {
    /// The number of values in each band.
    pub closed spec fn spec_width(&self) -> int {
        self.width as int
    }

    /// The table is rectangular: each band holds `spec_width()` values.
    pub open spec fn wf(&self) -> bool {
        all_of_width(self@, self.spec_width())
    }

    /// The table with the given rows, or `None` where they differ in length.
    pub fn from_rows(rows: Vec<Vec<i64>>) -> (table: Option<BandTable>)
        ensures
            table is Some <==> all_of_width(rows_view(rows@), width_of(rows_view(rows@))),
            table is Some ==> table->0.wf(),
            table is Some ==> table->0@ == rows_view(rows@),
            table is Some ==> table->0.spec_width() == width_of(rows_view(rows@)),
    {
        let width: usize = if rows.len() == 0 {
            0
        } else {
            rows[0].len()
        };
        let mut k: usize = 0;
        while k < rows.len()
            invariant
                k <= rows.len(),
                width == width_of(rows_view(rows@)),
                forall|j: int| 0 <= j < k ==> (#[trigger] rows_view(rows@)[j]).len() == width,
            decreases rows.len() - k,
        {
            if rows[k].len() != width {
                assert(rows_view(rows@)[k as int].len() != width);
                return None;
            }
            k = k + 1;
        }
        Some(BandTable { width, rows })
    }

    /// The number of bands.
    pub fn count(&self) -> (n: usize)
        ensures
            n == self@.len(),
    {
        self.rows.len()
    }

    /// The number of values in each band.
    pub fn width(&self) -> (w: usize)
        ensures
            w == self.spec_width(),
    {
        self.width
    }

    /// The value at position `pos` of band `band`.
    pub fn get(&self, band: usize, pos: usize) -> (v: i64)
        requires
            band < self@.len(),
            pos < self@[band as int].len(),
        ensures
            v == self@[band as int][pos as int],
    {
        self.rows[band][pos]
    }
}

} // verus!
