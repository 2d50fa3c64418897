//! The sparse-matrix containers of `sprs`, as far as the builder uses them.
//!
//! The contracts of the functions marked `external_body` are taken on trust
//! from the source of `sprs`. They state what the builder relies on: a
//! triplet matrix keeps the triplets it was given, in the order it was given
//! them, and its compressed-row form stores exactly one entry per triplet
//! when no two triplets share a coordinate.

use vstd::prelude::*;

verus! {

/// One stored entry: row, column, value.
pub type Triplet = (usize, usize, i64);

/// No two triplets of `s` lie on the same `(row, column)`.
pub open spec fn coords_distinct(s: Seq<Triplet>) -> bool {
    forall|a: int, b: int|
        #![trigger s[a], s[b]]
        0 <= a < b < s.len() ==> !(s[a].0 == s[b].0 && s[a].1 == s[b].1)
}

/// Triplet `k` of `s` lies on `(row, col)`.
pub open spec fn lies_on(s: Seq<Triplet>, k: int, row: usize, col: usize) -> bool {
    0 <= k < s.len() && s[k].0 == row && s[k].1 == col
}

/// The cells that `s` fills, each with the value of a triplet lying on it.
/// Where `coords_distinct(s)` holds there is exactly one such triplet.
pub open spec fn entry_map(s: Seq<Triplet>) -> Map<(usize, usize), i64> {
    Map::new(
        |rc: (usize, usize)| exists|k: int| lies_on(s, k, rc.0, rc.1),
        |rc: (usize, usize)| s[choose|k: int| lies_on(s, k, rc.0, rc.1)].2,
    )
}

/// Rows ascend along `s`, and columns ascend within a row.
pub open spec fn row_major_sorted(s: Seq<Triplet>) -> bool {
    forall|a: int, b: int|
        #![trigger s[a], s[b]]
        0 <= a < b < s.len() ==> s[a].0 < s[b].0 || (s[a].0 == s[b].0 && s[a].1 < s[b].1)
}

/// What a cell of a sparse matrix reads as: the stored value, or zero.
pub open spec fn dense_value(entries: Map<(usize, usize), i64>, row: usize, col: usize) -> i64 {
    if entries.dom().contains((row, col)) {
        entries[(row, col)]
    } else {
        0
    }
}

/// `sprs::TriMatBase`, the triplet-format matrix. Verus sees none of its
/// fields.
#[verifier::external_type_specification]
#[verifier::external_body]
#[verifier::reject_recursive_types(IStorage)]
#[verifier::reject_recursive_types(DStorage)]
pub struct ExTriMatBase<IStorage, DStorage>(sprs::TriMatBase<IStorage, DStorage>);

/// The triplets that a `sprs::TriMat` holds, in the order of its three
/// parallel arrays.
pub uninterp spec fn triplets_of(t: sprs::TriMat<i64>) -> Seq<Triplet>;

/// The `(rows, cols)` that a `sprs::TriMat` was made with.
pub uninterp spec fn triplet_shape(t: sprs::TriMat<i64>) -> (usize, usize);

/// `sprs::TriMatI::new`: an empty triplet matrix of the given shape.
#[verifier::external_body]
pub(crate) fn triplets_new(shape: (usize, usize)) -> (t: sprs::TriMat<i64>)
    ensures
        triplets_of(t) == Seq::<Triplet>::empty(),
        triplet_shape(t) == shape,
{
    sprs::TriMat::new(shape)
}

/// `sprs::TriMatI::add_triplet`: appends one triplet and leaves the others
/// and the shape alone. The call asserts that the coordinate lies inside the
/// shape, so the contract asks for that.
#[verifier::external_body]
pub(crate) fn triplets_add(t: &mut sprs::TriMat<i64>, row: usize, col: usize, val: i64)
    requires
        row < triplet_shape(*old(t)).0,
        col < triplet_shape(*old(t)).1,
    ensures
        triplets_of(*final(t)) == triplets_of(*old(t)).push((row, col, val)),
        triplet_shape(*final(t)) == triplet_shape(*old(t)),
{
    t.add_triplet(row, col, val)
}

/// A sparse matrix in compressed-row storage: a `sprs::CsMat` with `usize`
/// indices. Its view is the map from each stored cell to its value.
#[verifier::external_body]
#[derive(Debug)]
pub struct CsrMatrix {
    inner: sprs::CsMat<i64>,
}

/// The entries that a compressed-row matrix stores, by `(row, column)`.
pub uninterp spec fn csr_entries(m: CsrMatrix) -> Map<(usize, usize), i64>;

/// The `(rows, cols)` of a compressed-row matrix.
pub uninterp spec fn csr_shape(m: CsrMatrix) -> (usize, usize);

/// `sprs::TriMatBase::to_csr`: the compressed-row matrix of the same shape.
/// The conversion sorts the triplets by `(row, column)` and adds up those
/// that share a coordinate. The contract leaves shared coordinates out, so
/// nothing is added and each triplet becomes one stored entry.
#[verifier::external_body]
pub(crate) fn triplets_to_csr(t: &sprs::TriMat<i64>) -> (m: CsrMatrix)
    requires
        coords_distinct(triplets_of(*t)),
    ensures
        csr_shape(m) == triplet_shape(*t),
        csr_entries(m) == entry_map(triplets_of(*t)),
{
    CsrMatrix { inner: t.to_csr() }
}

/// `sprs::CsMatBase::shape`.
#[verifier::external_body]
fn csr_shape_of(m: &CsrMatrix) -> (s: (usize, usize))
    ensures
        s == csr_shape(*m),
{
    m.inner.shape()
}

/// `sprs::CsMatBase::get`: the value stored at `(row, col)`, if one is. A
/// coordinate outside the shape has nothing stored.
#[verifier::external_body]
fn csr_get(m: &CsrMatrix, row: usize, col: usize) -> (v: Option<i64>)
    ensures
        v == (if csr_entries(*m).dom().contains((row, col)) {
            Some(csr_entries(*m)[(row, col)])
        } else {
            None
        }),
{
    m.inner.get(row, col).copied()
}

/// `sprs::CsMatBase::iter`: every stored entry once, in storage order, which
/// for compressed rows is row by row with ascending columns.
#[verifier::external_body]
fn csr_iter(m: &CsrMatrix) -> (t: Vec<Triplet>)
    ensures
        row_major_sorted(t@),
        entry_map(t@) == csr_entries(*m),
{
    m.inner.iter().map(|(v, (row, col))| (row, col, *v)).collect()
}

impl View for CsrMatrix {
    type V = Map<(usize, usize), i64>;

    open spec fn view(&self) -> Map<(usize, usize), i64> {
        csr_entries(*self)
    }
}

impl CsrMatrix {
    /// The `(rows, cols)` of the matrix, in specifications.
    pub open spec fn spec_shape(&self) -> (usize, usize) {
        csr_shape(*self)
    }

    /// The `(rows, cols)` of the matrix.
    pub fn shape(&self) -> (s: (usize, usize))
        ensures
            s == self.spec_shape(),
    {
        csr_shape_of(self)
    }

    /// The value stored at `(row, col)`, or `None` where nothing is stored.
    pub fn get(&self, row: usize, col: usize) -> (v: Option<i64>)
        ensures
            v is Some <==> self@.dom().contains((row, col)),
            v is Some ==> v->0 == self@[(row, col)],
    {
        csr_get(self, row, col)
    }

    /// What the cell `(row, col)` reads as: the stored value, or zero.
    pub fn value_at(&self, row: usize, col: usize) -> (v: i64)
        ensures
            v == dense_value(self@, row, col),
    {
        match csr_get(self, row, col) {
            Some(v) => v,
            None => 0,
        }
    }

    /// The stored entries, row by row and with ascending columns in a row.
    pub fn triplets(&self) -> (t: Vec<Triplet>)
        ensures
            row_major_sorted(t@),
            entry_map(t@) == self@,
    {
        csr_iter(self)
    }
}

} // verus!
