//! Checking offsets and bands against a shape before anything is placed.

use crate::bands::BandTable;
use crate::error::DiagError;
use crate::placement::{diagonal_span, placed_count};
use vstd::prelude::*;

verus! {

/// What is wrong with offset `k` and its band, if anything: the diagonal
/// must cross at least one cell, and the band must hold a value for each
/// cell crossed.
pub open spec fn fault_at(
    bands: Seq<Seq<i64>>,
    offsets: Seq<isize>,
    rows: int,
    cols: int,
    k: int,
) -> Option<DiagError> {
    let offset = offsets[k];
    let n = placed_count(offset as int, rows, cols);
    if n <= 0 {
        Some(DiagError::InvalidOffset { index: k as usize, offset })
    } else if bands[k].len() < n {
        Some(
            DiagError::BandTooShort {
                index: k as usize,
                offset,
                required: n as usize,
                available: bands[k].len() as usize,
            },
        )
    } else {
        None
    }
}

/// Every offset fits the shape and every band is long enough.
pub open spec fn no_fault(bands: Seq<Seq<i64>>, offsets: Seq<isize>, rows: int, cols: int) -> bool {
    forall|k: int|
        0 <= k < offsets.len() ==> (#[trigger] fault_at(bands, offsets, rows, cols, k)) is None
}

/// `e` is the fault of the first offset that has one.
pub open spec fn first_fault(
    bands: Seq<Seq<i64>>,
    offsets: Seq<isize>,
    rows: int,
    cols: int,
    e: DiagError,
) -> bool {
    exists|k: int|
        {
            &&& 0 <= k < offsets.len()
            &&& #[trigger] fault_at(bands, offsets, rows, cols, k) == Some(e)
            &&& forall|j: int|
                0 <= j < k ==> (#[trigger] fault_at(bands, offsets, rows, cols, j)) is None
        }
}

/// No offset occurs twice.
pub open spec fn offsets_distinct(offsets: Seq<isize>) -> bool {
    forall|a: int, b: int|
        #![trigger offsets[a], offsets[b]]
        0 <= a < b < offsets.len() ==> offsets[a] != offsets[b]
}

/// Checks every offset, in order, against the shape and against its band.
/// Fails with the fault of the first offset that has one.
pub fn check_offsets(bands: &BandTable, offsets: &[isize], shape: (usize, usize)) -> (res: Result<
    (),
    DiagError,
>)
    requires
        bands.wf(),
        offsets@.len() == bands@.len(),
    ensures
        res is Ok <==> no_fault(bands@, offsets@, shape.0 as int, shape.1 as int),
        res matches Err(e) ==> first_fault(bands@, offsets@, shape.0 as int, shape.1 as int, e),
{
    let available: usize = bands.width();
    let mut k: usize = 0;
    while k < offsets.len()
        invariant
            k <= offsets@.len(),
            bands.wf(),
            offsets@.len() == bands@.len(),
            available == bands.spec_width(),
            forall|j: int|
                0 <= j < k ==> (#[trigger] fault_at(
                    bands@,
                    offsets@,
                    shape.0 as int,
                    shape.1 as int,
                    j,
                )) is None,
        decreases offsets@.len() - k,
    {
        let offset: isize = offsets[k];
        match diagonal_span(offset, shape.0, shape.1) {
            None => {
                let e = DiagError::InvalidOffset { index: k, offset };
                assert(fault_at(bands@, offsets@, shape.0 as int, shape.1 as int, k as int) == Some(
                    e,
                ));
                return Err(e);
            },
            Some(span) => {
                assert(bands@[k as int].len() == available);
                if available < span.count {
                    let e = DiagError::BandTooShort {
                        index: k,
                        offset,
                        required: span.count,
                        available,
                    };
                    assert(fault_at(bands@, offsets@, shape.0 as int, shape.1 as int, k as int)
                        == Some(e));
                    return Err(e);
                }
            },
        }
        k = k + 1;
    }
    Ok(())
}

/// Whether no offset occurs twice.
pub fn distinct_offsets(offsets: &[isize]) -> (distinct: bool)
    ensures
        distinct == offsets_distinct(offsets@),
{
    let mut b: usize = 0;
    while b < offsets.len()
        invariant
            b <= offsets@.len(),
            forall|i: int, j: int|
                #![trigger offsets@[i], offsets@[j]]
                0 <= i < j < b ==> offsets@[i] != offsets@[j],
        decreases offsets@.len() - b,
    {
        let mut a: usize = 0;
        while a < b
            invariant
                a <= b < offsets@.len(),
                forall|i: int|
                    #![trigger offsets@[i]]
                    0 <= i < a ==> offsets@[i] != offsets@[b as int],
            decreases b - a,
        {
            if offsets[a] == offsets[b] {
                return false;
            }
            a = a + 1;
        }
        b = b + 1;
    }
    true
}

} // verus!
