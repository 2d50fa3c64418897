use sprsdiag::validate::{check_offsets, distinct_offsets};
use sprsdiag::{diags, BandTable, DiagError};

fn three_bands() -> BandTable {
    BandTable::from_rows(vec![vec![1, 2, 3], vec![4, 5, 6], vec![7, 8, 9]]).unwrap()
}

#[test]
fn band_table_of_equal_rows() {
    let table = three_bands();
    assert_eq!(table.count(), 3);
    assert_eq!(table.width(), 3);
    assert_eq!(table.get(0, 0), 1);
    assert_eq!(table.get(1, 2), 6);
    assert_eq!(table.get(2, 1), 8);
}

#[test]
fn band_table_refuses_ragged_rows() {
    assert!(BandTable::from_rows(vec![vec![1, 2, 3], vec![4, 5]]).is_none());
    assert!(BandTable::from_rows(vec![vec![], vec![4]]).is_none());
    assert!(BandTable::from_rows(vec![vec![1], vec![2], vec![3, 4]]).is_none());
}

#[test]
fn band_table_without_rows() {
    let table = BandTable::from_rows(Vec::new()).unwrap();
    assert_eq!(table.count(), 0);
    assert_eq!(table.width(), 0);
}

#[test]
fn band_table_of_empty_rows() {
    let table = BandTable::from_rows(vec![Vec::new(), Vec::new()]).unwrap();
    assert_eq!(table.count(), 2);
    assert_eq!(table.width(), 0);
}

#[test]
fn main_diagonal_of_a_square_matrix() {
    let band: Vec<i64> = vec![5, -7, 0, 11];
    let table = BandTable::from_rows(vec![band.clone()]).unwrap();
    let mat = diags(&table, &[0], (4, 4)).unwrap();
    assert_eq!(mat.shape(), (4, 4));
    for row in 0..4 {
        for col in 0..4 {
            if row == col {
                assert_eq!(mat.get(row, col), Some(band[row]));
                assert_eq!(mat.value_at(row, col), band[row]);
            } else {
                assert_eq!(mat.get(row, col), None);
                assert_eq!(mat.value_at(row, col), 0);
            }
        }
    }
}

#[test]
fn a_stored_zero_is_an_entry() {
    let table = BandTable::from_rows(vec![vec![0, 0]]).unwrap();
    let mat = diags(&table, &[0], (2, 2)).unwrap();
    assert_eq!(mat.get(0, 0), Some(0));
    assert_eq!(mat.get(1, 1), Some(0));
    assert_eq!(mat.get(0, 1), None);
    assert_eq!(mat.triplets().len(), 2);
}

#[test]
fn entry_count_is_the_sum_over_the_diagonals() {
    let table = three_bands();
    // 2 + 3 + 2 cells
    let square = diags(&table, &[-1, 0, 1], (3, 3)).unwrap();
    assert_eq!(square.triplets().len(), 7);
    // 2 + 3 + 3 cells
    let wide = diags(&table, &[-1, 0, 1], (3, 5)).unwrap();
    assert_eq!(wide.triplets().len(), 8);
    // 3 + 3 + 3 cells
    let tall = diags(&table, &[-2, -1, 0], (5, 3)).unwrap();
    assert_eq!(tall.triplets().len(), 9);
}

#[test]
fn no_two_entries_share_a_cell() {
    let table = three_bands();
    let mat = diags(&table, &[1, -1, 0], (3, 5)).unwrap();
    let listed = mat.triplets();
    for a in 0..listed.len() {
        for b in (a + 1)..listed.len() {
            assert!((listed[a].0, listed[a].1) != (listed[b].0, listed[b].1));
        }
    }
}

#[test]
fn entries_come_out_row_by_row() {
    let table = three_bands();
    // placed diagonal by diagonal, handed out in storage order
    let mat = diags(&table, &[-1, 0, 1], (3, 3)).unwrap();
    assert_eq!(
        mat.triplets(),
        vec![
            (0, 0, 4),
            (0, 1, 8),
            (1, 0, 1),
            (1, 1, 5),
            (1, 2, 9),
            (2, 1, 2),
            (2, 2, 6)
        ]
    );
}

#[test]
fn order_of_offsets_does_not_matter() {
    let forward = BandTable::from_rows(vec![vec![1, 2, 3], vec![4, 5, 6], vec![7, 8, 9]]).unwrap();
    let backward = BandTable::from_rows(vec![vec![7, 8, 9], vec![4, 5, 6], vec![1, 2, 3]]).unwrap();
    let a = diags(&forward, &[-1, 0, 1], (5, 3)).unwrap();
    let b = diags(&backward, &[1, 0, -1], (5, 3)).unwrap();
    assert_eq!(a.shape(), b.shape());
    assert_eq!(a.triplets(), b.triplets());
}

#[test]
fn shape_is_kept() {
    let table = three_bands();
    assert_eq!(diags(&table, &[-1, 0, 1], (3, 5)).unwrap().shape(), (3, 5));
    assert_eq!(diags(&table, &[-1, 0, 1], (5, 3)).unwrap().shape(), (5, 3));
}

#[test]
fn no_diagonals_give_an_empty_matrix() {
    let table = BandTable::from_rows(Vec::new()).unwrap();
    let mat = diags(&table, &[], (4, 6)).unwrap();
    assert_eq!(mat.shape(), (4, 6));
    assert!(mat.triplets().is_empty());
    assert_eq!(mat.get(0, 0), None);
    assert_eq!(mat.value_at(3, 5), 0);
}

#[test]
fn get_outside_the_shape_finds_nothing() {
    let table = three_bands();
    let mat = diags(&table, &[-1, 0, 1], (3, 3)).unwrap();
    assert_eq!(mat.get(3, 0), None);
    assert_eq!(mat.get(0, 3), None);
    assert_eq!(mat.value_at(7, 7), 0);
}

#[test]
fn transpose_of_a_wide_matrix() {
    let table = three_bands();
    let wide = diags(&table, &[-1, 0, 1], (3, 5)).unwrap();
    let tall = diags(&table, &[1, 0, -1], (5, 3)).unwrap();
    assert_eq!(tall.shape(), (5, 3));
    assert_eq!(wide.triplets().len(), tall.triplets().len());
    for row in 0..3 {
        for col in 0..5 {
            assert_eq!(wide.get(row, col), tall.get(col, row));
        }
    }
}

#[test]
fn transpose_of_a_square_matrix_with_full_bands() {
    // the main diagonal takes its whole band, so either end gives the same
    let table = BandTable::from_rows(vec![vec![3, 1, 4, 1]]).unwrap();
    let there = diags(&table, &[0], (4, 4)).unwrap();
    let back = diags(&table, &[0], (4, 4)).unwrap();
    for row in 0..4 {
        for col in 0..4 {
            assert_eq!(there.get(row, col), back.get(col, row));
        }
    }
}

#[test]
fn square_matrix_exchanges_band_ends_off_the_main_diagonal() {
    // below the main diagonal of a square matrix the band is read from its
    // front, above it from its back
    let table = BandTable::from_rows(vec![vec![1, 2, 3]]).unwrap();
    let below = diags(&table, &[-1], (3, 3)).unwrap();
    assert_eq!(below.triplets(), vec![(1, 0, 1), (2, 1, 2)]);
    let above = diags(&table, &[1], (3, 3)).unwrap();
    assert_eq!(above.triplets(), vec![(0, 1, 2), (1, 2, 3)]);
}

#[test]
fn offset_equal_to_cols_is_invalid() {
    let table = BandTable::from_rows(vec![vec![1, 2, 3]]).unwrap();
    assert_eq!(
        diags(&table, &[5], (3, 5)).unwrap_err(),
        DiagError::InvalidOffset { index: 0, offset: 5 }
    );
    assert_eq!(
        diags(&table, &[3], (3, 3)).unwrap_err(),
        DiagError::InvalidOffset { index: 0, offset: 3 }
    );
}

#[test]
fn offset_equal_to_minus_rows_is_invalid() {
    let table = BandTable::from_rows(vec![vec![1, 2, 3]]).unwrap();
    assert_eq!(
        diags(&table, &[-3], (3, 5)).unwrap_err(),
        DiagError::InvalidOffset { index: 0, offset: -3 }
    );
    assert_eq!(
        diags(&table, &[isize::MIN], (3, 5)).unwrap_err(),
        DiagError::InvalidOffset { index: 0, offset: isize::MIN }
    );
}

#[test]
fn last_offsets_inside_the_matrix_are_valid() {
    let table = BandTable::from_rows(vec![vec![1, 2, 3], vec![4, 5, 6]]).unwrap();
    let mat = diags(&table, &[4, -2], (3, 5)).unwrap();
    // wide: above the main diagonal from the front, below from the back
    assert_eq!(mat.triplets(), vec![(0, 4, 1), (2, 0, 6)]);
}

#[test]
fn matrix_without_cells_has_no_valid_offset() {
    let table = BandTable::from_rows(vec![vec![1, 2, 3]]).unwrap();
    assert_eq!(
        diags(&table, &[0], (0, 0)).unwrap_err(),
        DiagError::InvalidOffset { index: 0, offset: 0 }
    );
    assert_eq!(
        diags(&table, &[0], (0, 3)).unwrap_err(),
        DiagError::InvalidOffset { index: 0, offset: 0 }
    );
}

#[test]
fn band_shorter_than_its_diagonal() {
    let table = BandTable::from_rows(vec![vec![1, 2]]).unwrap();
    assert_eq!(
        diags(&table, &[0], (3, 3)).unwrap_err(),
        DiagError::BandTooShort { index: 0, offset: 0, required: 3, available: 2 }
    );
    // the diagonal next to it crosses two cells, which the band can fill
    let mat = diags(&table, &[1], (3, 3)).unwrap();
    assert_eq!(mat.triplets(), vec![(0, 1, 1), (1, 2, 2)]);
}

#[test]
fn first_fault_is_reported() {
    let table = BandTable::from_rows(vec![vec![1, 2], vec![3, 4], vec![5, 6]]).unwrap();
    assert_eq!(
        diags(&table, &[1, 0, 7], (3, 3)).unwrap_err(),
        DiagError::BandTooShort { index: 1, offset: 0, required: 3, available: 2 }
    );
    assert_eq!(
        diags(&table, &[1, 7, 0], (3, 3)).unwrap_err(),
        DiagError::InvalidOffset { index: 1, offset: 7 }
    );
}

#[test]
fn check_offsets_agrees_with_diags() {
    let table = three_bands();
    assert_eq!(check_offsets(&table, &[-1, 0, 1], (3, 3)), Ok(()));
    assert_eq!(
        check_offsets(&table, &[-1, 0, 3], (3, 3)),
        Err(DiagError::InvalidOffset { index: 2, offset: 3 })
    );
    assert_eq!(
        check_offsets(&table, &[-1, 0, 1], (4, 4)),
        Err(DiagError::BandTooShort { index: 1, offset: 0, required: 4, available: 3 })
    );
}

#[test]
fn distinct_offsets_finds_a_repeat() {
    assert!(distinct_offsets(&[]));
    assert!(distinct_offsets(&[0]));
    assert!(distinct_offsets(&[-1, 0, 1]));
    assert!(!distinct_offsets(&[0, 0]));
    assert!(!distinct_offsets(&[-1, 0, 1, -1]));
    assert!(!distinct_offsets(&[2, 1, 1]));
}
