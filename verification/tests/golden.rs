use sprsdiag::{diags, BandTable, CsrMatrix};

/// The matrix with the same cells, as `sprs` holds it over `f64`.
fn as_float_csr(mat: &CsrMatrix) -> sprs::CsMat<f64> {
    let mut row_inds: Vec<usize> = Vec::new();
    let mut col_inds: Vec<usize> = Vec::new();
    let mut data: Vec<f64> = Vec::new();
    for (row, col, value) in mat.triplets() {
        row_inds.push(row);
        col_inds.push(col);
        data.push(value as f64);
    }
    sprs::TriMat::<f64>::from_triplets(mat.shape(), row_inds, col_inds, data).to_csr()
}

/// Every cell of the matrix, row by row, zero where nothing is stored.
fn dense_rows(mat: &CsrMatrix) -> Vec<Vec<i64>> {
    let (rows, cols) = mat.shape();
    (0..rows)
        .map(|row| (0..cols).map(|col| mat.value_at(row, col)).collect())
        .collect()
}

fn three_bands() -> BandTable {
    BandTable::from_rows(vec![vec![1, 2, 3], vec![4, 5, 6], vec![7, 8, 9]]).unwrap()
}

#[test]
fn test_diags_1() {
    /*
        4     8     0
        1     5     9
        0     2     6
    */

    let diags_table = three_bands();

    let offsets: [isize; 3] = [-1, 0, 1];
    let shape: (usize, usize) = (3, 3);

    let mat = diags(&diags_table, &offsets, shape).unwrap();

    let mat_expected: sprs::CsMat<f64> = sprs::TriMat::<f64>::from_triplets(
        shape,
        vec![0, 1, 0, 1, 2, 1, 2],
        vec![0, 0, 1, 1, 1, 2, 2],
        vec![4., 1., 8., 5., 2., 9., 6.],
    )
    .to_csr();

    assert_eq!(as_float_csr(&mat), mat_expected);
    assert_eq!(
        dense_rows(&mat),
        vec![vec![4, 8, 0], vec![1, 5, 9], vec![0, 2, 6]]
    );
}

#[test]
fn test_diags_2() {
    /*
        4     7     0     0     0
        2     5     8     0     0
        0     3     6     9     0
    */

    let diags_table = three_bands();

    let offsets: [isize; 3] = [-1, 0, 1];
    let shape: (usize, usize) = (3, 5);

    let mat = diags(&diags_table, &offsets, shape).unwrap();

    let mat_expected: sprs::CsMat<f64> = sprs::TriMat::<f64>::from_triplets(
        shape,
        vec![0, 1, 0, 1, 2, 1, 2, 2],
        vec![0, 0, 1, 1, 1, 2, 2, 3],
        vec![4., 2., 7., 5., 3., 8., 6., 9.],
    )
    .to_csr();

    assert_eq!(as_float_csr(&mat), mat_expected);
    assert_eq!(
        dense_rows(&mat),
        vec![
            vec![4, 7, 0, 0, 0],
            vec![2, 5, 8, 0, 0],
            vec![0, 3, 6, 9, 0]
        ]
    );
}

#[test]
fn test_diags_3() {
    /*
        4     8     0
        1     5     9
        0     2     6
        0     0     3
        0     0     0
    */

    let diags_table = three_bands();

    let offsets: [isize; 3] = [-1, 0, 1];
    let shape: (usize, usize) = (5, 3);

    let mat = diags(&diags_table, &offsets, shape).unwrap();

    let mat_expected: sprs::CsMat<f64> = sprs::TriMat::<f64>::from_triplets(
        shape,
        vec![0, 1, 0, 1, 2, 1, 2, 3],
        vec![0, 0, 1, 1, 1, 2, 2, 2],
        vec![4., 1., 8., 5., 2., 9., 6., 3.],
    )
    .to_csr();

    assert_eq!(as_float_csr(&mat), mat_expected);
    assert_eq!(
        dense_rows(&mat),
        vec![
            vec![4, 8, 0],
            vec![1, 5, 9],
            vec![0, 2, 6],
            vec![0, 0, 3],
            vec![0, 0, 0]
        ]
    );
}

#[test]
fn test_diags_4() {
    /*
        7     0     0
        4     8     0
        1     5     9
        0     2     6
        0     0     3
    */

    let diags_table = three_bands();

    let offsets: [isize; 3] = [-2, -1, 0];
    let shape: (usize, usize) = (5, 3);

    let mat = diags(&diags_table, &offsets, shape).unwrap();

    let mat_expected: sprs::CsMat<f64> = sprs::TriMat::<f64>::from_triplets(
        shape,
        vec![0, 1, 2, 1, 2, 3, 2, 3, 4],
        vec![0, 0, 0, 1, 1, 1, 2, 2, 2],
        vec![7., 4., 1., 8., 5., 2., 9., 6., 3.],
    )
    .to_csr();

    assert_eq!(as_float_csr(&mat), mat_expected);
    assert_eq!(
        dense_rows(&mat),
        vec![
            vec![7, 0, 0],
            vec![4, 8, 0],
            vec![1, 5, 9],
            vec![0, 2, 6],
            vec![0, 0, 3]
        ]
    );
}

#[test]
fn test_diags_5() {
    /*
         1     0     0
         0     2     0
         0     0     3
    */

    let diags_table = BandTable::from_rows(vec![vec![1, 2, 3]]).unwrap();

    let offsets: [isize; 1] = [0];
    let shape: (usize, usize) = (3, 3);

    let mat = diags(&diags_table, &offsets, shape).unwrap();

    let mat_expected: sprs::CsMat<f64> = sprs::TriMat::<f64>::from_triplets(
        shape,
        vec![0, 1, 2],
        vec![0, 1, 2],
        vec![1., 2., 3.],
    )
    .to_csr();

    assert_eq!(as_float_csr(&mat), mat_expected);
    assert_eq!(
        dense_rows(&mat),
        vec![vec![1, 0, 0], vec![0, 2, 0], vec![0, 0, 3]]
    );
}
