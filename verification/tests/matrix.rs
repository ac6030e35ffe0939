use snarky_bn382::field::FieldElement;
use snarky_bn382::index_map::index_to_witness_position;
use snarky_bn382::matrix::{rows_to_csmat, try_rows_to_csmat, CompressedRows, MatrixError, Row};
use snarky_bn382::row::{reindex_row, RowFault};
use sprs::{CsMat, CsVecView, CSR};

fn fe(v: u64) -> FieldElement {
    FieldElement { limbs: [v, 0, 0, 0, 0, v] }
}

fn row(indices: &[usize], coefficients: &[u64]) -> Row {
    (indices.to_vec(), coefficients.iter().map(|c| fe(*c)).collect())
}

fn five_rows() -> Vec<Row> {
    vec![
        row(&[0, 2, 1], &[11, 12, 13]),
        row(&[7, 5], &[21, 22]),
        row(&[], &[]),
        row(&[1], &[41]),
        row(&[6, 4, 3, 2], &[51, 52, 53, 54]),
    ]
}

#[test]
fn five_rows_are_padded_to_eight() {
    let m = rows_to_csmat(2, 4, &five_rows());
    assert_eq!(m.rows(), 8);
    assert_eq!(m.cols(), 8);
    let c = m.into_compressed_rows();
    assert_eq!(c.rows, 8);
    assert_eq!(c.columns, 8);
    assert_eq!(c.indptr.len(), 9);
    for r in 5..8 {
        assert_eq!(c.indptr[r + 1] - c.indptr[r], 0);
    }
}

#[test]
fn five_rows_in_compressed_form() {
    let c = rows_to_csmat(2, 4, &five_rows()).into_compressed_rows();
    assert_eq!(
        c,
        CompressedRows {
            rows: 8,
            columns: 8,
            indptr: vec![0, 3, 5, 5, 6, 10, 10, 10, 10],
            indices: vec![0, 1, 4, 5, 7, 4, 1, 2, 3, 6],
            data: vec![
                fe(11),
                fe(12),
                fe(13),
                fe(22),
                fe(21),
                fe(41),
                fe(54),
                fe(53),
                fe(52),
                fe(51)
            ],
        }
    );
}

#[test]
fn checked_and_unchecked_builders_agree() {
    let rows = five_rows();
    let m = rows_to_csmat(2, 4, &rows);
    let checked = try_rows_to_csmat(2, 4, &rows);
    assert_eq!(checked, Ok(m));
}

#[test]
fn columns_of_every_row_increase() {
    let mut rows: Vec<Row> = Vec::new();
    for r in 0usize..13 {
        let mut indices: Vec<usize> = Vec::new();
        let mut coefficients: Vec<u64> = Vec::new();
        // 16 columns, the constant and two public inputs, blocks of 4
        for k in 0usize..15 {
            let i = (7 * k + 3 * r) % 15;
            if (i + r) % 3 != 0 {
                indices.push(i);
                coefficients.push((100 * r + i) as u64);
            }
        }
        rows.push(row(&indices, &coefficients));
    }
    let c = rows_to_csmat(3, 4, &rows).into_compressed_rows();
    assert_eq!(c.rows, 16);
    assert_eq!(c.columns, 16);
    for r in 0..16 {
        let columns = &c.indices[c.indptr[r]..c.indptr[r + 1]];
        for pair in columns.windows(2) {
            assert!(pair[0] < pair[1]);
        }
        for column in columns {
            assert!(*column < 16);
        }
        if r < 13 {
            assert_eq!(columns.len(), rows[r].0.len());
            // each coefficient stays with its variable
            for (i, coefficient) in rows[r].0.iter().zip(rows[r].1.iter()) {
                let w = index_to_witness_position(3, 4, *i);
                let at = columns.iter().position(|column| *column == w).unwrap();
                assert_eq!(c.data[c.indptr[r] + at], *coefficient);
            }
        } else {
            assert_eq!(columns.len(), 0);
        }
    }
}

#[test]
fn rebuilding_gives_the_same_matrix() {
    let rows = five_rows();
    let first = rows_to_csmat(2, 4, &rows);
    let second = rows_to_csmat(2, 4, &rows);
    assert_eq!(first, second);
    assert_eq!(first.into_compressed_rows(), second.into_compressed_rows());
}

#[test]
fn no_rows_give_one_empty_row() {
    let none: Vec<Row> = Vec::new();
    let m = rows_to_csmat(1, 1, &none);
    assert_eq!(m.rows(), 1);
    assert_eq!(m.cols(), 1);
    let c = m.into_compressed_rows();
    assert_eq!(c.indptr, vec![0, 0]);
    assert!(c.indices.is_empty());
    assert!(c.data.is_empty());
}

#[test]
fn a_power_of_two_of_rows_gets_no_padding() {
    let rows = vec![row(&[0], &[1]), row(&[1], &[2]), row(&[2], &[3]), row(&[3], &[4])];
    // one public slot in a domain of 1, so blocks of 4: 0 -> 0, 1 -> 1, 2 -> 2, 3 -> 3
    let c = rows_to_csmat(1, 4, &rows).into_compressed_rows();
    assert_eq!(c.rows, 4);
    assert_eq!(c.columns, 4);
    assert_eq!(c.indptr, vec![0, 1, 2, 3, 4]);
    assert_eq!(c.indices, vec![0, 1, 2, 3]);
    assert_eq!(c.data, vec![fe(1), fe(2), fe(3), fe(4)]);
}

#[test]
fn coefficients_keep_all_their_limbs() {
    let a = FieldElement { limbs: [1, 2, 3, 4, 5, 6] };
    let b = FieldElement { limbs: [u64::MAX, 0, u64::MAX, 0, u64::MAX, 0] };
    let rows: Vec<Row> = vec![(vec![1, 0], vec![a, b]), (vec![], vec![])];
    let c = rows_to_csmat(2, 1, &rows).into_compressed_rows();
    assert_eq!(c.indices, vec![0, 1]);
    assert_eq!(c.data, vec![b, a]);
}

#[test]
fn reindexing_orders_a_row_by_position() {
    let (columns, values) = reindex_row(3, 4, 16, &vec![14, 3, 2, 0, 8], &vec![
        fe(1),
        fe(2),
        fe(3),
        fe(4),
        fe(5),
    ])
    .unwrap();
    assert_eq!(columns, vec![0, 1, 7, 8, 15]);
    assert_eq!(values, vec![fe(4), fe(2), fe(5), fe(3), fe(1)]);
}

#[test]
fn a_row_with_unequal_lengths_is_refused() {
    assert_eq!(
        reindex_row(3, 4, 16, &vec![0, 1], &vec![fe(1)]),
        Err(RowFault::LengthMismatch)
    );
    assert_eq!(
        reindex_row(3, 4, 16, &vec![], &vec![fe(1)]),
        Err(RowFault::LengthMismatch)
    );
    let rows = vec![row(&[0], &[1]), (vec![0, 1], vec![fe(1)])];
    assert_eq!(
        try_rows_to_csmat(1, 2, &rows),
        Err(MatrixError::MalformedRow { row: 1, fault: RowFault::LengthMismatch })
    );
}

#[test]
fn a_flat_index_outside_the_columns_is_refused() {
    // flat index 15 has position 17
    assert_eq!(
        reindex_row(3, 4, 16, &vec![0, 15, 1], &vec![fe(1), fe(2), fe(3)]),
        Err(RowFault::IndexOutOfRange { entry: 1 })
    );
    // no auxiliary input with one position to a block
    assert_eq!(
        reindex_row(3, 1, 16, &vec![2, 3], &vec![fe(1), fe(2)]),
        Err(RowFault::IndexOutOfRange { entry: 1 })
    );
    // no position at all without a block
    assert_eq!(
        reindex_row(3, 0, 16, &vec![0], &vec![fe(1)]),
        Err(RowFault::IndexOutOfRange { entry: 0 })
    );
    // a position that no usize holds
    assert_eq!(
        reindex_row(3, 4, 16, &vec![usize::MAX], &vec![fe(1)]),
        Err(RowFault::IndexOutOfRange { entry: 0 })
    );
    let rows = vec![row(&[0], &[1]), row(&[1], &[2]), row(&[2, 4], &[3, 4])];
    assert_eq!(
        try_rows_to_csmat(1, 4, &rows),
        Err(MatrixError::MalformedRow { row: 2, fault: RowFault::IndexOutOfRange { entry: 1 } })
    );
}

#[test]
fn a_repeated_flat_index_is_refused() {
    assert_eq!(
        reindex_row(3, 4, 16, &vec![5, 1, 9, 1, 5], &vec![fe(1), fe(2), fe(3), fe(4), fe(5)]),
        Err(RowFault::DuplicateIndex { entry: 3 })
    );
    assert_eq!(
        reindex_row(3, 4, 16, &vec![7, 7], &vec![fe(1), fe(1)]),
        Err(RowFault::DuplicateIndex { entry: 1 })
    );
    let rows = vec![row(&[1, 1], &[1, 2]), row(&[0, 0], &[1, 2])];
    assert_eq!(
        try_rows_to_csmat(1, 4, &rows),
        Err(MatrixError::MalformedRow { row: 0, fault: RowFault::DuplicateIndex { entry: 1 } })
    );
}

#[test]
fn the_range_of_an_entry_is_looked_at_before_its_repetition() {
    assert_eq!(
        reindex_row(3, 4, 16, &vec![20, 20], &vec![fe(1), fe(2)]),
        Err(RowFault::IndexOutOfRange { entry: 0 })
    );
    assert_eq!(
        reindex_row(3, 4, 16, &vec![2, 2, 20], &vec![fe(1), fe(2), fe(3)]),
        Err(RowFault::DuplicateIndex { entry: 1 })
    );
}

// The same matrix, made with the sparse-matrix crate alone.
fn by_hand(public_inputs: usize, ratio: usize, rows: &Vec<Row>) -> CsMat<FieldElement> {
    let n = rows.len().next_power_of_two();
    let mut m = CsMat::empty(CSR, n);
    for (indices, coefficients) in rows.iter() {
        let mut shifted: Vec<(usize, FieldElement)> = indices
            .iter()
            .map(|i| index_to_witness_position(public_inputs, ratio, *i))
            .zip(coefficients.iter().copied())
            .collect();
        shifted.sort_by_key(|entry| entry.0);
        let columns: Vec<usize> = shifted.iter().map(|entry| entry.0).collect();
        let values: Vec<FieldElement> = shifted.iter().map(|entry| entry.1).collect();
        m = m.append_outer_csvec(CsVecView::new_view(n, &columns, &values).unwrap());
    }
    for _ in rows.len()..n {
        let none: Vec<usize> = Vec::new();
        let nothing: Vec<FieldElement> = Vec::new();
        m = m.append_outer_csvec(CsVecView::new_view(n, &none, &nothing).unwrap());
    }
    m
}

#[test]
fn storage_is_a_matrix_of_the_sparse_matrix_crate() {
    let rows = five_rows();
    let c = rows_to_csmat(2, 4, &rows).into_compressed_rows();
    let m = CsMat::new((c.rows, c.columns), c.indptr, c.indices, c.data);
    assert!(m.is_csr());
    assert_eq!(m, by_hand(2, 4, &rows));
    assert_eq!(m.rows(), 8);
    assert_eq!(m.cols(), 8);
    assert_eq!(m.nnz(), 10);
    assert_eq!(m.get(0, 4), Some(&fe(13)));
    assert_eq!(m.get(4, 1), Some(&fe(54)));
    assert_eq!(m.get(4, 4), None);
    assert_eq!(m.get(7, 0), None);
}

#[test]
fn larger_matrices_match_the_sparse_matrix_crate() {
    for count in [1usize, 2, 3, 7, 8, 9, 31, 33, 64] {
        let public_inputs = 1 + count % 5;
        let x = public_inputs.next_power_of_two();
        let n = count.next_power_of_two();
        if n < x {
            continue;
        }
        let ratio = n / x;
        let mut rows: Vec<Row> = Vec::new();
        for r in 0..count {
            let mut indices: Vec<usize> = Vec::new();
            let mut coefficients: Vec<u64> = Vec::new();
            for k in 0..n {
                let i = (k * 5 + r * 3) % n;
                let placed = i < public_inputs || (ratio > 1 && i - public_inputs < n - x);
                if placed && (i + 2 * r) % 3 != 1 && !indices.contains(&i) {
                    indices.push(i);
                    coefficients.push((1000 * r + i) as u64);
                }
            }
            rows.push(row(&indices, &coefficients));
        }
        let built = try_rows_to_csmat(public_inputs, ratio, &rows).unwrap();
        assert_eq!(built.rows(), n);
        assert_eq!(built.cols(), n);
        let c = built.into_compressed_rows();
        let m = CsMat::new((c.rows, c.columns), c.indptr, c.indices, c.data);
        assert_eq!(m, by_hand(public_inputs, ratio, &rows));
    }
}

#[test]
fn rows_of_any_coefficient_are_reindexed() {
    let (columns, values) =
        reindex_row(2, 2, 8, &vec![3, 0, 1, 2], &vec![-3i32, 10, -1, 2]).unwrap();
    // 0 -> 0, 1 -> 2, 2 -> 1, 3 -> 3
    assert_eq!(columns, vec![0, 1, 2, 3]);
    assert_eq!(values, vec![10, 2, -1, -3]);
    let none: Vec<usize> = Vec::new();
    let nothing: Vec<char> = Vec::new();
    assert_eq!(reindex_row(2, 2, 8, &none, &nothing), Ok((vec![], vec![])));
}
