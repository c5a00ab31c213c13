use parallel_matmul::aggregate::merge;
use parallel_matmul::generate::{generate_matrix, ENTRY_BOUND};
use parallel_matmul::kernel::compute_rows;
use parallel_matmul::multiply::{multiply_matrices, zero_matrix};
use parallel_matmul::partition::{partition, MatrixError, RowRange};

fn reference_product(a: &Vec<Vec<i32>>, b: &Vec<Vec<i32>>) -> Vec<Vec<i32>> {
    let n = a.len();
    let mut m = vec![vec![0i64; n]; n];
    for i in 0..n {
        for j in 0..n {
            for k in 0..n {
                m[i][j] += a[i][k] as i64 * b[k][j] as i64;
            }
        }
    }
    m.into_iter()
        .map(|row| row.into_iter().map(|x| x as i32).collect())
        .collect()
}

fn sample(n: usize, seed: i32) -> Vec<Vec<i32>> {
    (0..n)
        .map(|i| (0..n).map(|j| ((i as i32 * 7 + j as i32 * 3 + seed) % 11) - 5).collect())
        .collect()
}

fn is_zero(m: &Vec<Vec<i32>>, n: usize) -> bool {
    m.len() == n && m.iter().all(|row| row.len() == n && row.iter().all(|&x| x == 0))
}

#[test]
fn two_by_two_single_worker() {
    let a = vec![vec![1, 2], vec![3, 4]];
    let b = vec![vec![5, 6], vec![7, 8]];
    let r = multiply_matrices(&a, &b, 2, 1);
    assert_eq!(r.error, None);
    assert_eq!(r.matrix, vec![vec![19, 22], vec![43, 50]]);
}

#[test]
fn remainder_goes_to_last_range() {
    let ranges = partition(4, 3).unwrap();
    assert_eq!(
        ranges,
        vec![
            RowRange { start: 0, end: 1 },
            RowRange { start: 1, end: 2 },
            RowRange { start: 2, end: 4 },
        ]
    );
}

#[test]
fn more_workers_than_rows_is_refused() {
    assert_eq!(partition(3, 4), Err(MatrixError::InvalidConfiguration));
    let a = sample(3, 1);
    let b = sample(3, 2);
    let r = multiply_matrices(&a, &b, 3, 4);
    assert_eq!(r.error, Some(MatrixError::InvalidConfiguration));
    assert!(is_zero(&r.matrix, 3));
}

#[test]
fn empty_matrix_is_refused() {
    assert_eq!(partition(0, 1), Err(MatrixError::InvalidConfiguration));
    let r = multiply_matrices(&Vec::new(), &Vec::new(), 0, 1);
    assert_eq!(r.error, Some(MatrixError::InvalidConfiguration));
    assert!(r.matrix.is_empty());
}

#[test]
fn zero_workers_is_refused() {
    assert_eq!(partition(5, 0), Err(MatrixError::InvalidConfiguration));
    let a = sample(2, 0);
    let r = multiply_matrices(&a, &a, 2, 0);
    assert_eq!(r.error, Some(MatrixError::InvalidConfiguration));
    assert!(is_zero(&r.matrix, 2));
}

#[test]
fn product_matches_reference_for_every_worker_count() {
    let n = 7;
    let a = sample(n, 3);
    let b = sample(n, 5);
    let expected = reference_product(&a, &b);
    for w in 1..=n {
        let r = multiply_matrices(&a, &b, n, w);
        assert_eq!(r.error, None);
        assert_eq!(r.matrix, expected, "workers = {}", w);
    }
}

#[test]
fn repeated_multiplication_is_identical() {
    let n = 6;
    let a = sample(n, 4);
    let b = sample(n, 9);
    let first = multiply_matrices(&a, &b, n, 4);
    let second = multiply_matrices(&a, &b, n, 4);
    assert_eq!(first.error, second.error);
    assert_eq!(first.matrix, second.matrix);
    assert_eq!(a, sample(n, 4));
    assert_eq!(b, sample(n, 9));
}

#[test]
fn partition_covers_all_rows() {
    for n in 1..=20usize {
        for w in 1..=n {
            let ranges = partition(n, w).unwrap();
            assert_eq!(ranges.len(), w);
            assert_eq!(ranges[0].start, 0);
            assert_eq!(ranges[w - 1].end, n);
            for p in 0..w - 1 {
                assert_eq!(ranges[p].end, ranges[p + 1].start);
                assert_eq!(ranges[p].end - ranges[p].start, n / w);
            }
            assert_eq!(ranges[w - 1].end - ranges[w - 1].start, n / w + n % w);
        }
    }
}

#[test]
fn single_worker_takes_every_row() {
    assert_eq!(partition(5, 1).unwrap(), vec![RowRange { start: 0, end: 5 }]);
}

#[test]
fn one_row_per_worker() {
    let ranges = partition(3, 3).unwrap();
    assert_eq!(
        ranges,
        vec![
            RowRange { start: 0, end: 1 },
            RowRange { start: 1, end: 2 },
            RowRange { start: 2, end: 3 },
        ]
    );
}

#[test]
fn kernel_computes_requested_rows() {
    let a = vec![vec![1, 2, 3], vec![4, 5, 6], vec![7, 8, 9]];
    let b = vec![vec![1, 0, 0], vec![0, 2, 0], vec![0, 0, 3]];
    let block = compute_rows(&a, &b, RowRange { start: 1, end: 3 }, 3).unwrap();
    assert_eq!(block, vec![vec![4, 10, 18], vec![7, 16, 27]]);
    let empty = compute_rows(&a, &b, RowRange { start: 2, end: 2 }, 3).unwrap();
    assert!(empty.is_empty());
}

#[test]
fn kernel_reports_overflowing_term() {
    let a = vec![vec![i32::MAX, 0], vec![0, 0]];
    let b = vec![vec![2, 0], vec![0, 0]];
    assert_eq!(
        compute_rows(&a, &b, RowRange { start: 0, end: 1 }, 2),
        Err(MatrixError::Overflow)
    );
    assert_eq!(compute_rows(&a, &b, RowRange { start: 1, end: 2 }, 2), Ok(vec![vec![0, 0]]));
}

#[test]
fn kernel_reports_overflowing_sum() {
    let a = vec![vec![i32::MAX, 1], vec![0, 0]];
    let b = vec![vec![1, 0], vec![1, 0]];
    assert_eq!(
        compute_rows(&a, &b, RowRange { start: 0, end: 2 }, 2),
        Err(MatrixError::Overflow)
    );
}

#[test]
fn kernel_accepts_extreme_values_that_fit() {
    let a = vec![vec![i32::MAX, -1], vec![i32::MIN, 0]];
    let b = vec![vec![1, 0], vec![1, 1]];
    assert_eq!(
        compute_rows(&a, &b, RowRange { start: 0, end: 2 }, 2),
        Ok(vec![vec![i32::MAX - 1, -1], vec![i32::MIN, 0]])
    );
}

#[test]
fn overflow_gives_zero_matrix() {
    let a = vec![vec![i32::MAX, 1], vec![1, 1]];
    let b = vec![vec![1, 1], vec![1, 1]];
    let r = multiply_matrices(&a, &b, 2, 2);
    assert_eq!(r.error, Some(MatrixError::Overflow));
    assert!(is_zero(&r.matrix, 2));
}

#[test]
fn merge_places_blocks_in_range_order() {
    let ranges = vec![RowRange { start: 0, end: 1 }, RowRange { start: 1, end: 3 }];
    let parts = vec![vec![vec![1, 1]], vec![vec![2, 2], vec![3, 3]]];
    assert_eq!(merge(3, &ranges, parts), vec![vec![1, 1], vec![2, 2], vec![3, 3]]);
}

#[test]
fn merge_handles_float_rows() {
    let ranges = vec![RowRange { start: 0, end: 1 }];
    let parts = vec![vec![vec![10.0f32]]];
    assert_eq!(merge(1, &ranges, parts), vec![vec![10.0f32]]);
}

#[test]
fn zero_matrix_has_requested_shape() {
    assert!(is_zero(&zero_matrix(4), 4));
    assert!(zero_matrix(0).is_empty());
}

#[test]
fn generated_matrix_is_square_and_bounded() {
    let m = generate_matrix(30);
    assert_eq!(m.len(), 30);
    for row in &m {
        assert_eq!(row.len(), 30);
        assert!(row.iter().all(|&x| 0 <= x && x < ENTRY_BOUND));
    }
    assert!(m.iter().flatten().any(|&x| x != 0));
    assert!(generate_matrix(0).is_empty());
}

#[test]
fn generated_matrices_multiply_without_overflow() {
    let a = generate_matrix(12);
    let b = generate_matrix(12);
    let r = multiply_matrices(&a, &b, 12, 5);
    assert_eq!(r.error, None);
    assert_eq!(r.matrix, reference_product(&a, &b));
}
