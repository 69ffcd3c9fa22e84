use matrix_mul::{Matrix, MatrixError};
use rand::rngs::StdRng;
use rand::{Rng, SeedableRng};

fn random_matrix(rows: usize, cols: usize, rng: &mut StdRng) -> Matrix<f32> {
    let mut data = Vec::new();
    for _ in 0..rows * cols {
        data.push(rng.gen::<f32>());
    }
    Matrix::from_row_major(rows, cols, data).unwrap()
}

fn product(a: &Matrix<f32>, b: &Matrix<f32>) -> Result<Matrix<f32>, MatrixError> {
    Matrix::multiply(a, b, 0.0, |acc: f32, x: f32, y: f32| acc + x * y)
}

fn cells(m: &Matrix<f32>) -> Vec<u32> {
    let mut out = Vec::new();
    for i in 0..m.rows() {
        for j in 0..m.cols() {
            out.push(m.get(i, j).to_bits());
        }
    }
    out
}

fn show(m: &Matrix<f32>) -> String {
    m.render_with(|x: f32| x.to_string())
}

#[test]
fn product_has_outer_shape() {
    let mut rng = StdRng::seed_from_u64(7);
    for &(rows, inner, cols) in &[(1, 1, 1), (2, 3, 4), (4, 1, 3), (3, 0, 2), (0, 2, 5)] {
        let a = random_matrix(rows, inner, &mut rng);
        let b = random_matrix(inner, cols, &mut rng);
        let m = product(&a, &b).unwrap();
        assert_eq!(m.shape(), (rows, cols));
        assert_eq!(m.rows(), rows);
        assert_eq!(m.cols(), cols);
    }
}

#[test]
fn empty_inner_dimension_gives_zeros() {
    let a = Matrix::<f32>::from_row_major(2, 0, vec![]).unwrap();
    let b = Matrix::<f32>::from_row_major(0, 3, vec![]).unwrap();
    let m = product(&a, &b).unwrap();
    assert_eq!(m.shape(), (2, 3));
    assert!(cells(&m).iter().all(|&bits| bits == 0.0f32.to_bits()));
}

#[test]
fn mismatch_two_by_three_and_four_by_five() {
    let mut rng = StdRng::seed_from_u64(1);
    let a = random_matrix(2, 3, &mut rng);
    let b = random_matrix(4, 5, &mut rng);
    let e = product(&a, &b).err().unwrap();
    assert_eq!(e, MatrixError::DimensionMismatch { first_cols: 3, second_rows: 4 });
    let text = e.message();
    assert!(text.contains('3'));
    assert!(text.contains('4'));
}

#[test]
fn mismatch_three_by_four_and_five_by_six() {
    let mut rng = StdRng::seed_from_u64(2);
    let a = random_matrix(3, 4, &mut rng);
    let b = random_matrix(5, 6, &mut rng);
    let e = product(&a, &b).err().unwrap();
    assert_eq!(e, MatrixError::DimensionMismatch { first_cols: 4, second_rows: 5 });
    assert_eq!(
        e.message(),
        "the column count of the first matrix does not match the row count of the second matrix: 4 and 5"
    );
}

#[test]
fn identity_gives_back_the_matrix() {
    let mut rng = StdRng::seed_from_u64(3);
    for &(m, n) in &[(1, 1), (2, 3), (4, 4), (3, 1)] {
        let a = random_matrix(m, n, &mut rng);
        let id = Matrix::identity(n, 0.0f32, 1.0f32).unwrap();
        let r = product(&a, &id).unwrap();
        assert_eq!(r.shape(), a.shape());
        for i in 0..m {
            for j in 0..n {
                assert!((r.get(i, j) - a.get(i, j)).abs() <= 1e-6);
            }
        }
    }
}

#[test]
fn identity_has_ones_on_the_diagonal() {
    let id = Matrix::identity(3, 0u8, 1u8).unwrap();
    assert_eq!(id.shape(), (3, 3));
    for i in 0..3 {
        for j in 0..3 {
            assert_eq!(id.get(i, j), if i == j { 1 } else { 0 });
        }
    }
    assert!(Matrix::identity(usize::MAX, 0u8, 1u8).is_none());
}

#[test]
fn zero_by_zero_product() {
    let a = Matrix::<f32>::empty();
    let b = Matrix::<f32>::empty();
    let m = product(&a, &b).unwrap();
    assert_eq!(m.shape(), (0, 0));
    assert_eq!(show(&m), "");
}

#[test]
fn checked_get_out_of_bounds() {
    let m = Matrix::from_row_major(2, 3, vec![1u8, 2, 3, 4, 5, 6]).unwrap();
    assert_eq!(m.checked_get(1, 2), Ok(6));
    assert_eq!(m.checked_get(0, 1), Ok(2));
    let e = m.checked_get(2, 0).unwrap_err();
    assert_eq!(e, MatrixError::IndexOutOfBounds { rows: 2, cols: 3, i: 2, j: 0 });
    assert_eq!(e.message(), "matrix index not within bound: matrix(2, 3), i: 2, j: 0");
    assert_eq!(
        m.checked_get(0, 3),
        Err(MatrixError::IndexOutOfBounds { rows: 2, cols: 3, i: 0, j: 3 })
    );
    assert!(m.checked_get(1, usize::MAX).is_err());
}

#[test]
fn same_seed_same_matrices() {
    let run = |seed: u64| {
        let mut rng = StdRng::seed_from_u64(seed);
        let a = random_matrix(3, 4, &mut rng);
        let b = random_matrix(4, 2, &mut rng);
        let m = product(&a, &b).unwrap();
        (cells(&a), cells(&b), cells(&m))
    };
    assert_eq!(run(42), run(42));
    assert_ne!(run(42).0, run(43).0);
}

#[test]
fn two_by_two_seeded_product() {
    let mut rng = StdRng::seed_from_u64(2024);
    let a = random_matrix(2, 2, &mut rng);
    let b = random_matrix(2, 2, &mut rng);
    let m = product(&a, &b).unwrap();
    assert_eq!(m.shape(), (2, 2));
    for i in 0..2 {
        for j in 0..2 {
            let expected = 0.0f32 + a.get(i, 0) * b.get(0, j) + a.get(i, 1) * b.get(1, j);
            assert_eq!(m.get(i, j).to_bits(), expected.to_bits());
        }
    }
    let first = a.get(0, 0) * b.get(0, 0) + a.get(0, 1) * b.get(1, 0);
    assert_eq!(m.get(0, 0), first);
    for i in 0..2 {
        for j in 0..2 {
            let v = a.get(i, j);
            assert!((0.0..1.0).contains(&v));
        }
    }
}

#[test]
fn exact_small_product() {
    let a = Matrix::from_row_major(2, 3, vec![1i64, 2, 3, 4, 5, 6]).unwrap();
    let b = Matrix::from_row_major(3, 2, vec![7i64, 8, 9, 10, 11, 12]).unwrap();
    let m = Matrix::multiply(&a, &b, 0, |acc: i64, x: i64, y: i64| acc + x * y).unwrap();
    assert_eq!(m.shape(), (2, 2));
    assert_eq!(
        (m.get(0, 0), m.get(0, 1), m.get(1, 0), m.get(1, 1)),
        (58, 64, 139, 154)
    );
}

#[test]
fn summation_runs_in_ascending_order() {
    let a = Matrix::from_row_major(1, 3, vec![1u32, 2, 3]).unwrap();
    let b = Matrix::from_row_major(3, 1, vec![1u32, 1, 1]).unwrap();
    let m = Matrix::multiply(&a, &b, 0, |acc: u32, x: u32, y: u32| acc * 10 + x * y).unwrap();
    assert_eq!(m.get(0, 0), 123);
}

#[test]
fn from_row_major_checks_length() {
    assert!(Matrix::from_row_major(2, 2, vec![1u8, 2, 3]).is_none());
    assert!(Matrix::from_row_major(usize::MAX, 2, vec![1u8]).is_none());
    let m = Matrix::from_row_major(2, 2, vec![1u8, 2, 3, 4]).unwrap();
    assert_eq!(m.get(1, 0), 3);
    assert_eq!(m.get(0, 1), 2);
}

#[test]
fn empty_matrix_has_no_cells() {
    let m = Matrix::<u8>::empty();
    assert_eq!(m.shape(), (0, 0));
    assert!(m.checked_get(0, 0).is_err());
}

#[test]
fn small_matrix_rendered_cell_by_cell() {
    let m = Matrix::from_row_major(2, 2, vec![1.0f32, 2.5, 0.25, 3.0]).unwrap();
    assert_eq!(show(&m), "    1   2.5 \n 0.25     3 \n");
    let mut expected = String::new();
    for i in 0..2 {
        for j in 0..2 {
            expected.push_str(&format!("{:5} ", m.get(i, j)));
        }
        expected.push('\n');
    }
    assert_eq!(show(&m), expected);
}

#[test]
fn long_cell_text_is_not_cut() {
    let m = Matrix::from_row_major(1, 1, vec![0.123456f32]).unwrap();
    assert_eq!(show(&m), "0.123456 \n");
}

#[test]
fn large_matrix_rendered_as_summary() {
    let m = Matrix::from_row_major(5, 1, vec![0.0f32; 5]).unwrap();
    assert_eq!(show(&m), "Matrix(5, 1)");
    let m = Matrix::from_row_major(1, 12, vec![0.0f32; 12]).unwrap();
    assert_eq!(show(&m), "Matrix(1, 12)");
    let m = Matrix::from_row_major(4, 4, vec![0.0f32; 16]).unwrap();
    assert_eq!(show(&m).lines().count(), 4);
}

#[test]
fn message_writes_large_numbers() {
    let e = MatrixError::DimensionMismatch { first_cols: 1234567890, second_rows: 0 };
    assert!(e.message().ends_with(": 1234567890 and 0"));
    let e = MatrixError::IndexOutOfBounds { rows: 10, cols: 100, i: 109, j: 9 };
    assert_eq!(e.message(), "matrix index not within bound: matrix(10, 100), i: 109, j: 9");
}
