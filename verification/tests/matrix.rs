use malg::Matrix;
use malg::MatrixEntry;
use malg::RowOps;
use malg::SquareMatrix;

/// Scalar for the tests: a thin wrapper over `f32`.
#[derive(Clone, Copy, Debug, PartialEq)]
struct F32(f32);

impl MatrixEntry for F32 {
    // The specification-level items of the trait are ghost: they are erased
    // from compiled code and these bodies never run.
    fn spec_zero() -> F32 {
        F32(0.0)
    }

    fn spec_one() -> F32 {
        F32(1.0)
    }

    fn spec_add(self, rhs: F32) -> F32 {
        F32(self.0 + rhs.0)
    }

    fn spec_sub(self, rhs: F32) -> F32 {
        F32(self.0 - rhs.0)
    }

    fn spec_mul(self, rhs: F32) -> F32 {
        F32(self.0 * rhs.0)
    }

    fn spec_div(self, rhs: F32) -> F32 {
        F32(self.0 / rhs.0)
    }

    fn lemma_add_zero(_a: F32) {}

    fn lemma_mul_one(_a: F32) {}

    fn lemma_mul_zero(_a: F32) {}

    fn lemma_add_neg(_a: F32) {}

    fn lemma_div_inverse(_a: F32) {}

    fn lemma_one_nonzero() {}

    fn zero() -> F32 {
        F32(0.0)
    }

    fn one() -> F32 {
        F32(1.0)
    }

    fn plus(self, rhs: F32) -> F32 {
        F32(self.0 + rhs.0)
    }

    fn minus(self, rhs: F32) -> F32 {
        F32(self.0 - rhs.0)
    }

    fn times(self, rhs: F32) -> F32 {
        F32(self.0 * rhs.0)
    }

    fn divide(self, rhs: F32) -> F32 {
        F32(self.0 / rhs.0)
    }

    fn is_zero(&self) -> bool {
        self.0 == 0.0
    }
}

fn mat(rows: Vec<Vec<f32>>) -> Matrix<F32> {
    let wrapped: Vec<Vec<F32>> = rows
        .into_iter()
        .map(|row| row.into_iter().map(F32).collect())
        .collect();
    Matrix::new(wrapped).expect("rectangular grid")
}

#[test]
fn new_rejects_ragged_rows() {
    let ragged = vec![vec![F32(1.0), F32(2.0)], vec![F32(3.0)]];
    assert!(Matrix::new(ragged).is_none());
}

#[test]
fn new_accepts_empty_grid() {
    let empty: Vec<Vec<F32>> = Vec::new();
    let m = Matrix::new(empty).expect("empty grid is rectangular");
    assert_eq!(m.n_rows(), 0);
    assert_eq!(m.n_cols(), 0);
}

#[test]
fn dimensions_reported() {
    let a = mat(vec![vec![0.0; 4], vec![0.0; 4], vec![0.0; 4]]);
    assert_eq!(a.n_rows(), 3);
    assert_eq!(a.n_cols(), 4);
}

#[test]
fn get_entry_zero_based() {
    let a = mat(vec![vec![1.0, 2.0, 3.0], vec![4.0, 5.0, 6.0]]);
    let a12 = a.get_entry(0, 1).unwrap();
    assert_eq!(*a12, F32(2.0));
    let a32 = a.get_entry(2, 1);
    assert_eq!(a32, None);
}

#[test]
fn get_mut_entry_zero_based() {
    let mut a = mat(vec![vec![1.0, 2.0, 3.0], vec![4.0, 5.0, 6.0]]);
    let a12 = a.get_mut_entry(0, 1).unwrap();
    *a12 = F32(10.0);
    assert_eq!(a, mat(vec![vec![1.0, 10.0, 3.0], vec![4.0, 5.0, 6.0]]));
    assert!(a.get_mut_entry(2, 1).is_none());
}

#[test]
fn entry_one_based() {
    let a = mat(vec![vec![1.0, 2.0, 3.0], vec![4.0, 5.0, 6.0]]);
    let a12 = a.entry(1, 2).unwrap();
    assert_eq!(*a12, F32(2.0));
    assert_eq!(a.entry(3, 2), None);
    assert_eq!(a.entry(0, 1), None);
}

#[test]
fn mut_entry_one_based() {
    let mut a = mat(vec![vec![1.0, 2.0, 3.0], vec![4.0, 5.0, 6.0]]);
    let a12 = a.mut_entry(1, 2).unwrap();
    *a12 = F32(10.0);
    assert_eq!(a, mat(vec![vec![1.0, 10.0, 3.0], vec![4.0, 5.0, 6.0]]));
    assert!(a.mut_entry(0, 2).is_none());
}

#[test]
fn as_slice_exposes_rows() {
    let a = mat(vec![vec![1.0, 2.0], vec![3.0, 4.0]]);
    let rows = a.as_slice();
    assert_eq!(rows.len(), 2);
    assert_eq!(rows[1][0], F32(3.0));
}

#[test]
fn transpose_flips_rows_and_columns() {
    let a = mat(vec![vec![1.0, 2.0, 3.0], vec![4.0, 5.0, 6.0]]);
    let a_t = a.transpose();
    assert_eq!(
        a_t,
        mat(vec![vec![1.0, 4.0], vec![2.0, 5.0], vec![3.0, 6.0]])
    );
}

#[test]
fn swap_rows_scenario() {
    let mut a = mat(vec![vec![1.0, 2.0], vec![3.0, 4.0], vec![5.0, 6.0]]);
    a.swap_rows(1, 2);
    assert_eq!(a, mat(vec![vec![1.0, 2.0], vec![5.0, 6.0], vec![3.0, 4.0]]));
}

#[test]
fn scale_row_scenario() {
    let mut a = mat(vec![vec![1.0, 2.0], vec![3.0, 4.0], vec![5.0, 6.0]]);
    a.scale_row(1, F32(2.0));
    assert_eq!(a, mat(vec![vec![1.0, 2.0], vec![6.0, 8.0], vec![5.0, 6.0]]));
}

#[test]
fn scale_row_by_zero_zeroes_the_row() {
    let mut a = mat(vec![vec![1.0, 2.0], vec![3.0, 4.0]]);
    a.scale_row(0, F32(0.0));
    assert_eq!(a, mat(vec![vec![0.0, 0.0], vec![3.0, 4.0]]));
}

#[test]
fn add_rows_scenario() {
    let mut a = mat(vec![vec![1.0, 2.0], vec![3.0, 4.0], vec![5.0, 6.0]]);
    a.add_rows(2, 0, F32(2.0));
    assert_eq!(a, mat(vec![vec![1.0, 2.0], vec![3.0, 4.0], vec![7.0, 10.0]]));
}

#[test]
fn get_row_copies_a_row() {
    let a = mat(vec![vec![1.0, 2.0], vec![3.0, 4.0], vec![5.0, 6.0]]);
    let row = a.get_row(1);
    assert_eq!(row, vec![F32(3.0), F32(4.0)]);
}

#[test]
fn trace_sums_diagonal_entries() {
    let a: SquareMatrix<F32> = mat(vec![
        vec![1.0, 2.0, 3.0],
        vec![1.0, 2.0, 3.0],
        vec![1.0, 2.0, 3.0],
    ]);
    assert_eq!(a.trace(), F32(6.0));
}

#[test]
fn trace_of_distinct_row_matrix() {
    let a: SquareMatrix<F32> = mat(vec![vec![5.0, 9.0], vec![7.0, 3.0]]);
    assert_eq!(a.trace(), F32(8.0));
}

#[test]
fn identity_matrix_construction() {
    let i3: SquareMatrix<F32> = SquareMatrix::identity(3);
    assert_eq!(
        i3,
        mat(vec![
            vec![1.0, 0.0, 0.0],
            vec![0.0, 1.0, 0.0],
            vec![0.0, 0.0, 1.0],
        ])
    );
    let i0: SquareMatrix<F32> = SquareMatrix::identity(0);
    assert_eq!(i0.n_rows(), 0);
    assert_eq!(i0.n_cols(), 0);
}

#[test]
fn trace_of_single_entry() {
    let b: SquareMatrix<F32> = mat(vec![vec![4.0]]);
    assert_eq!(b.trace(), F32(4.0));
}
