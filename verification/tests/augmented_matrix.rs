use malg::Matrix;
use malg::MatrixEntry;
use malg::RowOps;
use malg::augmented_matrix::AugmentedMatrix;

/// Scalar for the tests: a thin wrapper over `f32`.
#[derive(Clone, Copy, Debug, PartialEq)]
struct F32(f32);

impl MatrixEntry for F32 {
    // The specification-level items of the trait are ghost: they are erased
    // from compiled code and these bodies never run.
    fn spec_zero() -> F32 {
        F32(0.0)
    }

    fn spec_one() -> F32 {
        F32(1.0)
    }

    fn spec_add(self, rhs: F32) -> F32 {
        F32(self.0 + rhs.0)
    }

    fn spec_sub(self, rhs: F32) -> F32 {
        F32(self.0 - rhs.0)
    }

    fn spec_mul(self, rhs: F32) -> F32 {
        F32(self.0 * rhs.0)
    }

    fn spec_div(self, rhs: F32) -> F32 {
        F32(self.0 / rhs.0)
    }

    fn lemma_add_zero(_a: F32) {}

    fn lemma_mul_one(_a: F32) {}

    fn lemma_mul_zero(_a: F32) {}

    fn lemma_add_neg(_a: F32) {}

    fn lemma_div_inverse(_a: F32) {}

    fn lemma_one_nonzero() {}

    fn zero() -> F32 {
        F32(0.0)
    }

    fn one() -> F32 {
        F32(1.0)
    }

    fn plus(self, rhs: F32) -> F32 {
        F32(self.0 + rhs.0)
    }

    fn minus(self, rhs: F32) -> F32 {
        F32(self.0 - rhs.0)
    }

    fn times(self, rhs: F32) -> F32 {
        F32(self.0 * rhs.0)
    }

    fn divide(self, rhs: F32) -> F32 {
        F32(self.0 / rhs.0)
    }

    fn is_zero(&self) -> bool {
        self.0 == 0.0
    }
}

fn mat(rows: Vec<Vec<f32>>) -> Matrix<F32> {
    let wrapped: Vec<Vec<F32>> = rows
        .into_iter()
        .map(|row| row.into_iter().map(F32).collect())
        .collect();
    Matrix::new(wrapped).expect("rectangular grid")
}

#[test]
fn new_requires_equal_row_counts() {
    let a = mat(vec![vec![1.0, 2.0], vec![3.0, 4.0], vec![5.0, 6.0]]);
    let b = mat(vec![vec![1.0], vec![2.0], vec![3.0]]);
    assert!(AugmentedMatrix::new(a, b).is_some());

    let a = mat(vec![vec![1.0, 2.0], vec![3.0, 4.0]]);
    let b = mat(vec![vec![1.0], vec![2.0], vec![3.0]]);
    assert!(AugmentedMatrix::new(a, b).is_none());
}

#[test]
fn parts_are_recoverable() {
    let a = mat(vec![vec![1.0, 2.0], vec![3.0, 4.0]]);
    let b = mat(vec![vec![5.0], vec![6.0]]);
    let c = AugmentedMatrix::new(a.clone(), b.clone()).unwrap();
    assert_eq!(c.get_left(), &a);
    assert_eq!(c.get_right(), &b);
}

#[test]
fn dimensions_report_left_part_only() {
    let a = mat(vec![vec![1.0, 2.0], vec![3.0, 4.0], vec![5.0, 6.0]]);
    let b = mat(vec![vec![1.0], vec![2.0], vec![3.0]]);
    let c = AugmentedMatrix::new(a, b).unwrap();
    assert_eq!(c.n_rows(), 3);
    assert_eq!(c.n_cols(), 2);
}

#[test]
fn swap_rows_affects_both_parts() {
    let a = mat(vec![vec![1.0, 2.0], vec![3.0, 4.0], vec![5.0, 6.0]]);
    let b = mat(vec![vec![1.0], vec![2.0], vec![3.0]]);
    let mut c = AugmentedMatrix::new(a.clone(), b.clone()).unwrap();
    c.swap_rows(0, 1);

    let mut a_alone = a;
    let mut b_alone = b;
    a_alone.swap_rows(0, 1);
    b_alone.swap_rows(0, 1);
    assert_eq!(c.get_left(), &a_alone);
    assert_eq!(c.get_right(), &b_alone);
}

#[test]
fn scale_row_affects_both_parts() {
    let a = mat(vec![vec![1.0, 2.0], vec![3.0, 4.0], vec![5.0, 6.0]]);
    let b = mat(vec![vec![1.0], vec![2.0], vec![3.0]]);
    let mut c = AugmentedMatrix::new(a.clone(), b.clone()).unwrap();
    c.scale_row(1, F32(2.0));

    let mut a_alone = a;
    let mut b_alone = b;
    a_alone.scale_row(1, F32(2.0));
    b_alone.scale_row(1, F32(2.0));
    assert_eq!(c.get_left(), &a_alone);
    assert_eq!(c.get_right(), &b_alone);
}

#[test]
fn add_rows_affects_both_parts() {
    let a = mat(vec![vec![1.0, 2.0], vec![3.0, 4.0], vec![5.0, 6.0]]);
    let b = mat(vec![vec![1.0], vec![2.0], vec![3.0]]);
    let mut c = AugmentedMatrix::new(a.clone(), b.clone()).unwrap();
    c.add_rows(2, 0, F32(2.0));

    let mut a_alone = a;
    let mut b_alone = b;
    a_alone.add_rows(2, 0, F32(2.0));
    b_alone.add_rows(2, 0, F32(2.0));
    assert_eq!(c.get_left(), &a_alone);
    assert_eq!(c.get_right(), &b_alone);
}

#[test]
fn get_row_returns_left_part_only() {
    let a = mat(vec![vec![1.0, 2.0], vec![3.0, 4.0], vec![5.0, 6.0]]);
    let b = mat(vec![vec![1.0], vec![2.0], vec![3.0]]);
    let c = AugmentedMatrix::new(a, b).unwrap();
    let row = c.get_row(1);
    assert_eq!(row, vec![F32(3.0), F32(4.0)]);
}

#[test]
fn reduction_solves_a_linear_system() {
    // 2x = 2 and 4y = 8: reducing [A | b] leaves the identity on the left
    // and the solution (1, 2) on the right.
    let a = mat(vec![vec![2.0, 0.0], vec![0.0, 4.0]]);
    let b = mat(vec![vec![2.0], vec![8.0]]);
    let mut c = AugmentedMatrix::new(a, b).unwrap();
    c.transform_to_row_echelon_form();
    assert_eq!(c.get_left(), &mat(vec![vec![1.0, 0.0], vec![0.0, 1.0]]));
    assert_eq!(c.get_right(), &mat(vec![vec![1.0], vec![2.0]]));
}

#[test]
fn reduction_of_identity_augmented_inverts_a_diagonal() {
    // augmenting with the identity and reducing computes the inverse of a
    // diagonal matrix
    let a = mat(vec![vec![2.0, 0.0], vec![0.0, 4.0]]);
    let identity = malg::SquareMatrix::identity(2);
    let mut c = AugmentedMatrix::new(a, identity.clone()).unwrap();
    c.transform_to_row_echelon_form();
    assert_eq!(c.get_left(), &identity);
    assert_eq!(c.get_right(), &mat(vec![vec![0.5, 0.0], vec![0.0, 0.25]]));
}

#[test]
fn reduction_left_part_matches_reducing_left_alone() {
    let a = mat(vec![vec![3.0, 3.0, 2.0], vec![1.0, 2.0, 6.0], vec![1.0, 0.0, 1.0]]);
    let b = mat(vec![vec![1.0], vec![0.0], vec![0.0]]);
    let mut c = AugmentedMatrix::new(a.clone(), b).unwrap();
    c.transform_to_row_echelon_form();

    let mut a_alone = a;
    a_alone.transform_to_row_echelon_form();
    assert_eq!(c.get_left(), &a_alone);
}

#[test]
fn reduction_applies_row_combinations_to_the_right_part() {
    // x + y = 3, x - y = 1: the reduction eliminates below the first pivot.
    let a = mat(vec![vec![1.0, 1.0], vec![1.0, -1.0]]);
    let b = mat(vec![vec![3.0], vec![1.0]]);
    let mut c = AugmentedMatrix::new(a, b).unwrap();
    c.transform_to_row_echelon_form();
    // after reduction: [[1, 1 | 3], [0, 1 | 1]]
    assert_eq!(c.get_left(), &mat(vec![vec![1.0, 1.0], vec![0.0, 1.0]]));
    assert_eq!(c.get_right(), &mat(vec![vec![3.0], vec![1.0]]));
}
