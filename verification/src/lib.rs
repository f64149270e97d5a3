//! Dense linear algebra over an abstract scalar field: rectangular matrices,
//! elementary row operations, and in-place reduction to row echelon form.
//!
//! The row operations and the reduction algorithm are written once against the
//! [`RowOps`] capability and work unchanged on a plain [`Matrix`] or on an
//! [`AugmentedMatrix`](crate::augmented_matrix::AugmentedMatrix) pair reduced
//! in lock-step.
use vstd::prelude::*;

pub mod augmented_matrix;
pub mod gf2;
pub mod row_operations;
pub mod square_matrix;

pub use row_operations::RowOps;
pub use square_matrix::SquareMatrix;

verus! {

/// Scalar capability a value type must satisfy to act as a matrix entry for
/// row reduction: an additive identity, a multiplicative identity, and the
/// four arithmetic operations, together with the field laws the reduction
/// algorithm relies on.
///
/// The `spec_*` functions give the mathematical meaning of each operation;
/// the executable operations must return exactly those values, and the
/// `lemma_*` obligations must be proved by every implementation.
pub trait MatrixEntry: Sized + Copy {
    /// The additive identity, as a specification-level value.
    spec fn spec_zero() -> Self;

    /// The multiplicative identity, as a specification-level value.
    spec fn spec_one() -> Self;

    /// Specification-level addition.
    spec fn spec_add(self, rhs: Self) -> Self;

    /// Specification-level subtraction.
    spec fn spec_sub(self, rhs: Self) -> Self;

    /// Specification-level multiplication.
    spec fn spec_mul(self, rhs: Self) -> Self;

    /// Specification-level division; only constrained for nonzero divisors.
    spec fn spec_div(self, rhs: Self) -> Self;

    /// The additive identity.
    fn zero() -> (r: Self)
        ensures
            r == Self::spec_zero(),
    ;

    /// The multiplicative identity.
    fn one() -> (r: Self)
        ensures
            r == Self::spec_one(),
    ;

    /// Addition.
    fn plus(self, rhs: Self) -> (r: Self)
        ensures
            r == self.spec_add(rhs),
    ;

    /// Subtraction.
    fn minus(self, rhs: Self) -> (r: Self)
        ensures
            r == self.spec_sub(rhs),
    ;

    /// Multiplication.
    fn times(self, rhs: Self) -> (r: Self)
        ensures
            r == self.spec_mul(rhs),
    ;

    /// Division by a nonzero divisor.
    fn divide(self, rhs: Self) -> (r: Self)
        requires
            rhs != Self::spec_zero(),
        ensures
            r == self.spec_div(rhs),
    ;

    /// Whether this value is the additive identity.
    fn is_zero(&self) -> (r: bool)
        ensures
            r <==> *self == Self::spec_zero(),
    ;

    /// Adding the additive identity changes nothing.
    proof fn lemma_add_zero(a: Self)
        ensures
            a.spec_add(Self::spec_zero()) == a,
    ;

    /// The multiplicative identity is neutral on either side.
    proof fn lemma_mul_one(a: Self)
        ensures
            a.spec_mul(Self::spec_one()) == a,
            Self::spec_one().spec_mul(a) == a,
    ;

    /// Multiplying the additive identity yields the additive identity.
    proof fn lemma_mul_zero(a: Self)
        ensures
            Self::spec_zero().spec_mul(a) == Self::spec_zero(),
            a.spec_mul(Self::spec_zero()) == Self::spec_zero(),
    ;

    /// Subtracting a value from the additive identity negates it.
    proof fn lemma_add_neg(a: Self)
        ensures
            a.spec_add(Self::spec_zero().spec_sub(a)) == Self::spec_zero(),
    ;

    /// Dividing the multiplicative identity by a nonzero value yields its
    /// multiplicative inverse.
    proof fn lemma_div_inverse(a: Self)
        requires
            a != Self::spec_zero(),
        ensures
            a.spec_mul(Self::spec_one().spec_div(a)) == Self::spec_one(),
    ;

    /// The two identities are distinct.
    proof fn lemma_one_nonzero()
        ensures
            Self::spec_one() != Self::spec_zero(),
    ;
}

/// Whether every row of a grid has the same length as its first row.
pub open spec fn rectangular<T>(rows: Seq<Seq<T>>) -> bool {
    forall|i: int| 0 <= i < rows.len() ==> (#[trigger] rows[i]).len() == rows[0].len()
}

/// Rectangular matrix with entries of type `T`: a fixed number of rows, each
/// holding the same fixed number of entries. Viewed as a sequence of rows.
#[derive(Debug, Clone, PartialEq, Eq)]
pub struct Matrix<T: MatrixEntry> {
    data: Vec<Vec<T>>,
    ncols: usize,
}

impl<T: MatrixEntry> View for Matrix<T> {
    type V = Seq<Seq<T>>;

    closed spec fn view(&self) -> Seq<Seq<T>> {
        self.data@.map_values(|r: Vec<T>| r@)
    }
}

impl<T: MatrixEntry> Matrix<T> {
    /// The column count, as a specification-level value.
    pub closed spec fn spec_n_cols(&self) -> nat {
        self.ncols as nat
    }

    /// The matrix invariant: every row holds exactly `spec_n_cols` entries.
    pub open spec fn wf(&self) -> bool {
        forall|r: int| 0 <= r < self@.len() ==> (#[trigger] self@[r]).len() == self.spec_n_cols()
    }

    /// A new [`Matrix`] created from a grid of rows; `None` if the rows do
    /// not all have the same length. An empty grid yields a matrix with zero
    /// rows and zero columns.
    pub fn new(data: Vec<Vec<T>>) -> (r: Option<Matrix<T>>)
        ensures
            r is Some <==> rectangular(data@.map_values(|v: Vec<T>| v@)),
            r matches Some(m) ==> {
                &&& m.wf()
                &&& m@ == data@.map_values(|v: Vec<T>| v@)
                &&& m.spec_n_cols() == (if data@.len() == 0 {
                    0
                } else {
                    data@[0]@.len()
                })
            },
    {
        let ncols: usize = if data.len() == 0 {
            0
        } else {
            data[0].len()
        };
        let mut i: usize = 0;
        let mut ok: bool = true;
        while i < data.len()
            invariant
                i <= data@.len(),
                ncols == (if data@.len() == 0 {
                    0
                } else {
                    data@[0]@.len()
                }),
                ok <==> (forall|k: int| 0 <= k < i ==> (#[trigger] data@[k])@.len() == ncols),
            decreases data@.len() - i,
        {
            if data[i].len() != ncols {
                ok = false;
            }
            i += 1;
        }
        proof {
            let g = data@.map_values(|v: Vec<T>| v@);
            assert(forall|k: int| 0 <= k < g.len() ==> (#[trigger] g[k]) == data@[k]@);
            if ok {
                assert(rectangular(g));
            } else {
                let k = choose|k: int| 0 <= k < data@.len() && (#[trigger] data@[k])@.len()
                    != ncols;
                assert(g[k].len() != g[0].len());
            }
        }
        if ok {
            Some(Matrix { data, ncols })
        } else {
            None
        }
    }

    /// A reference to the entire matrix as a vector of rows.
    pub fn as_slice(&self) -> (r: &Vec<Vec<T>>)
        ensures
            r@.map_values(|v: Vec<T>| v@) == self@,
    {
        &self.data
    }

    /// The number of rows in the matrix.
    pub fn n_rows(&self) -> (r: usize)
        ensures
            r == self@.len(),
    {
        self.data.len()
    }

    /// The number of columns in the matrix.
    pub fn n_cols(&self) -> (r: usize)
        ensures
            r == self.spec_n_cols(),
    {
        self.ncols
    }

    /// A specific entry of the matrix, accessed using zero-based indexing.
    /// If the indices lie outside of the matrix, get `None` instead.
    pub fn get_entry(&self, i: usize, j: usize) -> (r: Option<&T>)
        ensures
            i < self@.len() && j < self@[i as int].len() ==> (r matches Some(e) && *e == self@[i as int][j as int]),
            !(i < self@.len() && j < self@[i as int].len()) ==> r is None,
    {
        if i < self.data.len() && j < self.data[i].len() {
            Some(&self.data[i][j])
        } else {
            None
        }
    }

    /// A specific entry of the matrix for in-place update, accessed using
    /// zero-based indexing. If the indices lie outside of the matrix, get
    /// `None` instead; the matrix is then unchanged.
    pub fn get_mut_entry(&mut self, i: usize, j: usize) -> (r: Option<&mut T>)
        ensures
            i < old(self)@.len() && j < old(self)@[i as int].len() ==> {
                &&& r is Some
                &&& *r.unwrap() == old(self)@[i as int][j as int]
                &&& final(self)@.len() == old(self)@.len()
                &&& (forall|k: int|
                    0 <= k < old(self)@.len() && k != i ==> final(self)@[k] == old(self)@[k])
                &&& final(self)@[i as int] == old(self)@[i as int].update(
                    j as int,
                    *final(r.unwrap()),
                )
                &&& final(self).spec_n_cols() == old(self).spec_n_cols()
            },
            !(i < old(self)@.len() && j < old(self)@[i as int].len()) ==> (r is None
                && *final(self) == *old(self)),
    {
        if i < self.data.len() && j < self.data[i].len() {
            Some(&mut self.data[i][j])
        } else {
            None
        }
    }

    /// A specific entry of the matrix, accessed using one-based indexing.
    /// If the indices lie outside of the matrix, get `None` instead.
    pub fn entry(&self, i: usize, j: usize) -> (r: Option<&T>)
        ensures
            1 <= i && i <= self@.len() && 1 <= j && j <= self@[i - 1].len() ==> (r matches Some(e)
                && *e == self@[i - 1][j - 1]),
            !(1 <= i && i <= self@.len() && 1 <= j && j <= self@[i - 1].len()) ==> r is None,
    {
        if i >= 1 && j >= 1 {
            self.get_entry(i - 1, j - 1)
        } else {
            None
        }
    }

    /// A specific entry of the matrix for in-place update, accessed using
    /// one-based indexing. If the indices lie outside of the matrix, get
    /// `None` instead; the matrix is then unchanged.
    pub fn mut_entry(&mut self, i: usize, j: usize) -> (r: Option<&mut T>)
        ensures
            1 <= i && i <= old(self)@.len() && 1 <= j && j <= old(self)@[i - 1].len() ==> {
                &&& r is Some
                &&& *r.unwrap() == old(self)@[i - 1][j - 1]
                &&& final(self)@.len() == old(self)@.len()
                &&& (forall|k: int|
                    0 <= k < old(self)@.len() && k != i - 1 ==> final(self)@[k] == old(self)@[k])
                &&& final(self)@[i - 1] == old(self)@[i - 1].update(j - 1, *final(r.unwrap()))
                &&& final(self).spec_n_cols() == old(self).spec_n_cols()
            },
            !(1 <= i && i <= old(self)@.len() && 1 <= j && j <= old(self)@[i - 1].len()) ==> (
            r is None && *final(self) == *old(self)),
    {
        if i >= 1 && j >= 1 {
            self.get_mut_entry(i - 1, j - 1)
        } else {
            None
        }
    }

    /// The transpose of a [`Matrix`].
    pub fn transpose(&self) -> (r: Matrix<T>)
        requires
            self.wf(),
        ensures
            r.wf(),
            r@.len() == self.spec_n_cols(),
            r.spec_n_cols() == self@.len(),
            forall|c: int, k: int|
                0 <= c < self.spec_n_cols() && 0 <= k < self@.len() ==> #[trigger] r@[c][k]
                    == self@[k][c],
    {
        let m = self.data.len();
        let n = self.ncols;
        let mut out: Vec<Vec<T>> = Vec::new();
        let mut c: usize = 0;
        while c < n
            invariant
                self.wf(),
                c <= n,
                n == self.spec_n_cols(),
                m == self@.len(),
                out@.len() == c,
                forall|c2: int|
                    0 <= c2 < c ==> (#[trigger] out@[c2])@.len() == m,
                forall|c2: int, k: int|
                    0 <= c2 < c && 0 <= k < m ==> (#[trigger] out@[c2]@[k]) == self@[k][c2],
            decreases n - c,
        {
            let mut row: Vec<T> = Vec::new();
            let mut k: usize = 0;
            while k < m
                invariant
                    self.wf(),
                    c < n,
                    n == self.spec_n_cols(),
                    m == self@.len(),
                    k <= m,
                    row@.len() == k,
                    forall|k2: int| 0 <= k2 < k ==> (#[trigger] row@[k2]) == self@[k2][c as int],
                decreases m - k,
            {
                proof {
                    assert(self@[k as int] == self.data@[k as int]@);
                }
                row.push(self.data[k][c]);
                k += 1;
            }
            out.push(row);
            c += 1;
        }
        Matrix { data: out, ncols: m }
    }

    /// An owned copy of row `i`, at full width.
    fn row_copy(&self, i: usize) -> (r: Vec<T>)
        requires
            i < self@.len(),
        ensures
            r@ == self@[i as int],
    {
        let mut r: Vec<T> = Vec::new();
        let n = self.data[i].len();
        let mut k: usize = 0;
        proof {
            assert(self@[i as int] == self.data@[i as int]@);
        }
        while k < n
            invariant
                i < self@.len(),
                n == self@[i as int].len(),
                self@[i as int] == self.data@[i as int]@,
                k <= n,
                r@.len() == k,
                forall|k2: int| 0 <= k2 < k ==> (#[trigger] r@[k2]) == self@[i as int][k2],
            decreases n - k,
        {
            r.push(self.data[i][k]);
            k += 1;
        }
        proof {
            assert(r@ =~= self@[i as int]);
        }
        r
    }
}

impl<T: MatrixEntry> RowOps<T> for Matrix<T> {
    open spec fn view_rows(&self) -> Seq<Seq<T>> {
        self@
    }

    open spec fn spec_cols(&self) -> nat {
        self.spec_n_cols()
    }

    open spec fn spec_width(&self) -> nat {
        self.spec_n_cols()
    }

    open spec fn wf(&self) -> bool {
        Matrix::wf(self)
    }

    proof fn lemma_wf(&self) {
    }

    fn n_rows(&self) -> (r: usize) {
        self.data.len()
    }

    fn n_cols(&self) -> (r: usize) {
        self.ncols
    }

    /// Swap rows `i` and `j` in place.
    fn swap_rows(&mut self, i: usize, j: usize) {
        let ri = self.row_copy(i);
        let rj = self.row_copy(j);
        self.data[i] = rj;
        self.data[j] = ri;
        proof {
            assert(self@ =~= old(self)@.update(i as int, old(self)@[j as int]).update(
                j as int,
                old(self)@[i as int],
            ));
        }
    }

    /// Scale row `i` by scalar value `a` in place.
    fn scale_row(&mut self, i: usize, a: T) {
        let mut row: Vec<T> = Vec::new();
        let n = self.data[i].len();
        let mut k: usize = 0;
        proof {
            assert(self@[i as int] == self.data@[i as int]@);
        }
        while k < n
            invariant
                i < self@.len(),
                n == self@[i as int].len(),
                self@[i as int] == self.data@[i as int]@,
                k <= n,
                row@.len() == k,
                forall|k2: int|
                    0 <= k2 < k ==> (#[trigger] row@[k2]) == self@[i as int][k2].spec_mul(a),
            decreases n - k,
        {
            row.push(self.data[i][k].times(a));
            k += 1;
        }
        proof {
            assert(row@ =~= crate::row_operations::row_scale_spec(self@[i as int], a));
        }
        self.data[i] = row;
        proof {
            assert(self@ =~= old(self)@.update(
                i as int,
                crate::row_operations::row_scale_spec(old(self)@[i as int], a),
            ));
        }
    }

    /// Replace row `i` with the sum of row `i` and `a` times row `j`.
    fn add_rows(&mut self, i: usize, j: usize, a: T) {
        let mut row: Vec<T> = Vec::new();
        let n = self.data[i].len();
        let mut k: usize = 0;
        proof {
            assert(self@[i as int] == self.data@[i as int]@);
            assert(self@[j as int] == self.data@[j as int]@);
        }
        while k < n
            invariant
                i < self@.len(),
                j < self@.len(),
                n == self@[i as int].len(),
                n == self@[j as int].len(),
                self@[i as int] == self.data@[i as int]@,
                self@[j as int] == self.data@[j as int]@,
                k <= n,
                row@.len() == k,
                forall|k2: int|
                    0 <= k2 < k ==> (#[trigger] row@[k2]) == self@[i as int][k2].spec_add(
                        self@[j as int][k2].spec_mul(a),
                    ),
            decreases n - k,
        {
            row.push(self.data[i][k].plus(self.data[j][k].times(a)));
            k += 1;
        }
        proof {
            assert(row@ =~= crate::row_operations::row_add_spec(
                self@[i as int],
                self@[j as int],
                a,
            ));
        }
        self.data[i] = row;
        proof {
            assert(self@ =~= old(self)@.update(
                i as int,
                crate::row_operations::row_add_spec(
                    old(self)@[i as int],
                    old(self)@[j as int],
                    a,
                ),
            ));
        }
    }

    /// The `i`th row of the matrix, copied out.
    fn get_row(&self, i: usize) -> (r: Vec<T>) {
        proof {
            assert(self.view_rows() == self@);
            assert(self.spec_cols() == self.spec_n_cols());
            assert(RowOps::wf(self) == Matrix::wf(self));
        }
        let r = self.row_copy(i);
        proof {
            assert(r@ =~= self@[i as int].take(self.spec_n_cols() as int));
        }
        r
    }
}

} // verus!
