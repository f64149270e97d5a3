//! Square-matrix specializations.
use vstd::prelude::*;

use crate::Matrix;
use crate::MatrixEntry;
use crate::rectangular;
use crate::row_operations::identity_grid;

verus! {

/// A [`Matrix`] used as a square matrix: one whose row and column counts
/// agree, which the contracts of the operations below require.
pub type SquareMatrix<T> = Matrix<T>;

/// The sum of the first `k` diagonal entries of a grid.
pub open spec fn diag_sum_spec<T: MatrixEntry>(g: Seq<Seq<T>>, k: int) -> T
    decreases k,
{
    if k <= 1 {
        g[0][0]
    } else {
        diag_sum_spec(g, k - 1).spec_add(g[k - 1][k - 1])
    }
}

impl<T: MatrixEntry> SquareMatrix<T> {
    /// The `n`-by-`n` identity matrix: the multiplicative identity down the
    /// diagonal and the additive identity everywhere else, the usual right
    /// part when an augmented composition is reduced to invert its left.
    pub fn identity(n: usize) -> (r: SquareMatrix<T>)
        ensures
            r.wf(),
            r@ == identity_grid::<T>(n as int),
            r@.len() == n,
            r.spec_n_cols() == n,
    {
        let mut rows: Vec<Vec<T>> = Vec::new();
        let mut i: usize = 0;
        while i < n
            invariant
                i <= n,
                rows@.len() == i,
                forall|k: int|
                    0 <= k < i ==> (#[trigger] rows@[k])@ == identity_grid::<T>(n as int)[k],
            decreases n - i,
        {
            let mut row: Vec<T> = Vec::new();
            let mut j: usize = 0;
            while j < n
                invariant
                    i < n,
                    j <= n,
                    row@.len() == j,
                    forall|c: int|
                        0 <= c < j ==> (#[trigger] row@[c]) == (if c == i {
                            T::spec_one()
                        } else {
                            T::spec_zero()
                        }),
                decreases n - j,
            {
                if j == i {
                    row.push(T::one());
                } else {
                    row.push(T::zero());
                }
                j += 1;
            }
            proof {
                assert(row@ =~= identity_grid::<T>(n as int)[i as int]);
            }
            rows.push(row);
            i += 1;
        }
        proof {
            assert(rectangular(rows@.map_values(|v: Vec<T>| v@)));
        }
        let r = Matrix::new(rows).unwrap();
        proof {
            assert(r@ =~= identity_grid::<T>(n as int));
        }
        r
    }

    /// The trace of a nonempty square matrix: the sum of its diagonal
    /// entries.
    pub fn trace(&self) -> (r: T)
        requires
            self.wf(),
            self@.len() == self.spec_n_cols(),
            self@.len() >= 1,
        ensures
            r == diag_sum_spec(self@, self@.len() as int),
    {
        let n = self.n_rows();
        let mut t: T = *self.get_entry(0, 0).unwrap();
        let mut i: usize = 1;
        while i < n
            invariant
                self.wf(),
                n == self@.len(),
                n == self.spec_n_cols(),
                1 <= i <= n,
                t == diag_sum_spec(self@, i as int),
            decreases n - i,
        {
            t = t.plus(*self.get_entry(i, i).unwrap());
            i += 1;
        }
        t
    }
}

} // verus!
