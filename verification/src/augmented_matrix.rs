//! The augmented composition `[left | right]`: two matrices of equal row
//! count reduced in lock-step, the standard device for solving linear systems
//! or computing inverses.
use vstd::prelude::*;

use crate::Matrix;
use crate::MatrixEntry;
use crate::row_operations::RowOps;
use crate::row_operations::echelon_spec;
use crate::row_operations::is_row_echelon_form;
use crate::row_operations::leading_col;
use crate::row_operations::left_of;
use crate::row_operations::lemma_echelon_left_of;
use crate::row_operations::lemma_leading_col_agree;
use crate::row_operations::lemma_leading_col_from;
use crate::row_operations::row_add_spec;
use crate::row_operations::row_scale_spec;

verus! {

/// Rectangular matrix `[a | b]` formed by augmenting a matrix `a` with a
/// matrix `b` of equal row count. Every row operation is applied identically,
/// by row index, to both parts; row introspection through the row-operations
/// interface reports only the left part.
#[derive(Debug, Clone, PartialEq, Eq)]
pub struct AugmentedMatrix<T: MatrixEntry> {
    left: Matrix<T>,
    right: Matrix<T>,
}

impl<T: MatrixEntry> AugmentedMatrix<T> {
    /// The rows of the left part.
    pub closed spec fn left_view(&self) -> Seq<Seq<T>> {
        self.left@
    }

    /// The rows of the right part.
    pub closed spec fn right_view(&self) -> Seq<Seq<T>> {
        self.right@
    }

    /// The column count of the left part.
    pub closed spec fn left_cols(&self) -> nat {
        self.left.spec_n_cols()
    }

    /// The column count of the right part.
    pub closed spec fn right_cols(&self) -> nat {
        self.right.spec_n_cols()
    }

    /// The composition invariant: both parts are well-formed matrices with
    /// the same number of rows.
    pub open spec fn wf(&self) -> bool {
        &&& self.spec_left().wf()
        &&& self.spec_right().wf()
        &&& self.left_view().len() == self.right_view().len()
    }

    /// The left part, as a specification-level value.
    pub closed spec fn spec_left(&self) -> Matrix<T> {
        self.left
    }

    /// The right part, as a specification-level value.
    pub closed spec fn spec_right(&self) -> Matrix<T> {
        self.right
    }

    /// Append matrix `b` to the matrix `a`, creating the augmented matrix
    /// `[a | b]`; `None` if the row counts differ.
    pub fn new(a: Matrix<T>, b: Matrix<T>) -> (r: Option<AugmentedMatrix<T>>)
        requires
            a.wf(),
            b.wf(),
        ensures
            r is Some <==> a@.len() == b@.len(),
            r matches Some(c) ==> c.wf() && c.spec_left() == a && c.spec_right() == b,
    {
        if a.n_rows() == b.n_rows() {
            Some(AugmentedMatrix { left: a, right: b })
        } else {
            None
        }
    }

    /// Left hand part of the augmented matrix.
    pub fn get_left(&self) -> (r: &Matrix<T>)
        ensures
            r == self.spec_left(),
            r@ == self.left_view(),
            r.spec_n_cols() == self.left_cols(),
    {
        &self.left
    }

    /// Right hand part of the augmented matrix.
    pub fn get_right(&self) -> (r: &Matrix<T>)
        ensures
            r == self.spec_right(),
            r@ == self.right_view(),
            r.spec_n_cols() == self.right_cols(),
    {
        &self.right
    }

    /// The row model the operations speak of and the parts the accessors
    /// return are the same data: `left_view` and `right_view` are the views
    /// of the two parts, and `left_cols` and `right_cols` their column
    /// counts.
    pub proof fn lemma_parts_are_views(&self)
        ensures
            self.left_view() == self.spec_left()@,
            self.right_view() == self.spec_right()@,
            self.left_cols() == self.spec_left().spec_n_cols(),
            self.right_cols() == self.spec_right().spec_n_cols(),
    {
    }

    /// Each part can be read back from a row of the composition: the left
    /// part is the first `left_cols` entries, the right part the rest.
    pub proof fn lemma_parts_of_view(&self)
        requires
            self.wf(),
        ensures
            self.view_rows().len() == self.left_view().len(),
            forall|r: int|
                0 <= r < self.left_view().len() ==> #[trigger] self.left_view()[r]
                    == self.view_rows()[r].take(self.left_cols() as int),
            forall|r: int|
                0 <= r < self.right_view().len() ==> #[trigger] self.right_view()[r]
                    == self.view_rows()[r].skip(self.left_cols() as int),
    {
        assert forall|r: int|
            0 <= r < self.left_view().len() implies #[trigger] self.left_view()[r]
            == self.view_rows()[r].take(self.left_cols() as int) by {
            assert(self.left_view()[r] =~= (self.left_view()[r] + self.right_view()[r]).take(
                self.left_cols() as int,
            ));
        }
        assert forall|r: int|
            0 <= r < self.right_view().len() implies #[trigger] self.right_view()[r]
            == self.view_rows()[r].skip(self.left_cols() as int) by {
            assert(self.right_view()[r] =~= (self.left_view()[r] + self.right_view()[r]).skip(
                self.left_cols() as int,
            ));
        }
    }

    /// Reducing the composition reduces the left part exactly as reducing it
    /// alone would: the left columns of the echelon reduction of the glued
    /// rows are the echelon reduction of the left part, while the right part
    /// receives the identical sequence of row combinations.
    pub proof fn lemma_reduction_reduces_left_part(&self)
        requires
            self.wf(),
        ensures
            left_of(self.view_rows(), self.left_cols() as int) == self.left_view(),
            left_of(
                echelon_spec(self.view_rows(), self.left_cols() as int),
                self.left_cols() as int,
            ) == echelon_spec(self.left_view(), self.left_cols() as int),
    {
        let n = self.left_cols() as int;
        self.lemma_parts_of_view();
        assert(left_of(self.view_rows(), n) =~= self.left_view());
        assert forall|r: int|
            0 <= r < self.view_rows().len() implies n <= (#[trigger] self.view_rows()[r]).len() by {
            assert(self.view_rows()[r] == self.left_view()[r] + self.right_view()[r]);
            assert(self.left_view()[r].len() == self.left_cols());
        }
        lemma_echelon_left_of::<T>(self.view_rows(), n);
    }

    /// When the composition stands in row echelon form over the left column
    /// count, so does its left part on its own: the reduction of an
    /// augmented composition brings the left part to row echelon form while
    /// the right part receives the identical row combinations.
    pub proof fn lemma_left_part_echelon(&self)
        requires
            self.wf(),
            is_row_echelon_form(self.view_rows(), self.left_cols() as int),
        ensures
            is_row_echelon_form(self.left_view(), self.left_cols() as int),
    {
        let n = self.left_cols() as int;
        let g = self.view_rows();
        let l = self.left_view();
        assert forall|r: int|
            0 <= r < l.len() implies #[trigger] leading_col(l[r], n) == leading_col(g[r], n) by {
            assert(forall|d: int| 0 <= d < n ==> l[r][d] == #[trigger] g[r][d]);
            lemma_leading_col_agree::<T>(l[r], g[r], 0, n);
        }
        assert forall|r: int|
            0 <= r < l.len() && #[trigger] leading_col(l[r], n) < n implies l[r][leading_col(
            l[r],
            n,
        )] == T::spec_one() by {
            lemma_leading_col_from::<T>(l[r], 0, n);
            assert(g[r][leading_col(g[r], n)] == T::spec_one());
            assert(l[r][leading_col(l[r], n)] == g[r][leading_col(g[r], n)]);
        }
        assert forall|r1: int, r2: int|
            0 <= r1 < r2 < l.len() && #[trigger] leading_col(l[r2], n) < n implies #[trigger] leading_col(
            l[r1],
            n,
        ) < leading_col(l[r2], n) by {
            assert(leading_col(g[r1], n) < leading_col(g[r2], n));
        }
    }
}

impl<T: MatrixEntry> RowOps<T> for AugmentedMatrix<T> {
    open spec fn view_rows(&self) -> Seq<Seq<T>> {
        Seq::new(self.left_view().len(), |r: int| self.left_view()[r] + self.right_view()[r])
    }

    open spec fn spec_cols(&self) -> nat {
        self.left_cols()
    }

    open spec fn spec_width(&self) -> nat {
        self.left_cols() + self.right_cols()
    }

    open spec fn wf(&self) -> bool {
        &&& self.spec_left().wf()
        &&& self.spec_right().wf()
        &&& self.left_view().len() == self.right_view().len()
    }

    proof fn lemma_wf(&self) {
    }

    /// The number of rows shared by the two parts.
    fn n_rows(&self) -> (r: usize) {
        self.left.n_rows()
    }

    /// The number of columns of the left part; the right part's width is not
    /// reported through this interface.
    fn n_cols(&self) -> (r: usize) {
        self.left.n_cols()
    }

    /// Swap rows `i` and `j` of both parts in place.
    fn swap_rows(&mut self, i: usize, j: usize)
        ensures
            final(self).left_view() == old(self).left_view().update(
                i as int,
                old(self).left_view()[j as int],
            ).update(j as int, old(self).left_view()[i as int]),
            final(self).right_view() == old(self).right_view().update(
                i as int,
                old(self).right_view()[j as int],
            ).update(j as int, old(self).right_view()[i as int]),
            final(self).left_cols() == old(self).left_cols(),
            final(self).right_cols() == old(self).right_cols(),
    {
        self.left.swap_rows(i, j);
        self.right.swap_rows(i, j);
        proof {
            assert(self.view_rows() =~= old(self).view_rows().update(
                i as int,
                old(self).view_rows()[j as int],
            ).update(j as int, old(self).view_rows()[i as int]));
        }
    }

    /// Scale row `i` of both parts by scalar value `a` in place.
    fn scale_row(&mut self, i: usize, a: T)
        ensures
            final(self).left_view() == old(self).left_view().update(
                i as int,
                row_scale_spec(old(self).left_view()[i as int], a),
            ),
            final(self).right_view() == old(self).right_view().update(
                i as int,
                row_scale_spec(old(self).right_view()[i as int], a),
            ),
            final(self).left_cols() == old(self).left_cols(),
            final(self).right_cols() == old(self).right_cols(),
    {
        self.left.scale_row(i, a);
        self.right.scale_row(i, a);
        proof {
            assert(row_scale_spec(old(self).view_rows()[i as int], a) =~= row_scale_spec(
                old(self).left_view()[i as int],
                a,
            ) + row_scale_spec(old(self).right_view()[i as int], a));
            assert(self.view_rows() =~= old(self).view_rows().update(
                i as int,
                row_scale_spec(old(self).view_rows()[i as int], a),
            ));
        }
    }

    /// Replace row `i` of each part with the sum of its row `i` and `a`
    /// times its row `j`.
    fn add_rows(&mut self, i: usize, j: usize, a: T)
        ensures
            final(self).left_view() == old(self).left_view().update(
                i as int,
                row_add_spec(
                    old(self).left_view()[i as int],
                    old(self).left_view()[j as int],
                    a,
                ),
            ),
            final(self).right_view() == old(self).right_view().update(
                i as int,
                row_add_spec(
                    old(self).right_view()[i as int],
                    old(self).right_view()[j as int],
                    a,
                ),
            ),
            final(self).left_cols() == old(self).left_cols(),
            final(self).right_cols() == old(self).right_cols(),
    {
        self.left.add_rows(i, j, a);
        self.right.add_rows(i, j, a);
        proof {
            assert(row_add_spec(
                old(self).view_rows()[i as int],
                old(self).view_rows()[j as int],
                a,
            ) =~= row_add_spec(
                old(self).left_view()[i as int],
                old(self).left_view()[j as int],
                a,
            ) + row_add_spec(
                old(self).right_view()[i as int],
                old(self).right_view()[j as int],
                a,
            ));
            assert(self.view_rows() =~= old(self).view_rows().update(
                i as int,
                row_add_spec(
                    old(self).view_rows()[i as int],
                    old(self).view_rows()[j as int],
                    a,
                ),
            ));
        }
    }

    /// The `i`th row of the left part only, copied out; the right part's
    /// values are reachable through [`AugmentedMatrix::get_right`].
    fn get_row(&self, i: usize) -> (r: Vec<T>)
        ensures
            r@ == self.left_view()[i as int],
    {
        let r = self.left.get_row(i);
        proof {
            assert(r@ =~= self.view_rows()[i as int].take(self.spec_cols() as int));
        }
        r
    }
}

} // verus!

