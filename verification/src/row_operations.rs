//! The row-operations capability and the echelon-reduction algorithm.
//!
//! [`RowOps`] is the polymorphic interface through which the reduction
//! algorithm sees a matrix-like object: it can swap rows, scale a row, add a
//! multiple of one row to another, copy a row out, and report its dimensions.
//! The algorithm itself is a provided method of the trait, so it runs
//! unchanged on a plain [`Matrix`](crate::Matrix) or on an
//! [`AugmentedMatrix`](crate::augmented_matrix::AugmentedMatrix).
use vstd::prelude::*;

use crate::MatrixEntry;

verus! {

/// A row with every entry multiplied by `a`.
pub open spec fn row_scale_spec<T: MatrixEntry>(r: Seq<T>, a: T) -> Seq<T> {
    Seq::new(r.len(), |c: int| r[c].spec_mul(a))
}

/// A row with `a` times the matching entry of `s` added to every entry.
pub open spec fn row_add_spec<T: MatrixEntry>(r: Seq<T>, s: Seq<T>, a: T) -> Seq<T> {
    Seq::new(r.len(), |c: int| r[c].spec_add(s[c].spec_mul(a)))
}

/// One scan of column `j` of grid `g` from row `k` to the bottom, with pivot
/// row `i`. While no pivot has been found, the first nonzero entry of the
/// column is swapped into row `i` and that row is scaled so the entry becomes
/// the multiplicative identity; afterwards, every further nonzero entry is
/// eliminated by adding the matching multiple of row `i`. Returns the
/// resulting grid and whether a pivot was found.
pub open spec fn scan_spec<T: MatrixEntry>(
    g: Seq<Seq<T>>,
    i: int,
    j: int,
    k: int,
    pivot_found: bool,
) -> (Seq<Seq<T>>, bool)
    decreases g.len() - k,
{
    if k < 0 || k >= g.len() || i < 0 || i >= g.len() {
        (g, pivot_found)
    } else if g[k][j] != T::spec_zero() {
        if pivot_found {
            let a = T::spec_zero().spec_sub(T::spec_one().spec_mul(g[k][j]));
            scan_spec(g.update(k, row_add_spec(g[k], g[i], a)), i, j, k + 1, true)
        } else {
            let g1 = g.update(i, g[k]).update(k, g[i]);
            let g2 = g1.update(i, row_scale_spec(g1[i], T::spec_one().spec_div(g1[i][j])));
            scan_spec(g2, i, j, k + 1, true)
        }
    } else {
        scan_spec(g, i, j, k + 1, pivot_found)
    }
}

/// The grid after columns `j .. cols` of the echelon reduction have been
/// processed, starting with pivot row `i`: each column is scanned from row
/// `i` down, and the pivot row advances by one exactly when the column
/// yielded a pivot.
pub open spec fn reduce_spec<T: MatrixEntry>(
    g: Seq<Seq<T>>,
    i: int,
    j: int,
    cols: int,
) -> Seq<Seq<T>>
    decreases cols - j,
{
    if j >= cols {
        g
    } else {
        let s = scan_spec(g, i, j, i, false);
        reduce_spec(
            s.0,
            if s.1 {
                i + 1
            } else {
                i
            },
            j + 1,
            cols,
        )
    }
}

/// The grid the echelon reduction produces from `g`, seeking pivots among the
/// first `cols` columns.
pub open spec fn echelon_spec<T: MatrixEntry>(g: Seq<Seq<T>>, cols: int) -> Seq<Seq<T>> {
    reduce_spec(g, 0, 0, cols)
}

/// Every row of a grid truncated to its first `n` entries.
pub open spec fn left_of<T: MatrixEntry>(g: Seq<Seq<T>>, n: int) -> Seq<Seq<T>> {
    Seq::new(g.len(), |k: int| g[k].take(n))
}

/// A column scan reads entries among the first `n` columns only and
/// recombines rows column by column, so it commutes with truncating every
/// row to those columns; it also keeps every row's width.
proof fn lemma_scan_left_of<T: MatrixEntry>(
    g: Seq<Seq<T>>,
    n: int,
    i: int,
    j: int,
    k: int,
    pf: bool,
)
    requires
        0 <= j < n,
        forall|r: int| 0 <= r < g.len() ==> n <= (#[trigger] g[r]).len(),
    ensures
        scan_spec(left_of(g, n), i, j, k, pf).1 == scan_spec(g, i, j, k, pf).1,
        scan_spec(left_of(g, n), i, j, k, pf).0 == left_of(scan_spec(g, i, j, k, pf).0, n),
        scan_spec(g, i, j, k, pf).0.len() == g.len(),
        forall|r: int|
            0 <= r < g.len() ==> n <= (#[trigger] scan_spec(g, i, j, k, pf).0[r]).len(),
    decreases g.len() - k,
{
    let lg = left_of(g, n);
    if !(k < 0 || k >= g.len() || i < 0 || i >= g.len()) {
        assert(lg[k][j] == g[k][j]);
        if g[k][j] != T::spec_zero() {
            if pf {
                let a = T::spec_zero().spec_sub(T::spec_one().spec_mul(g[k][j]));
                let g1 = g.update(k, row_add_spec(g[k], g[i], a));
                assert(scan_spec(g, i, j, k, pf) == scan_spec(g1, i, j, k + 1, true));
                assert(row_add_spec(g[k], g[i], a).take(n) =~= row_add_spec(lg[k], lg[i], a));
                assert(left_of(g1, n) =~= lg.update(k, row_add_spec(lg[k], lg[i], a)));
                assert(scan_spec(lg, i, j, k, pf) == scan_spec(left_of(g1, n), i, j, k + 1, true));
                assert forall|r: int| 0 <= r < g1.len() implies n <= (#[trigger] g1[r]).len() by {
                    if r != k {
                        assert(g1[r] == g[r]);
                    }
                }
                lemma_scan_left_of(g1, n, i, j, k + 1, true);
            } else {
                let g1 = g.update(i, g[k]).update(k, g[i]);
                let lg1 = lg.update(i, lg[k]).update(k, lg[i]);
                assert(left_of(g1, n) =~= lg1);
                let f = T::spec_one().spec_div(g1[i][j]);
                assert(lg1[i][j] == g1[i][j]);
                let g2 = g1.update(i, row_scale_spec(g1[i], f));
                assert(scan_spec(g, i, j, k, pf) == scan_spec(g2, i, j, k + 1, true));
                assert(row_scale_spec(g1[i], f).take(n) =~= row_scale_spec(lg1[i], f));
                assert(left_of(g2, n) =~= lg1.update(i, row_scale_spec(lg1[i], f)));
                assert(scan_spec(lg, i, j, k, pf) == scan_spec(left_of(g2, n), i, j, k + 1, true));
                assert forall|r: int| 0 <= r < g2.len() implies n <= (#[trigger] g2[r]).len() by {
                    if r == i {
                        assert(g2[i] == row_scale_spec(g1[i], f));
                        assert(g1[i] == g[k]);
                    } else if r == k {
                        assert(g2[r] == g[i]);
                    } else {
                        assert(g2[r] == g[r]);
                    }
                }
                lemma_scan_left_of(g2, n, i, j, k + 1, true);
            }
        } else {
            lemma_scan_left_of(g, n, i, j, k + 1, pf);
        }
    }
}

/// The reduction over the first `n` columns commutes with truncating every
/// row to those columns.
proof fn lemma_reduce_left_of<T: MatrixEntry>(g: Seq<Seq<T>>, n: int, i: int, j: int)
    requires
        0 <= j <= n,
        forall|r: int| 0 <= r < g.len() ==> n <= (#[trigger] g[r]).len(),
    ensures
        reduce_spec(left_of(g, n), i, j, n) == left_of(reduce_spec(g, i, j, n), n),
    decreases n - j,
{
    if j < n {
        lemma_scan_left_of(g, n, i, j, i, false);
        let s = scan_spec(g, i, j, i, false);
        lemma_reduce_left_of(
            s.0,
            n,
            if s.1 {
                i + 1
            } else {
                i
            },
            j + 1,
        );
    }
}

/// Reducing a grid and keeping only its first `n` columns gives the same
/// rows as reducing those columns alone: pivots are sought there only, and
/// every row operation acts column by column.
pub proof fn lemma_echelon_left_of<T: MatrixEntry>(g: Seq<Seq<T>>, n: int)
    requires
        0 <= n,
        forall|r: int| 0 <= r < g.len() ==> n <= (#[trigger] g[r]).len(),
    ensures
        echelon_spec(left_of(g, n), n) == left_of(echelon_spec(g, n), n),
{
    lemma_reduce_left_of(g, n, 0, 0);
}

/// The column of the leading (leftmost nonzero) entry of row `r` among
/// columns `c .. n`; `n` if there is none.
pub open spec fn leading_col_from<T: MatrixEntry>(r: Seq<T>, c: int, n: int) -> int
    decreases n - c,
{
    if c < 0 || c >= n {
        n
    } else if r[c] != T::spec_zero() {
        c
    } else {
        leading_col_from(r, c + 1, n)
    }
}

/// The column of the leading (leftmost nonzero) entry of row `r` among the
/// first `n` columns; `n` if the row is zero there.
pub open spec fn leading_col<T: MatrixEntry>(r: Seq<T>, n: int) -> int {
    leading_col_from(r, 0, n)
}

/// Rows that agree on columns `c .. n` have the same leading column there.
pub proof fn lemma_leading_col_agree<T: MatrixEntry>(r1: Seq<T>, r2: Seq<T>, c: int, n: int)
    requires
        forall|d: int| c <= d < n ==> r1[d] == r2[d],
    ensures
        leading_col_from(r1, c, n) == leading_col_from(r2, c, n),
    decreases n - c,
{
    if !(c < 0 || c >= n) && r1[c] == T::spec_zero() {
        lemma_leading_col_agree(r1, r2, c + 1, n);
    }
}

/// Row echelon form over the first `n` columns: every row with a leading
/// entry has the multiplicative identity there, and each such row's leading
/// entry lies strictly to the right of every earlier row's, so rows that are
/// zero across those columns come last.
pub open spec fn is_row_echelon_form<T: MatrixEntry>(g: Seq<Seq<T>>, n: int) -> bool {
    &&& (forall|r: int|
        0 <= r < g.len() && #[trigger] leading_col(g[r], n) < n ==> g[r][leading_col(g[r], n)]
            == T::spec_one())
    &&& (forall|r1: int, r2: int|
        0 <= r1 < r2 < g.len() && #[trigger] leading_col(g[r2], n) < n ==> #[trigger] leading_col(
            g[r1],
            n,
        ) < leading_col(g[r2], n))
}

/// Rows `p` and below of `g` are zero in columns `0 .. j`.
pub open spec fn zeros_below<T: MatrixEntry>(g: Seq<Seq<T>>, p: int, j: int) -> bool {
    forall|r: int, c: int|
        p <= r < g.len() && 0 <= c < j ==> #[trigger] g[r][c] == T::spec_zero()
}

/// The first `p` rows of `g` form an echelon prefix with pivot columns
/// `piv`: strictly increasing columns below `j`, the multiplicative identity
/// at each pivot, and zeros to its left.
pub open spec fn echelon_prefix<T: MatrixEntry>(
    g: Seq<Seq<T>>,
    piv: Seq<int>,
    p: int,
    j: int,
) -> bool {
    &&& piv.len() == p
    &&& (forall|r: int| 0 <= r < p ==> 0 <= #[trigger] piv[r] < j)
    &&& (forall|r1: int, r2: int| 0 <= r1 < r2 < p ==> #[trigger] piv[r1] < #[trigger] piv[r2])
    &&& (forall|r: int| 0 <= r < p ==> g[r][#[trigger] piv[r]] == T::spec_one())
    &&& (forall|r: int, c: int|
        0 <= r < p && 0 <= c < piv[r] ==> #[trigger] g[r][c] == T::spec_zero())
}

/// Everything strictly left of the leading column of a row is zero, and the
/// leading entry itself, when it exists, is not.
pub proof fn lemma_leading_col_from<T: MatrixEntry>(r: Seq<T>, c: int, n: int)
    requires
        0 <= c <= n,
    ensures
        c <= leading_col_from(r, c, n) <= n,
        forall|d: int| c <= d < leading_col_from(r, c, n) ==> r[d] == T::spec_zero(),
        leading_col_from(r, c, n) < n ==> r[leading_col_from(r, c, n)] != T::spec_zero(),
    decreases n - c,
{
    if c < n && r[c] == T::spec_zero() {
        lemma_leading_col_from(r, c + 1, n);
    }
}

/// A row with zeros in columns `c .. p` and, if `p < n`, a nonzero entry at
/// `p`, has its leading column at `p`.
pub proof fn lemma_leading_col_from_is<T: MatrixEntry>(r: Seq<T>, c: int, n: int, p: int)
    requires
        0 <= c <= p <= n,
        forall|d: int| c <= d < p ==> r[d] == T::spec_zero(),
        p < n ==> r[p] != T::spec_zero(),
    ensures
        leading_col_from(r, c, n) == p,
    decreases p - c,
{
    if c < p {
        lemma_leading_col_from_is(r, c + 1, n, p);
    }
}

/// Replacing a row below an echelon prefix leaves the prefix intact.
proof fn lemma_prefix_update<T: MatrixEntry>(
    g: Seq<Seq<T>>,
    piv: Seq<int>,
    p: int,
    j: int,
    k: int,
    row: Seq<T>,
)
    requires
        echelon_prefix(g, piv, p, j),
        p <= k < g.len(),
    ensures
        echelon_prefix(g.update(k, row), piv, p, j),
{
    let g2 = g.update(k, row);
    assert(forall|r: int| 0 <= r < p ==> #[trigger] g2[r] == g[r]);
}

/// Replacing a row with one that is zero on the first `j` columns preserves
/// `zeros_below`.
proof fn lemma_zeros_below_update<T: MatrixEntry>(
    g: Seq<Seq<T>>,
    p: int,
    j: int,
    k: int,
    row: Seq<T>,
)
    requires
        zeros_below(g, p, j),
        0 <= p,
        p <= k < g.len(),
        forall|c: int| 0 <= c < j ==> row[c] == T::spec_zero(),
    ensures
        zeros_below(g.update(k, row), p, j),
{
    let g2 = g.update(k, row);
    assert forall|r: int, c: int|
        p <= r < g2.len() && 0 <= c < j implies #[trigger] g2[r][c] == T::spec_zero() by {
        if r == k {
            assert(g2[r] == row);
        } else {
            assert(g2[r] == g[r]);
            assert(g[r][c] == T::spec_zero());
        }
    }
}

/// A grid made of an echelon prefix with all pivots placed, over rows that
/// are otherwise zero, is in row echelon form.
pub proof fn lemma_prefix_is_ref<T: MatrixEntry>(g: Seq<Seq<T>>, piv: Seq<int>, p: int, n: int)
    requires
        0 <= p <= g.len(),
        0 <= n,
        echelon_prefix(g, piv, p, n),
        zeros_below(g, p, n),
    ensures
        is_row_echelon_form(g, n),
{
    T::lemma_one_nonzero();
    assert forall|r: int| 0 <= r < g.len() implies #[trigger] leading_col(g[r], n) == (if r < p {
        piv[r]
    } else {
        n
    }) by {
        if r < p {
            lemma_leading_col_from_is(g[r], 0, n, piv[r]);
        } else {
            lemma_leading_col_from_is(g[r], 0, n, n);
        }
    }
}

/// A scan over rows whose entries in column `j` are all zero changes nothing
/// and finds no pivot it did not already have.
proof fn lemma_scan_skips<T: MatrixEntry>(g: Seq<Seq<T>>, i: int, j: int, k: int, pf: bool)
    requires
        forall|r: int| k <= r < g.len() ==> #[trigger] g[r][j] == T::spec_zero(),
    ensures
        scan_spec(g, i, j, k, pf) == (g, pf),
    decreases g.len() - k,
{
    if !(k < 0 || k >= g.len() || i < 0 || i >= g.len()) {
        lemma_scan_skips(g, i, j, k + 1, pf);
    }
}

/// In row echelon form, a row with a leading entry has it no further left
/// than its own index: each earlier row consumes one earlier column.
proof fn lemma_ref_leading_ge<T: MatrixEntry>(g: Seq<Seq<T>>, n: int, r: int)
    requires
        is_row_echelon_form(g, n),
        0 <= n,
        0 <= r < g.len(),
        leading_col(g[r], n) < n,
    ensures
        r <= leading_col(g[r], n),
    decreases r,
{
    lemma_leading_col_from::<T>(g[r], 0, n);
    if r > 0 {
        assert(leading_col(g[r - 1], n) < leading_col(g[r], n));
        lemma_ref_leading_ge(g, n, r - 1);
    }
}

/// In row echelon form, every entry strictly below the main diagonal is
/// zero: the leading entries move right at least as fast as the row index.
pub proof fn lemma_ref_below_diagonal<T: MatrixEntry>(g: Seq<Seq<T>>, n: int)
    requires
        is_row_echelon_form(g, n),
        0 <= n,
    ensures
        forall|r: int, c: int|
            0 <= c < n && c < r < g.len() ==> #[trigger] g[r][c] == T::spec_zero(),
{
    assert forall|r: int, c: int|
        0 <= c < n && c < r < g.len() implies #[trigger] g[r][c] == T::spec_zero() by {
        lemma_leading_col_from::<T>(g[r], 0, n);
        if leading_col(g[r], n) < n {
            lemma_ref_leading_ge(g, n, r);
        }
    }
}

/// In row echelon form over `n` columns, every row past the first `n` is
/// entirely zero there: a grid with more rows than columns ends in zero
/// rows.
pub proof fn lemma_ref_zero_rows<T: MatrixEntry>(g: Seq<Seq<T>>, n: int)
    requires
        is_row_echelon_form(g, n),
        0 <= n,
    ensures
        forall|r: int, c: int|
            n <= r < g.len() && 0 <= c < n ==> #[trigger] g[r][c] == T::spec_zero(),
{
    assert forall|r: int, c: int|
        n <= r < g.len() && 0 <= c < n implies #[trigger] g[r][c] == T::spec_zero() by {
        lemma_leading_col_from::<T>(g[r], 0, n);
        if leading_col(g[r], n) < n {
            lemma_ref_leading_ge(g, n, r);
        }
    }
}

/// From column `j` on, reducing a grid in row echelon form changes nothing,
/// provided the pivot row already stands past every row whose leading entry
/// lies left of `j`.
proof fn lemma_reduce_noop<T: MatrixEntry>(g: Seq<Seq<T>>, i: int, j: int, n: int)
    requires
        is_row_echelon_form(g, n),
        0 <= i <= g.len(),
        0 <= j <= n,
        forall|r: int| 0 <= r < i ==> #[trigger] leading_col(g[r], n) < j,
        forall|r: int| i <= r < g.len() ==> #[trigger] leading_col(g[r], n) >= j,
    ensures
        reduce_spec(g, i, j, n) == g,
    decreases n - j,
{
    if j < n {
        if i < g.len() && leading_col(g[i], n) == j {
            // column j holds the pivot of row i: the scan swaps the row with
            // itself, scales it by one, and eliminates nothing
            lemma_leading_col_from::<T>(g[i], 0, n);
            let g1 = g.update(i, g[i]).update(i, g[i]);
            assert(g1 =~= g);
            assert(g[i][j] == T::spec_one());
            T::lemma_div_inverse(T::spec_one());
            T::lemma_mul_one(T::spec_one().spec_div(T::spec_one()));
            assert(T::spec_one().spec_div(T::spec_one()) == T::spec_one());
            let row = row_scale_spec(g[i], T::spec_one());
            assert forall|c: int| 0 <= c < g[i].len() implies row[c] == g[i][c] by {
                T::lemma_mul_one(g[i][c]);
            }
            assert(row =~= g[i]);
            let g2 = g1.update(i, row);
            assert(g2 =~= g);
            assert forall|r: int| i + 1 <= r < g.len() implies g[r][j] == T::spec_zero() by {
                assert(leading_col(g[i], n) < leading_col(g[r], n) || leading_col(g[r], n) == n);
                lemma_leading_col_from::<T>(g[r], 0, n);
            }
            lemma_scan_skips(g2, i, j, i + 1, true);
            assert(scan_spec(g, i, j, i, false) == (g, true));
            lemma_reduce_noop(g, i + 1, j + 1, n);
        } else {
            // no row at or below `i` has its leading entry in column j, so
            // the scan finds nothing
            assert forall|r: int| i <= r < g.len() implies leading_col(g[r], n) > j by {
                if leading_col(g[r], n) == j && r > i {
                    assert(leading_col(g[i], n) < leading_col(g[r], n));
                }
            }
            assert forall|r: int| i <= r < g.len() implies g[r][j] == T::spec_zero() by {
                lemma_leading_col_from::<T>(g[r], 0, n);
            }
            lemma_scan_skips(g, i, j, i, false);
            lemma_reduce_noop(g, i, j + 1, n);
        }
    }
}

/// Idempotence of the reduction: a grid already in row echelon form over its
/// first `n` columns reduces to itself.
pub proof fn lemma_echelon_idempotent<T: MatrixEntry>(g: Seq<Seq<T>>, n: int)
    requires
        is_row_echelon_form(g, n),
        0 <= n,
    ensures
        echelon_spec(g, n) == g,
{
    assert forall|r: int| 0 <= r < g.len() implies #[trigger] leading_col(g[r], n) >= 0 by {
        lemma_leading_col_from::<T>(g[r], 0, n);
    }
    lemma_reduce_noop(g, 0, 0, n);
}

/// A square `n`-by-`n` grid that is diagonal with nonzero diagonal entries.
pub open spec fn is_diagonal_nonzero<T: MatrixEntry>(g: Seq<Seq<T>>, n: int) -> bool {
    &&& g.len() == n
    &&& (forall|r: int| 0 <= r < n ==> (#[trigger] g[r]).len() == n)
    &&& (forall|r: int, c: int|
        0 <= r < n && 0 <= c < n && r != c ==> #[trigger] g[r][c] == T::spec_zero())
    &&& (forall|r: int| 0 <= r < n ==> #[trigger] g[r][r] != T::spec_zero())
}

/// The `n`-by-`n` identity grid.
pub open spec fn identity_grid<T: MatrixEntry>(n: int) -> Seq<Seq<T>> {
    Seq::new(
        n as nat,
        |r: int|
            Seq::new(
                n as nat,
                |c: int|
                    if r == c {
                        T::spec_one()
                    } else {
                        T::spec_zero()
                    },
            ),
    )
}

/// On a diagonal grid, each column's scan normalizes the diagonal entry and
/// eliminates nothing, so a grid whose first `j` rows are already identity
/// rows reduces to the identity.
proof fn lemma_reduce_diagonal_step<T: MatrixEntry>(g: Seq<Seq<T>>, h: Seq<Seq<T>>, n: int, j: int)
    requires
        is_diagonal_nonzero(g, n),
        0 <= j <= n,
        h.len() == n,
        forall|r: int| 0 <= r < j ==> #[trigger] h[r] == identity_grid::<T>(n)[r],
        forall|r: int| j <= r < n ==> #[trigger] h[r] == g[r],
    ensures
        reduce_spec(h, j, j, n) == identity_grid::<T>(n),
    decreases n - j,
{
    if j == n {
        assert(h =~= identity_grid::<T>(n));
    } else {
        assert(h[j] == g[j]);
        assert(g[j][j] != T::spec_zero());
        let g1 = h.update(j, h[j]).update(j, h[j]);
        assert(g1 =~= h);
        let f = T::spec_one().spec_div(g[j][j]);
        let row = row_scale_spec(h[j], f);
        T::lemma_div_inverse(g[j][j]);
        T::lemma_mul_zero(f);
        assert forall|c: int| 0 <= c < n implies row[c] == identity_grid::<T>(n)[j][c] by {
            if c != j {
                assert(g[j][c] == T::spec_zero());
            }
        }
        assert(row =~= identity_grid::<T>(n)[j]);
        let g2 = g1.update(j, row);
        assert forall|r: int| j + 1 <= r < g2.len() implies g2[r][j] == T::spec_zero() by {
            assert(g2[r] == g[r]);
        }
        lemma_scan_skips(g2, j, j, j + 1, true);
        assert(scan_spec(h, j, j, j, false) == (g2, true));
        assert(g2.len() == n);
        lemma_reduce_diagonal_step(g, g2, n, j + 1);
    }
}

/// Reducing a square diagonal grid with nonzero diagonal entries yields the
/// identity grid.
pub proof fn lemma_reduce_diagonal<T: MatrixEntry>(g: Seq<Seq<T>>, n: int)
    requires
        is_diagonal_nonzero(g, n),
        0 <= n,
    ensures
        echelon_spec(g, n) == identity_grid::<T>(n),
{
    lemma_reduce_diagonal_step(g, g, n, 0);
}

/// Elementary row operations on an object whose entries are scaled by type `T`.
///
/// `view_rows` gives the full stored rows, each of uniform length
/// `spec_width`; `spec_cols` is the column count reported through the
/// interface, which for an augmented composition is the width of the left
/// part only. Pivots are sought among the first `spec_cols` columns; every
/// row operation acts on full rows.
pub trait RowOps<T: MatrixEntry>: Sized {
    /// The rows of the object, in order, at full stored width.
    spec fn view_rows(&self) -> Seq<Seq<T>>;

    /// The column count reported through the interface.
    spec fn spec_cols(&self) -> nat;

    /// The full stored width of every row.
    spec fn spec_width(&self) -> nat;

    /// The object's internal invariant.
    spec fn wf(&self) -> bool;

    /// A well-formed object has uniform rows at least `spec_cols` wide.
    proof fn lemma_wf(&self)
        requires
            self.wf(),
        ensures
            self.spec_cols() <= self.spec_width(),
            forall|r: int|
                0 <= r < self.view_rows().len() ==> (#[trigger] self.view_rows()[r]).len()
                    == self.spec_width(),
    ;

    /// Number of rows.
    fn n_rows(&self) -> (r: usize)
        ensures
            r == self.view_rows().len(),
    ;

    /// Number of columns reported through the interface.
    fn n_cols(&self) -> (r: usize)
        ensures
            r == self.spec_cols(),
    ;

    /// Swap rows `i` and `j` in place.
    fn swap_rows(&mut self, i: usize, j: usize)
        requires
            old(self).wf(),
            i < old(self).view_rows().len(),
            j < old(self).view_rows().len(),
        ensures
            final(self).wf(),
            final(self).spec_cols() == old(self).spec_cols(),
            final(self).spec_width() == old(self).spec_width(),
            final(self).view_rows() == old(self).view_rows().update(
                i as int,
                old(self).view_rows()[j as int],
            ).update(j as int, old(self).view_rows()[i as int]),
    ;

    /// Scale row `i` by scalar value `a` in place.
    fn scale_row(&mut self, i: usize, a: T)
        requires
            old(self).wf(),
            i < old(self).view_rows().len(),
        ensures
            final(self).wf(),
            final(self).spec_cols() == old(self).spec_cols(),
            final(self).spec_width() == old(self).spec_width(),
            final(self).view_rows() == old(self).view_rows().update(
                i as int,
                row_scale_spec(old(self).view_rows()[i as int], a),
            ),
    ;

    /// Replace row `i` with the sum of row `i` and `a` times row `j`.
    fn add_rows(&mut self, i: usize, j: usize, a: T)
        requires
            old(self).wf(),
            i < old(self).view_rows().len(),
            j < old(self).view_rows().len(),
        ensures
            final(self).wf(),
            final(self).spec_cols() == old(self).spec_cols(),
            final(self).spec_width() == old(self).spec_width(),
            final(self).view_rows() == old(self).view_rows().update(
                i as int,
                row_add_spec(
                    old(self).view_rows()[i as int],
                    old(self).view_rows()[j as int],
                    a,
                ),
            ),
    ;

    /// The `i`th row, copied out, truncated to the reported column count.
    fn get_row(&self, i: usize) -> (r: Vec<T>)
        requires
            self.wf(),
            i < self.view_rows().len(),
        ensures
            r@ == self.view_rows()[i as int].take(self.spec_cols() as int),
    ;

    /// Calculate the row echelon form of `self` in place.
    ///
    /// Column by column, the first nonzero entry at or below the current
    /// pivot row is swapped up and scaled into a leading one, every nonzero
    /// entry below it in the same column is eliminated against it, and the
    /// pivot row advances exactly when the column yielded a pivot. The
    /// result is precisely [`echelon_spec`] of the starting rows, and it is
    /// in row echelon form over the reported columns.
    fn transform_to_row_echelon_form(&mut self)
        requires
            old(self).wf(),
        ensures
            final(self).wf(),
            final(self).spec_cols() == old(self).spec_cols(),
            final(self).spec_width() == old(self).spec_width(),
            final(self).view_rows().len() == old(self).view_rows().len(),
            final(self).view_rows() == echelon_spec(
                old(self).view_rows(),
                old(self).spec_cols() as int,
            ),
            is_row_echelon_form(final(self).view_rows(), old(self).spec_cols() as int),
    {
        let ghost g0 = self.view_rows();
        let ghost w = self.spec_width() as int;
        let n = self.n_cols();
        let m = self.n_rows();
        proof {
            self.lemma_wf();
        }
        let mut i: usize = 0;
        let mut j: usize = 0;
        let ghost mut piv: Seq<int> = Seq::<int>::empty();
        while j < n
            invariant
                self.wf(),
                self.spec_cols() == n as nat,
                self.spec_width() == w,
                self.view_rows().len() == m as nat,
                i <= j,
                i <= m,
                j <= n,
                n as int <= w,
                reduce_spec(self.view_rows(), i as int, j as int, n as int) == reduce_spec(
                    g0,
                    0,
                    0,
                    n as int,
                ),
                echelon_prefix(self.view_rows(), piv, i as int, j as int),
                zeros_below(self.view_rows(), i as int, j as int),
            decreases n - j,
        {
            let ghost g_col = self.view_rows();
            let mut pivot_found = false;
            let mut k: usize = i;
            while k < m
                invariant
                    self.wf(),
                    self.spec_cols() == n as nat,
                    self.spec_width() == w,
                    self.view_rows().len() == m as nat,
                    i <= k,
                    k <= m,
                    i <= j,
                    j < n,
                    n as int <= w,
                    scan_spec(self.view_rows(), i as int, j as int, k as int, pivot_found)
                        == scan_spec(g_col, i as int, j as int, i as int, false),
                    echelon_prefix(self.view_rows(), piv, i as int, j as int),
                    zeros_below(self.view_rows(), i as int, j as int),
                    pivot_found ==> i < k,
                    pivot_found ==> self.view_rows()[i as int][j as int] == T::spec_one(),
                    pivot_found ==> (forall|r: int|
                        i < r < k ==> self.view_rows()[r][j as int] == T::spec_zero()),
                    !pivot_found ==> self.view_rows() == g_col,
                    !pivot_found ==> (forall|r: int|
                        i <= r < k ==> self.view_rows()[r][j as int] == T::spec_zero()),
                decreases m - k,
            {
                let ghost gb = self.view_rows();
                proof {
                    self.lemma_wf();
                    assert(gb[k as int].take(n as int).len() == n as int);
                }
                let row_k = self.get_row(k);
                if !row_k[j].is_zero() {
                    proof {
                        assert(gb[k as int][j as int] == row_k@[j as int]);
                    }
                    if pivot_found {
                        let leading = row_k[j];
                        let a = T::zero().minus(T::one().times(leading));
                        self.add_rows(k, i, a);
                        proof {
                            let ga = self.view_rows();
                            let newrow = row_add_spec(gb[k as int], gb[i as int], a);
                            assert(ga == gb.update(k as int, newrow));
                            T::lemma_mul_one(a);
                            T::lemma_mul_one(leading);
                            T::lemma_add_neg(leading);
                            assert(newrow[j as int] == T::spec_zero());
                            T::lemma_mul_zero(a);
                            T::lemma_add_zero(T::spec_zero());
                            assert forall|c: int| 0 <= c < j implies newrow[c] == T::spec_zero() by {
                                assert(gb[k as int][c] == T::spec_zero());
                                assert(gb[i as int][c] == T::spec_zero());
                            }
                            lemma_prefix_update(gb, piv, i as int, j as int, k as int, newrow);
                            lemma_zeros_below_update(gb, i as int, j as int, k as int, newrow);
                            assert(scan_spec(gb, i as int, j as int, k as int, true) == scan_spec(
                                ga,
                                i as int,
                                j as int,
                                k as int + 1,
                                true,
                            ));
                        }
                    } else {
                        pivot_found = true;
                        self.swap_rows(i, k);
                        let prow = self.get_row(i);
                        let pivot_value = prow[j];
                        proof {
                            assert(self.view_rows()[i as int] == gb[k as int]);
                            assert(pivot_value == gb[k as int][j as int]);
                        }
                        self.scale_row(i, T::one().divide(pivot_value));
                        proof {
                            let g1 = gb.update(i as int, gb[k as int]).update(
                                k as int,
                                gb[i as int],
                            );
                            let g2 = g1.update(
                                i as int,
                                row_scale_spec(g1[i as int], T::spec_one().spec_div(pivot_value)),
                            );
                            let ga = self.view_rows();
                            assert(ga == g2);
                            T::lemma_div_inverse(pivot_value);
                            assert(ga[i as int][j as int] == T::spec_one());
                            T::lemma_mul_zero(T::spec_one().spec_div(pivot_value));
                            assert forall|c: int|
                                0 <= c < j implies ga[i as int][c] == T::spec_zero() by {
                                assert(gb[k as int][c] == T::spec_zero());
                            }
                            lemma_prefix_update(gb, piv, i as int, j as int, i as int, g1[i as int]);
                            lemma_prefix_update(g1, piv, i as int, j as int, k as int, g1[k as int]);
                            lemma_prefix_update(g1, piv, i as int, j as int, i as int, g2[i as int]);
                            assert(echelon_prefix(ga, piv, i as int, j as int));
                            lemma_zeros_below_update(gb, i as int, j as int, i as int, gb[k as int]);
                            lemma_zeros_below_update(
                                gb.update(i as int, gb[k as int]),
                                i as int,
                                j as int,
                                k as int,
                                gb[i as int],
                            );
                            lemma_zeros_below_update(g1, i as int, j as int, i as int, g2[i as int]);
                            assert(zeros_below(ga, i as int, j as int));
                            assert(scan_spec(gb, i as int, j as int, k as int, false) == scan_spec(
                                ga,
                                i as int,
                                j as int,
                                k as int + 1,
                                true,
                            ));
                        }
                    }
                } else {
                    proof {
                        assert(gb[k as int][j as int] == T::spec_zero());
                        assert(scan_spec(gb, i as int, j as int, k as int, pivot_found)
                            == scan_spec(gb, i as int, j as int, k as int + 1, pivot_found));
                    }
                }
                k += 1;
            }
            proof {
                assert(scan_spec(self.view_rows(), i as int, j as int, m as int, pivot_found) == (
                self.view_rows(),
                pivot_found,
                ));
                assert(reduce_spec(g_col, i as int, j as int, n as int) == reduce_spec(
                    self.view_rows(),
                    if pivot_found {
                        i as int + 1
                    } else {
                        i as int
                    },
                    j as int + 1,
                    n as int,
                ));
                if pivot_found {
                    piv = piv.push(j as int);
                    assert(echelon_prefix(self.view_rows(), piv, i as int + 1, j as int + 1));
                    assert(zeros_below(self.view_rows(), i as int + 1, j as int + 1));
                } else {
                    assert(echelon_prefix(self.view_rows(), piv, i as int, j as int + 1));
                    assert(zeros_below(self.view_rows(), i as int, j as int + 1));
                }
            }
            if pivot_found {
                i += 1;
            }
            j += 1;
        }
        proof {
            lemma_prefix_is_ref(self.view_rows(), piv, i as int, n as int);
        }
    }
}

} // verus!
