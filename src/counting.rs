//! Counting the `true` entries of rows and grids.
use vstd::prelude::*;

use crate::grid::has_shape;

verus! {

/// The number of `true` entries of a row.
pub open spec fn row_count(r: Seq<bool>) -> nat
    decreases r.len(),
{
    if r.len() == 0 {
        0
    } else {
        row_count(r.drop_last()) + if r.last() {
            1nat
        } else {
            0nat
        }
    }
}

/// The number of `true` entries of a grid.
pub open spec fn grid_count(g: Seq<Seq<bool>>) -> nat
    decreases g.len(),
{
    if g.len() == 0 {
        0
    } else {
        grid_count(g.drop_last()) + row_count(g.last())
    }
}

/// A grid of `rows` by `cols` entries, all equal to `value`.
pub open spec fn uniform(rows: nat, cols: nat, value: bool) -> Seq<Seq<bool>> {
    Seq::new(rows, |i: int| Seq::new(cols, |j: int| value))
}

pub(crate) proof fn lemma_row_count_update(r: Seq<bool>, j: int, v: bool)
    requires
        0 <= j < r.len(),
    ensures
        row_count(r.update(j, v)) + (if r[j] { 1int } else { 0int }) == row_count(r) + (if v {
            1int
        } else {
            0int
        }),
    decreases r.len(),
{
    if j == r.len() - 1 {
        assert(r.update(j, v).drop_last() =~= r.drop_last());
    } else {
        lemma_row_count_update(r.drop_last(), j, v);
        assert(r.update(j, v).drop_last() =~= r.drop_last().update(j, v));
    }
}

pub(crate) proof fn lemma_grid_count_update_row(g: Seq<Seq<bool>>, i: int, row: Seq<bool>)
    requires
        0 <= i < g.len(),
    ensures
        grid_count(g.update(i, row)) + row_count(g[i]) == grid_count(g) + row_count(row),
    decreases g.len(),
{
    if i == g.len() - 1 {
        assert(g.update(i, row).drop_last() =~= g.drop_last());
    } else {
        lemma_grid_count_update_row(g.drop_last(), i, row);
        assert(g.update(i, row).drop_last() =~= g.drop_last().update(i, row));
    }
}

/// Setting one entry of a grid changes its count by the difference.
pub(crate) proof fn lemma_grid_count_set(g: Seq<Seq<bool>>, i: int, j: int, v: bool)
    requires
        0 <= i < g.len(),
        0 <= j < g[i].len(),
    ensures
        grid_count(g.update(i, g[i].update(j, v))) + (if g[i][j] { 1int } else { 0int })
            == grid_count(g) + (if v { 1int } else { 0int }),
{
    lemma_row_count_update(g[i], j, v);
    lemma_grid_count_update_row(g, i, g[i].update(j, v));
}

pub(crate) proof fn lemma_row_count_bound(r: Seq<bool>)
    ensures
        row_count(r) <= r.len(),
    decreases r.len(),
{
    if r.len() > 0 {
        lemma_row_count_bound(r.drop_last());
    }
}

pub(crate) proof fn lemma_grid_count_bound(g: Seq<Seq<bool>>, rows: nat, cols: nat)
    requires
        has_shape(g, rows, cols),
    ensures
        grid_count(g) <= rows * cols,
    decreases g.len(),
{
    if g.len() > 0 {
        let h = (rows - 1) as nat;
        assert(has_shape(g.drop_last(), h, cols));
        lemma_grid_count_bound(g.drop_last(), h, cols);
        lemma_row_count_bound(g.last());
        assert(h * cols + cols == rows * cols) by (nonlinear_arith)
            requires
                h + 1 == rows,
        ;
    }
}

pub(crate) proof fn lemma_row_count_uniform_false(n: nat)
    ensures
        row_count(Seq::new(n, |j: int| false)) == 0,
    decreases n,
{
    if n > 0 {
        assert(Seq::new(n, |j: int| false).drop_last() =~= Seq::new((n - 1) as nat, |j: int| false));
        lemma_row_count_uniform_false((n - 1) as nat);
    }
}

pub(crate) proof fn lemma_grid_count_uniform_false(rows: nat, cols: nat)
    ensures
        grid_count(uniform(rows, cols, false)) == 0,
    decreases rows,
{
    if rows > 0 {
        assert(uniform(rows, cols, false).drop_last() =~= uniform((rows - 1) as nat, cols, false));
        lemma_grid_count_uniform_false((rows - 1) as nat, cols);
        assert(uniform(rows, cols, false).last() =~= Seq::new(cols, |j: int| false));
        lemma_row_count_uniform_false(cols);
    }
}

// ---------------------------------------------------------------------------------------------
// Facts about counts and floods
// ---------------------------------------------------------------------------------------------

/// The negation of every entry of a grid.
pub open spec fn negated(g: Seq<Seq<bool>>) -> Seq<Seq<bool>> {
    Seq::new(g.len(), |i: int| Seq::new(g[i].len(), |j: int| !g[i][j]))
}

pub(crate) proof fn lemma_row_count_complement(r: Seq<bool>)
    ensures
        row_count(r) + row_count(Seq::new(r.len(), |j: int| !r[j])) == r.len(),
    decreases r.len(),
{
    if r.len() > 0 {
        let n = Seq::new(r.len(), |j: int| !r[j]);
        lemma_row_count_complement(r.drop_last());
        assert(n.drop_last() =~= Seq::new(r.drop_last().len(), |j: int| !r.drop_last()[j]));
    }
}

pub(crate) proof fn lemma_grid_count_complement(g: Seq<Seq<bool>>, rows: nat, cols: nat)
    requires
        has_shape(g, rows, cols),
    ensures
        grid_count(g) + grid_count(negated(g)) == rows * cols,
    decreases g.len(),
{
    if g.len() > 0 {
        let h = (rows - 1) as nat;
        assert(has_shape(g.drop_last(), h, cols));
        lemma_grid_count_complement(g.drop_last(), h, cols);
        assert(g.last().len() == cols) by {
            assert(g[rows - 1].len() == cols);
        }
        assert(negated(g).drop_last() =~= negated(g.drop_last()));
        lemma_row_count_complement(g.last());
        assert(negated(g).last() =~= Seq::new(g.last().len(), |j: int| !g.last()[j]));
        assert(grid_count(negated(g)) == grid_count(negated(g).drop_last()) + row_count(
            negated(g).last(),
        ));
        assert(h * cols + cols == rows * cols) by (nonlinear_arith)
            requires
                h + 1 == rows,
        ;
    } else {
        assert(rows * cols == 0) by (nonlinear_arith)
            requires
                rows == 0,
        ;
    }
}

/// Where every `true` entry of `a` is `true` in `b`, `a` counts no more than `b`, and the
/// same only when the two agree everywhere.
pub(crate) proof fn lemma_row_count_le(a: Seq<bool>, b: Seq<bool>)
    requires
        a.len() == b.len(),
        forall|k: int| 0 <= k < a.len() && #[trigger] a[k] ==> b[k],
    ensures
        row_count(a) <= row_count(b),
        row_count(a) == row_count(b) ==> a == b,
    decreases a.len(),
{
    if a.len() > 0 {
        lemma_row_count_le(a.drop_last(), b.drop_last());
        if row_count(a) == row_count(b) {
            assert(a.drop_last() == b.drop_last());
            assert(a =~= b) by {
                assert forall|k: int| 0 <= k < a.len() implies a[k] == b[k] by {
                    if k < a.len() - 1 {
                        assert(a.drop_last()[k] == b.drop_last()[k]);
                    }
                }
            }
        }
    }
}

pub(crate) proof fn lemma_grid_count_le(a: Seq<Seq<bool>>, b: Seq<Seq<bool>>, rows: nat, cols: nat)
    requires
        has_shape(a, rows, cols),
        has_shape(b, rows, cols),
        forall|i: int, j: int| 0 <= i < rows && 0 <= j < cols && #[trigger] a[i][j] ==> b[i][j],
    ensures
        grid_count(a) <= grid_count(b),
        grid_count(a) == grid_count(b) ==> forall|i: int, j: int|
            0 <= i < rows && 0 <= j < cols ==> #[trigger] a[i][j] == b[i][j],
    decreases a.len(),
{
    if a.len() > 0 {
        let h = (rows - 1) as nat;
        assert(has_shape(a.drop_last(), h, cols));
        assert(has_shape(b.drop_last(), h, cols));
        assert forall|i: int, j: int| 0 <= i < h && 0 <= j < cols && #[trigger] a.drop_last()[i][j] implies b.drop_last()[i][j] by {
            assert(a[i][j]);
        }
        lemma_grid_count_le(a.drop_last(), b.drop_last(), h, cols);
        assert forall|k: int| 0 <= k < a.last().len() && #[trigger] a.last()[k] implies b.last()[k] by {
            assert(a[rows - 1][k]);
        }
        lemma_row_count_le(a.last(), b.last());
        if grid_count(a) == grid_count(b) {
            assert forall|i: int, j: int| 0 <= i < rows && 0 <= j < cols implies #[trigger] a[i][j] == b[i][j] by {
                if i < h {
                    assert(a.drop_last()[i][j] == b.drop_last()[i][j]);
                } else {
                    assert(a.last()[j] == b.last()[j]);
                }
            }
        }
    }
}

} // verus!
