//! Two-dimensional grids backed by ndarray, seen by the proofs as sequences of rows.
use vstd::prelude::*;
use ndarray::Array2;

verus! {

/// A grid of booleans, stored as an ndarray `Array2<bool>`.
#[verifier::external_body]
pub struct BoolGrid {
    cells: Array2<bool>,
}

/// A grid of counts, stored as an ndarray `Array2<u32>`.
#[verifier::external_body]
pub struct CountGrid {
    cells: Array2<u32>,
}

/// The contents of a boolean grid: row `i` is `bool_rows(g)[i]`, and the element at row `i`,
/// column `j` is `bool_rows(g)[i][j]`.
pub uninterp spec fn bool_rows(g: BoolGrid) -> Seq<Seq<bool>>;

/// The contents of a count grid, row by row as for `bool_rows`.
pub uninterp spec fn count_rows(g: CountGrid) -> Seq<Seq<u32>>;

/// `rows` by `cols`, every row of the same length.
pub open spec fn has_shape<T>(g: Seq<Seq<T>>, rows: nat, cols: nat) -> bool {
    &&& g.len() == rows
    &&& forall|i: int| 0 <= i < rows ==> (#[trigger] g[i]).len() == cols
}

impl BoolGrid {
    /// Relies on ndarray's `Array2::from_elem`: a `rows` by `cols` array holding `value`
    /// everywhere (it panics when the product of the non-zero axis lengths overflows `isize`).
    #[verifier::external_body]
    pub(crate) fn filled(rows: usize, cols: usize, value: bool) -> (r: BoolGrid)
        requires
            rows <= isize::MAX,
            cols <= isize::MAX,
            rows * cols <= isize::MAX,
        ensures
            bool_rows(r) == Seq::new(rows as nat, |i: int| Seq::new(cols as nat, |j: int| value)),
    {
        BoolGrid { cells: Array2::from_elem((rows, cols), value) }
    }

    /// Relies on ndarray's indexing by `[i, j]`: the element at row `i`, column `j`.
    #[verifier::external_body]
    pub(crate) fn get(&self, i: usize, j: usize) -> (r: bool)
        requires
            i < bool_rows(*self).len(),
            j < bool_rows(*self)[i as int].len(),
        ensures
            r == bool_rows(*self)[i as int][j as int],
    {
        self.cells[[i, j]]
    }

    /// Relies on ndarray's mutable indexing by `[i, j]`: the element at row `i`, column `j`
    /// becomes `value`, and no other changes.
    #[verifier::external_body]
    pub(crate) fn set(&mut self, i: usize, j: usize, value: bool)
        requires
            i < bool_rows(*old(self)).len(),
            j < bool_rows(*old(self))[i as int].len(),
        ensures
            bool_rows(*final(self)) == bool_rows(*old(self)).update(
                i as int,
                bool_rows(*old(self))[i as int].update(j as int, value),
            ),
    {
        self.cells[[i, j]] = value;
    }
}

impl CountGrid {
    /// Relies on ndarray's `Array2::zeros`: a `rows` by `cols` array of zeros (it panics when
    /// the product of the non-zero axis lengths overflows `isize`).
    #[verifier::external_body]
    pub(crate) fn zeros(rows: usize, cols: usize) -> (r: CountGrid)
        requires
            rows <= isize::MAX,
            cols <= isize::MAX,
            rows * cols <= isize::MAX,
        ensures
            count_rows(r) == Seq::new(rows as nat, |i: int| Seq::new(cols as nat, |j: int| 0u32)),
    {
        CountGrid { cells: Array2::zeros((rows, cols)) }
    }

    /// Relies on ndarray's indexing by `[i, j]`: the element at row `i`, column `j`.
    #[verifier::external_body]
    pub(crate) fn get(&self, i: usize, j: usize) -> (r: u32)
        requires
            i < count_rows(*self).len(),
            j < count_rows(*self)[i as int].len(),
        ensures
            r == count_rows(*self)[i as int][j as int],
    {
        self.cells[[i, j]]
    }

    /// Relies on ndarray's mutable indexing by `[i, j]`: the element at row `i`, column `j`
    /// becomes `value`, and no other changes.
    #[verifier::external_body]
    pub(crate) fn set(&mut self, i: usize, j: usize, value: u32)
        requires
            i < count_rows(*old(self)).len(),
            j < count_rows(*old(self))[i as int].len(),
        ensures
            count_rows(*final(self)) == count_rows(*old(self)).update(
                i as int,
                count_rows(*old(self))[i as int].update(j as int, value),
            ),
    {
        self.cells[[i, j]] = value;
    }
}

/// 1 where `(i, j)` lies on the grid and holds `true`, else 0.
pub open spec fn cell_value(g: Seq<Seq<bool>>, i: int, j: int) -> int {
    if 0 <= i < g.len() && 0 <= j < g[i].len() && g[i][j] {
        1
    } else {
        0
    }
}

/// The number of `true` entries among the up to eight cells around `(i, j)`; positions off
/// the grid count for nothing.
pub open spec fn around(g: Seq<Seq<bool>>, i: int, j: int) -> int {
    cell_value(g, i - 1, j - 1) + cell_value(g, i - 1, j) + cell_value(g, i - 1, j + 1)
        + cell_value(g, i, j - 1) + cell_value(g, i, j + 1) + cell_value(g, i + 1, j - 1)
        + cell_value(g, i + 1, j) + cell_value(g, i + 1, j + 1)
}

/// The value at `(i - 1, j - 1)`: 1 for a `true` cell on the grid, else 0.
fn shifted_value(g: &BoolGrid, h: usize, w: usize, i: usize, j: usize) -> (r: u32)
    requires
        has_shape(bool_rows(*g), h as nat, w as nat),
        h * w <= isize::MAX,
        w > 0,
        i <= h + 1,
        j <= w + 1,
    ensures
        r as int == cell_value(bool_rows(*g), i - 1, j - 1),
{
    if i >= 1 && j >= 1 && i - 1 < h && j - 1 < w && g.get(i - 1, j - 1) {
        1
    } else {
        0
    }
}

/// The number of `true` cells around `(i, j)`.
pub(crate) fn count_around(g: &BoolGrid, h: usize, w: usize, i: usize, j: usize) -> (r: u32)
    requires
        has_shape(bool_rows(*g), h as nat, w as nat),
        h * w <= isize::MAX,
        i < h,
        j < w,
    ensures
        r as int == around(bool_rows(*g), i as int, j as int),
        r <= 8,
{
    assert(h <= h * w && w <= h * w) by (nonlinear_arith)
        requires
            w > 0,
            h > 0,
    ;
    shifted_value(g, h, w, i, j) + shifted_value(g, h, w, i, j + 1) + shifted_value(
        g,
        h,
        w,
        i,
        j + 2,
    ) + shifted_value(g, h, w, i + 1, j) + shifted_value(g, h, w, i + 1, j + 2) + shifted_value(
        g,
        h,
        w,
        i + 2,
        j,
    ) + shifted_value(g, h, w, i + 2, j + 1) + shifted_value(g, h, w, i + 2, j + 2)
}

/// The grid of mine counts: for every cell, the number of mines around it, in one pass over
/// the whole grid.
pub(crate) fn neighbor_counts(mines: &BoolGrid, h: usize, w: usize) -> (r: CountGrid)
    requires
        has_shape(bool_rows(*mines), h as nat, w as nat),
        h <= isize::MAX,
        w <= isize::MAX,
        h * w <= isize::MAX,
        w > 0,
    ensures
        has_shape(count_rows(r), h as nat, w as nat),
        forall|i: int, j: int|
            0 <= i < h && 0 <= j < w ==> (#[trigger] count_rows(r)[i][j]) as int == around(
                bool_rows(*mines),
                i,
                j,
            ),
{
    let mut nn = CountGrid::zeros(h, w);
    let mut i: usize = 0;
    while i < h
        invariant
            i <= h,
            has_shape(bool_rows(*mines), h as nat, w as nat),
            h * w <= isize::MAX,
            has_shape(count_rows(nn), h as nat, w as nat),
            forall|a: int, b: int|
                0 <= a < i && 0 <= b < w ==> (#[trigger] count_rows(nn)[a][b]) as int == around(
                    bool_rows(*mines),
                    a,
                    b,
                ),
        decreases h - i,
    {
        let mut j: usize = 0;
        while j < w
            invariant
                i < h,
                j <= w,
                has_shape(bool_rows(*mines), h as nat, w as nat),
                h * w <= isize::MAX,
                has_shape(count_rows(nn), h as nat, w as nat),
                forall|a: int, b: int|
                    (0 <= a < i && 0 <= b < w) || (a == i && 0 <= b < j) ==> (#[trigger] count_rows(
                        nn,
                    )[a][b]) as int == around(bool_rows(*mines), a, b),
            decreases w - j,
        {
            let n = count_around(mines, h, w, i, j);
            nn.set(i, j, n);
            j += 1;
        }
        i += 1;
    }
    nn
}

/// On a grid of at most `isize::MAX` cells, a side is that short too unless the other
/// side is empty.
pub(crate) proof fn lemma_sides_bounded(h: int, w: int)
    requires
        0 <= h,
        0 <= w,
        h * w <= isize::MAX,
    ensures
        w > 0 ==> h <= isize::MAX,
        h > 0 ==> w <= isize::MAX,
{
    assert(w > 0 ==> h <= h * w) by (nonlinear_arith)
        requires
            0 <= h,
    ;
    assert(h > 0 ==> w <= h * w) by (nonlinear_arith)
        requires
            0 <= w,
    ;
}

} // verus!
