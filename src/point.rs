//! Grid coordinates.
use vstd::prelude::*;

verus! {

/// A cell position: row `i`, column `j`.
#[derive(Clone, Copy, Debug, PartialEq, Eq, Structural)]
pub struct Point {
    i: usize,
    j: usize,
}

impl Point {
    /// The row of the point.
    pub closed spec fn row(&self) -> usize {
        self.i
    }

    /// The column of the point.
    pub closed spec fn col(&self) -> usize {
        self.j
    }

    /// The point (0, 0).
    pub fn origin() -> (r: Self)
        ensures
            r.row() == 0,
            r.col() == 0,
    {
        Self { i: 0, j: 0 }
    }

    /// The point at row `i`, column `j`.
    pub fn new(i: usize, j: usize) -> (r: Self)
        ensures
            r.row() == i,
            r.col() == j,
    {
        Self { i, j }
    }

    /// The point as a (row, column) pair.
    pub fn tuple(&self) -> (r: (usize, usize))
        ensures
            r == (self.row(), self.col()),
    {
        (self.i, self.j)
    }

    /// The point as a [row, column] array.
    pub fn arr(&self) -> (r: [usize; 2])
        ensures
            r@ == seq![self.row(), self.col()],
    {
        [self.i, self.j]
    }
}

} // verus!
