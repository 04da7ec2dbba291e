//! Conway's Game of Life on a bounded grid.
use vstd::prelude::*;

use crate::grid::{
    around, bool_rows, count_around, has_shape, lemma_sides_bounded, neighbor_counts, BoolGrid,
};

verus! {

/// Whether a cell lives in the next step: a live cell with two or three live neighbors
/// survives, a dead cell with exactly three comes to life.
pub open spec fn transition_rule(live_cell: bool, n_neighbors: int) -> bool {
    if live_cell {
        n_neighbors == 2 || n_neighbors == 3
    } else {
        n_neighbors == 3
    }
}

/// The whole grid one step later.
pub open spec fn next_generation(g: Seq<Seq<bool>>, height: nat, width: nat) -> Seq<Seq<bool>> {
    Seq::new(
        height,
        |i: int| Seq::new(width, |j: int| transition_rule(g[i][j], around(g, i, j))),
    )
}

/// A Game of Life grid and the number of steps taken.
pub struct GameOfLife {
    grid: BoolGrid,
    nstep: u32,
    dim: (usize, usize),
}

impl GameOfLife {
    /// The cells, row by row; `true` is a live cell.
    pub closed spec fn cells(&self) -> Seq<Seq<bool>> {
        bool_rows(self.grid)
    }

    pub closed spec fn height(&self) -> nat {
        self.dim.0 as nat
    }

    pub closed spec fn width(&self) -> nat {
        self.dim.1 as nat
    }

    /// The number of steps taken.
    pub closed spec fn steps(&self) -> nat {
        self.nstep as nat
    }

    /// The grid has the recorded size.
    pub closed spec fn wf(&self) -> bool {
        &&& has_shape(bool_rows(self.grid), self.dim.0 as nat, self.dim.1 as nat)
        &&& self.dim.0 <= isize::MAX
        &&& self.dim.1 <= isize::MAX
        &&& self.dim.0 * self.dim.1 <= isize::MAX
    }

    /// A `height` by `width` grid of dead cells.
    pub fn new(height: usize, width: usize) -> (r: Self)
        requires
            height <= isize::MAX,
            width <= isize::MAX,
            height * width <= isize::MAX,
        ensures
            r.wf(),
            r.height() == height,
            r.width() == width,
            r.cells() == Seq::new(height as nat, |i: int| Seq::new(width as nat, |j: int| false)),
            r.steps() == 0,
    {
        Self { grid: BoolGrid::filled(height, width, false), nstep: 0, dim: (height, width) }
    }

    /// A grid with the given cells: `cells[i][j]` tells whether the cell at row `i`, column
    /// `j` lives.
    pub fn from_cells(cells: &Vec<Vec<bool>>) -> (r: Self)
        requires
            cells@.len() > 0,
            forall|i: int| 0 <= i < cells@.len() ==> (#[trigger] cells@[i]@).len() == cells@[0]@.len(),
            cells@.len() <= isize::MAX,
            cells@.len() * cells@[0]@.len() <= isize::MAX,
        ensures
            r.wf(),
            r.height() == cells@.len(),
            r.width() == cells@[0]@.len(),
            forall|i: int, j: int|
                0 <= i < r.height() && 0 <= j < r.width() ==> r.cells()[i][j] == cells@[i]@[j],
            r.steps() == 0,
    {
        let h = cells.len();
        let w = cells[0].len();
        proof {
            lemma_sides_bounded(h as int, w as int);
        }
        let mut r = Self::new(h, w);
        let mut i: usize = 0;
        while i < h
            invariant
                r.wf(),
                i <= h,
                h == cells@.len(),
                w == cells@[0]@.len(),
                r.height() == h,
                r.width() == w,
                r.steps() == 0,
                forall|a: int| 0 <= a < cells@.len() ==> (#[trigger] cells@[a]@).len() == w,
                forall|a: int, b: int| 0 <= a < i && 0 <= b < w ==> r.cells()[a][b] == cells@[a]@[b],
            decreases h - i,
        {
            let mut j: usize = 0;
            while j < w
                invariant
                    r.wf(),
                    i < h,
                    j <= w,
                    h == cells@.len(),
                    w == cells@[0]@.len(),
                    r.height() == h,
                    r.width() == w,
                    r.steps() == 0,
                    forall|a: int| 0 <= a < cells@.len() ==> (#[trigger] cells@[a]@).len() == w,
                    forall|a: int, b: int|
                        (0 <= a < i && 0 <= b < w) || (a == i && 0 <= b < j) ==> r.cells()[a][b]
                            == cells@[a]@[b],
                decreases w - j,
            {
                let v = cells[i][j];
                r.set_cell(i, j, v);
                j += 1;
            }
            i += 1;
        }
        r
    }

    /// The number of steps taken.
    pub fn steps_taken(&self) -> (r: u32)
        ensures
            r == self.steps(),
    {
        self.nstep
    }

    /// Whether the cell at row `x`, column `y` lives; `None` off the grid.
    pub fn get_cell(&self, x: usize, y: usize) -> (r: Option<bool>)
        requires
            self.wf(),
        ensures
            r == if x < self.height() && y < self.width() {
                Some(self.cells()[x as int][y as int])
            } else {
                None::<bool>
            },
    {
        if x < self.dim.0 && y < self.dim.1 {
            Some(self.grid.get(x, y))
        } else {
            None
        }
    }

    /// The number of live cells around the cell at row `x`, column `y`.
    pub fn num_neighbors(&self, x: usize, y: usize) -> (r: u32)
        requires
            self.wf(),
            x < self.height(),
            y < self.width(),
        ensures
            r as int == around(self.cells(), x as int, y as int),
    {
        count_around(&self.grid, self.dim.0, self.dim.1, x, y)
    }

    /// Sets the cell at row `x`, column `y`.
    fn set_cell(&mut self, x: usize, y: usize, b: bool)
        requires
            old(self).wf(),
            x < old(self).height(),
            y < old(self).width(),
        ensures
            final(self).wf(),
            final(self).height() == old(self).height(),
            final(self).width() == old(self).width(),
            final(self).steps() == old(self).steps(),
            final(self).cells() == old(self).cells().update(
                x as int,
                old(self).cells()[x as int].update(y as int, b),
            ),
    {
        self.grid.set(x, y, b);
    }

    /// Whether a cell lives in the next step.
    fn transition(live_cell: bool, n_neighbors: u32) -> (r: bool)
        ensures
            r == transition_rule(live_cell, n_neighbors as int),
    {
        if live_cell {
            n_neighbors == 2 || n_neighbors == 3
        } else {
            n_neighbors == 3
        }
    }

    /// Moves one step forward: every cell follows the rule, counted on the grid as it was.
    pub fn tick(&mut self)
        requires
            old(self).wf(),
            old(self).steps() < u32::MAX,
        ensures
            final(self).wf(),
            final(self).height() == old(self).height(),
            final(self).width() == old(self).width(),
            final(self).steps() == old(self).steps() + 1,
            final(self).cells() == next_generation(
                old(self).cells(),
                old(self).height(),
                old(self).width(),
            ),
    {
        let ghost g = self.cells();
        let h = self.dim.0;
        let w = self.dim.1;
        if w > 0 {
            let counts = neighbor_counts(&self.grid, h, w);
            let mut i: usize = 0;
            while i < h
                invariant
                    self.wf(),
                    h == self.height(),
                    w == self.width(),
                    has_shape(g, h as nat, w as nat),
                    self.steps() == old(self).steps(),
                    g == old(self).cells(),
                    h == old(self).height(),
                    w == old(self).width(),
                    i <= h,
                    has_shape(crate::grid::count_rows(counts), h as nat, w as nat),
                    forall|a: int, b: int|
                        0 <= a < h && 0 <= b < w ==> (#[trigger] crate::grid::count_rows(counts)[a][b]) as int
                            == around(g, a, b),
                    self.cells() =~~= Seq::new(
                        h as nat,
                        |a: int|
                            Seq::new(
                                w as nat,
                                |b: int| if a < i { transition_rule(g[a][b], around(g, a, b)) } else { g[a][b] },
                            ),
                    ),
                decreases h - i,
            {
                let mut j: usize = 0;
                while j < w
                    invariant
                        self.wf(),
                        h == self.height(),
                        w == self.width(),
                        has_shape(g, h as nat, w as nat),
                        self.steps() == old(self).steps(),
                        g == old(self).cells(),
                        h == old(self).height(),
                        w == old(self).width(),
                        i < h,
                        j <= w,
                        has_shape(crate::grid::count_rows(counts), h as nat, w as nat),
                        forall|a: int, b: int|
                            0 <= a < h && 0 <= b < w ==> (#[trigger] crate::grid::count_rows(counts)[a][b]) as int
                                == around(g, a, b),
                        self.cells() =~~= Seq::new(
                            h as nat,
                            |a: int|
                                Seq::new(
                                    w as nat,
                                    |b: int|
                                        if a < i || (a == i && b < j) {
                                            transition_rule(g[a][b], around(g, a, b))
                                        } else {
                                            g[a][b]
                                        },
                                ),
                        ),
                    decreases w - j,
                {
                    let live = self.grid.get(i, j);
                    let n = counts.get(i, j);
                    let newstate = Self::transition(live, n);
                    self.set_cell(i, j, newstate);
                    j += 1;
                }
                i += 1;
            }
        }
        proof {
            assert(self.cells() =~~= next_generation(g, h as nat, w as nat));
        }
        self.nstep = self.nstep + 1;
    }
}

} // verus!
