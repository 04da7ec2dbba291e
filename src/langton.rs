//! Langton's ant on a grid that wraps around at its edges.
use vstd::prelude::*;

use crate::grid::{bool_rows, has_shape, lemma_sides_bounded, BoolGrid};

verus! {

/// Which way the ant turns.
#[derive(Clone, Copy, Debug, PartialEq, Eq, Structural)]
pub enum RotationDirection {
    CW,
    CCW,
}

/// A heading, as a step `(dx, dy)` in rows and columns.
#[derive(Clone, Copy, Debug, PartialEq, Eq, Structural)]
pub struct Direction {
    dx: i32,
    dy: i32,
}

/// `(dx, dy)` turned a quarter: the row vector times the rotation matrix `[[0, 1], [-1, 0]]`
/// clockwise, `[[0, -1], [1, 0]]` counterclockwise.
pub open spec fn rotated(d: (int, int), rot: RotationDirection) -> (int, int) {
    match rot {
        RotationDirection::CW => (-d.1, d.0),
        RotationDirection::CCW => (d.1, -d.0),
    }
}

/// One of the four unit steps.
pub open spec fn is_unit(d: (int, int)) -> bool {
    d == (0int, 1int) || d == (1int, 0int) || d == (0int, -1int) || d == (-1int, 0int)
}

impl Direction {
    pub closed spec fn step(&self) -> (int, int) {
        (self.dx as int, self.dy as int)
    }

    /// The heading `(dx, dy)`.
    pub fn new(dx: i32, dy: i32) -> (r: Direction)
        ensures
            r.step() == (dx as int, dy as int),
    {
        Direction { dx, dy }
    }

    /// The heading as a pair.
    pub fn get(&self) -> (r: (i32, i32))
        ensures
            (r.0 as int, r.1 as int) == self.step(),
    {
        (self.dx, self.dy)
    }

    /// Turns the heading a quarter.
    pub fn rotate(&mut self, rot: RotationDirection)
        requires
            old(self).step().0 > i32::MIN,
            old(self).step().1 > i32::MIN,
        ensures
            final(self).step() == rotated(old(self).step(), rot),
    {
        let (dx, dy) = (self.dx, self.dy);
        match rot {
            RotationDirection::CW => {
                self.dx = -dy;
                self.dy = dx;
            },
            RotationDirection::CCW => {
                self.dx = dy;
                self.dy = -dx;
            },
        }
    }
}

/// The ant: where it stands and where it heads.
#[derive(Clone, Copy, Debug)]
pub struct Ant {
    pos: (usize, usize),
    vel: Direction,
}

impl Ant {
    pub closed spec fn position(&self) -> (int, int) {
        (self.pos.0 as int, self.pos.1 as int)
    }

    pub closed spec fn heading(&self) -> (int, int) {
        self.vel.step()
    }

    fn rotate(&mut self, rot: RotationDirection)
        requires
            is_unit(old(self).heading()),
        ensures
            final(self).position() == old(self).position(),
            final(self).heading() == rotated(old(self).heading(), rot),
            is_unit(final(self).heading()),
    {
        self.vel.rotate(rot);
    }

    /// The position as a [row, column] array.
    pub fn get_pos(&self) -> (r: [usize; 2])
        ensures
            r@ == seq![self.position().0 as usize, self.position().1 as usize],
    {
        [self.pos.0, self.pos.1]
    }
}

/// The grid the ant walks on; `true` is a white cell.
pub struct Grid {
    data: BoolGrid,
}

impl Grid {
    pub closed spec fn cells(&self) -> Seq<Seq<bool>> {
        bool_rows(self.data)
    }

    /// A `height` by `width` grid, every cell black.
    pub fn new(height: usize, width: usize) -> (r: Grid)
        requires
            height <= isize::MAX,
            width <= isize::MAX,
            height * width <= isize::MAX,
        ensures
            r.cells() == Seq::new(height as nat, |i: int| Seq::new(width as nat, |j: int| false)),
    {
        Grid { data: BoolGrid::filled(height, width, false) }
    }
}

/// The ant on its grid, and the number of steps taken.
pub struct Langton {
    grid: Grid,
    ant: Ant,
    nstep: u32,
    dim: (usize, usize),
}

impl Langton {
    pub closed spec fn cells(&self) -> Seq<Seq<bool>> {
        self.grid.cells()
    }

    pub closed spec fn height(&self) -> nat {
        self.dim.0 as nat
    }

    pub closed spec fn width(&self) -> nat {
        self.dim.1 as nat
    }

    pub closed spec fn position(&self) -> (int, int) {
        self.ant.position()
    }

    pub closed spec fn heading(&self) -> (int, int) {
        self.ant.heading()
    }

    pub closed spec fn steps(&self) -> nat {
        self.nstep as nat
    }

    /// The grid has its size, the ant stands on it and heads one step along an axis.
    pub closed spec fn wf(&self) -> bool {
        &&& self.dim.0 > 0
        &&& self.dim.1 > 0
        &&& self.dim.0 * self.dim.1 <= isize::MAX
        &&& has_shape(self.cells(), self.dim.0 as nat, self.dim.1 as nat)
        &&& self.ant.pos.0 < self.dim.0
        &&& self.ant.pos.1 < self.dim.1
        &&& is_unit(self.heading())
    }

    /// A black grid with the ant in the middle, heading along the row.
    pub fn new_centered(height: usize, width: usize) -> (r: Self)
        requires
            height > 0,
            width > 0,
            height * width <= isize::MAX,
        ensures
            r.wf(),
            r.height() == height,
            r.width() == width,
            r.cells() == Seq::new(height as nat, |i: int| Seq::new(width as nat, |j: int| false)),
            r.position() == ((height / 2) as int, (width / 2) as int),
            r.heading() == (0int, 1int),
            r.steps() == 0,
    {
        proof {
            lemma_sides_bounded(height as int, width as int);
        }
        Self {
            grid: Grid::new(height, width),
            ant: Ant { pos: (height / 2, width / 2), vel: Direction::new(0, 1) },
            nstep: 0,
            dim: (height, width),
        }
    }

    /// The ant's position as a [row, column] array.
    pub fn get_pos(&self) -> (r: [usize; 2])
        ensures
            r@ == seq![self.position().0 as usize, self.position().1 as usize],
    {
        self.ant.get_pos()
    }

    /// The ant's heading.
    pub fn get_heading(&self) -> (r: (i32, i32))
        ensures
            (r.0 as int, r.1 as int) == self.heading(),
    {
        self.ant.vel.get()
    }

    /// Whether the cell at row `i`, column `j` is white; `None` off the grid.
    pub fn get_square(&self, i: usize, j: usize) -> (r: Option<bool>)
        requires
            self.wf(),
        ensures
            r == if i < self.height() && j < self.width() {
                Some(self.cells()[i as int][j as int])
            } else {
                None::<bool>
            },
    {
        if i < self.dim.0 && j < self.dim.1 {
            Some(self.grid.data.get(i, j))
        } else {
            None
        }
    }

    /// One step along the heading, wrapping around at the edges.
    fn move_ant(&mut self)
        requires
            old(self).wf(),
        ensures
            final(self).wf(),
            final(self).cells() == old(self).cells(),
            final(self).height() == old(self).height(),
            final(self).width() == old(self).width(),
            final(self).heading() == old(self).heading(),
            final(self).steps() == old(self).steps(),
            final(self).position() == (
                (old(self).position().0 + old(self).heading().0) % (old(self).height() as int),
                (old(self).position().1 + old(self).heading().1) % (old(self).width() as int),
            ),
    {
        let (h, w) = self.dim;
        let (i, j) = self.ant.pos;
        let (dx, dy) = self.ant.vel.get();
        let ni = if dx == 1 {
            if i + 1 == h {
                0
            } else {
                i + 1
            }
        } else if dx == -1 {
            if i == 0 {
                h - 1
            } else {
                i - 1
            }
        } else {
            i
        };
        let nj = if dy == 1 {
            if j + 1 == w {
                0
            } else {
                j + 1
            }
        } else if dy == -1 {
            if j == 0 {
                w - 1
            } else {
                j - 1
            }
        } else {
            j
        };
        proof {
            assert(ni as int == (i + dx) % (h as int)) by (nonlinear_arith)
                requires
                    0 <= i < h,
                    dx == 1 || dx == -1 || dx == 0,
                    dx == 1 ==> ni == if i + 1 == h { 0 } else { i + 1 },
                    dx == -1 ==> ni == if i == 0 { h - 1 } else { i - 1 },
                    dx == 0 ==> ni == i,
            ;
            assert(nj as int == (j + dy) % (w as int)) by (nonlinear_arith)
                requires
                    0 <= j < w,
                    dy == 1 || dy == -1 || dy == 0,
                    dy == 1 ==> nj == if j + 1 == w { 0 } else { j + 1 },
                    dy == -1 ==> nj == if j == 0 { w - 1 } else { j - 1 },
                    dy == 0 ==> nj == j,
            ;
        }
        self.ant.pos = (ni, nj);
    }

    fn rotate_ant(&mut self, rot: RotationDirection)
        requires
            old(self).wf(),
        ensures
            final(self).wf(),
            final(self).cells() == old(self).cells(),
            final(self).height() == old(self).height(),
            final(self).width() == old(self).width(),
            final(self).position() == old(self).position(),
            final(self).heading() == rotated(old(self).heading(), rot),
            final(self).steps() == old(self).steps(),
    {
        self.ant.rotate(rot);
    }

    /// The color of the cell under the ant.
    fn get_square_here(&self) -> (r: bool)
        requires
            self.wf(),
        ensures
            r == self.cells()[self.position().0][self.position().1],
    {
        self.grid.data.get(self.ant.pos.0, self.ant.pos.1)
    }

    /// Flips the color of the cell under the ant.
    fn flip_square(&mut self)
        requires
            old(self).wf(),
        ensures
            final(self).wf(),
            final(self).cells() == old(self).cells().update(
                old(self).position().0,
                old(self).cells()[old(self).position().0].update(
                    old(self).position().1,
                    !old(self).cells()[old(self).position().0][old(self).position().1],
                ),
            ),
            final(self).height() == old(self).height(),
            final(self).width() == old(self).width(),
            final(self).position() == old(self).position(),
            final(self).heading() == old(self).heading(),
            final(self).steps() == old(self).steps(),
    {
        let (i, j) = self.ant.pos;
        let v = self.grid.data.get(i, j);
        self.grid.data.set(i, j, !v);
    }

    /// One step of the ant: on a black cell it turns clockwise, on a white one
    /// counterclockwise; then the cell flips color and the ant steps forward.
    pub fn tick(&mut self)
        requires
            old(self).wf(),
            old(self).steps() < u32::MAX,
        ensures
            final(self).wf(),
            final(self).height() == old(self).height(),
            final(self).width() == old(self).width(),
            final(self).steps() == old(self).steps() + 1,
            ({
                let p = old(self).position();
                let here = old(self).cells()[p.0][p.1];
                let heading = rotated(
                    old(self).heading(),
                    if here {
                        RotationDirection::CCW
                    } else {
                        RotationDirection::CW
                    },
                );
                &&& final(self).heading() == heading
                &&& final(self).cells() == old(self).cells().update(
                    p.0,
                    old(self).cells()[p.0].update(p.1, !here),
                )
                &&& final(self).position() == (
                    (p.0 + heading.0) % (old(self).height() as int),
                    (p.1 + heading.1) % (old(self).width() as int),
                )
            }),
    {
        let rot = if self.get_square_here() {
            RotationDirection::CCW
        } else {
            RotationDirection::CW
        };
        self.rotate_ant(rot);
        self.flip_square();
        self.move_ant();
        self.nstep = self.nstep + 1;
    }
}

} // verus!
