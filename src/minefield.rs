//! The minefield: mine placement, neighbor counts, reveal and flag state, flood-fill reveal,
//! chording, first-click safety and win/loss detection.
use vstd::prelude::*;

pub use crate::board::{MoveResult, SquareView};

use crate::board::{
    adjacent, before, cell_of, is_out_of_bounds, lemma_first_mine_seed_exists,
    lemma_first_mine_seed_unique, lemma_flooded_count, lemma_flooded_more_seeds, lemma_flooded_none,
    lemma_flooded_trans, lemma_nothing_safe_revealed, lemma_some_safe_cell,
    lemma_won_iff_all_safe_revealed, lemma_zero_around, Board,
};
use crate::counting::{
    grid_count, lemma_grid_count_bound, lemma_grid_count_set, lemma_grid_count_uniform_false, uniform,
};
use crate::grid::{
    bool_rows, count_around, count_rows, has_shape, lemma_sides_bounded, neighbor_counts, BoolGrid,
    CountGrid,
};
use crate::point::Point;
use crate::random::{choose_one, sample_distinct};

verus! {

/// A minesweeper field of fixed size.
pub struct MineField {
    mines: BoolGrid,
    neighbors: CountGrid,
    revealed: BoolGrid,
    flagged: BoolGrid,
    n_revealed: usize,
    n_mines: usize,
    dim: (usize, usize),
}

impl View for MineField {
    type V = Board;

    closed spec fn view(&self) -> Board {
        Board {
            height: self.dim.0 as nat,
            width: self.dim.1 as nat,
            mines: bool_rows(self.mines),
            revealed: bool_rows(self.revealed),
            flagged: bool_rows(self.flagged),
            revealed_count: self.n_revealed as nat,
        }
    }
}

proof fn lemma_cell_of_index(x: int, h: int, w: int)
    requires
        0 <= x < h * w,
        w > 0,
    ensures
        0 <= x / w < h,
        0 <= x % w < w,
        x == w * (x / w) + x % w,
{
    vstd::arithmetic::div_mod::lemma_fundamental_div_mod(x, w);
    let q = x / w;
    let r = x % w;
    assert(0 <= q < h) by (nonlinear_arith)
        requires
            x == w * q + r,
            0 <= r < w,
            0 <= x < h * w,
            w > 0,
    ;
}

impl MineField {
    /// The field's internal state agrees with its board: the mine counts are those of the
    /// mines, and the number of mines is kept.
    pub closed spec fn wf(&self) -> bool {
        &&& self@.valid()
        &&& has_shape(count_rows(self.neighbors), self@.height, self@.width)
        &&& forall|i: int, j: int|
            self@.in_bounds((i, j)) ==> (#[trigger] count_rows(self.neighbors)[i][j]) as int
                == self@.mines_around((i, j))
        &&& self.n_mines == self@.mine_total()
    }

    /// A fresh field around the mines of `mines`, of which there are `n_mines`.
    fn build(mines: BoolGrid, h: usize, w: usize, n_mines: usize) -> (r: Self)
        requires
            h > 0,
            w > 0,
            h * w <= isize::MAX,
            has_shape(bool_rows(mines), h as nat, w as nat),
            grid_count(bool_rows(mines)) == n_mines,
        ensures
            r.wf(),
            r@.is_fresh(),
            r@.height == h,
            r@.width == w,
            r@.mines == bool_rows(mines),
    {
        proof {
            lemma_sides_bounded(h as int, w as int);
        }
        let neighbors = neighbor_counts(&mines, h, w);
        let revealed = BoolGrid::filled(h, w, false);
        let flagged = BoolGrid::filled(h, w, false);
        let r = MineField { mines, neighbors, revealed, flagged, n_revealed: 0, n_mines, dim: (h, w) };
        proof {
            assert(r@.safe_revealed() =~~= uniform(h as nat, w as nat, false));
            lemma_grid_count_uniform_false(h as nat, w as nat);
        }
        r
    }

    /// A field with the given mine layout: `mines[i][j]` tells whether a mine lies at row `i`,
    /// column `j`. Nothing is revealed or flagged.
    pub fn from_mine_grid(mines: &Vec<Vec<bool>>) -> (r: Self)
        requires
            mines@.len() > 0,
            mines@[0]@.len() > 0,
            forall|i: int| 0 <= i < mines@.len() ==> (#[trigger] mines@[i]@).len() == mines@[0]@.len(),
            mines@.len() * mines@[0]@.len() <= isize::MAX,
        ensures
            r.wf(),
            r@.is_fresh(),
            r@.height == mines@.len(),
            r@.width == mines@[0]@.len(),
            forall|i: int, j: int| r@.in_bounds((i, j)) ==> r@.mines[i][j] == mines@[i]@[j],
    {
        let h = mines.len();
        let w = mines[0].len();
        proof {
            lemma_sides_bounded(h as int, w as int);
        }
        let mut grid = BoolGrid::filled(h, w, false);
        let mut n: usize = 0;
        proof {
            lemma_grid_count_uniform_false(h as nat, w as nat);
            lemma_grid_count_bound(bool_rows(grid), h as nat, w as nat);
        }
        let mut i: usize = 0;
        while i < h
            invariant
                i <= h,
                h == mines@.len(),
                w == mines@[0]@.len(),
                w > 0,
                h * w <= isize::MAX,
                forall|a: int| 0 <= a < mines@.len() ==> (#[trigger] mines@[a]@).len() == w,
                bool_rows(grid) =~~= Seq::new(
                    h as nat,
                    |a: int| Seq::new(w as nat, |b: int| a < i && mines@[a]@[b]),
                ),
                n == grid_count(bool_rows(grid)),
            decreases h - i,
        {
            let mut j: usize = 0;
            while j < w
                invariant
                    i < h,
                    j <= w,
                    h == mines@.len(),
                    w == mines@[0]@.len(),
                    w > 0,
                    h * w <= isize::MAX,
                    forall|a: int| 0 <= a < mines@.len() ==> (#[trigger] mines@[a]@).len() == w,
                    bool_rows(grid) =~~= Seq::new(
                        h as nat,
                        |a: int| Seq::new(w as nat, |b: int| (a < i || (a == i && b < j)) && mines@[a]@[b]),
                    ),
                    n == grid_count(bool_rows(grid)),
                decreases w - j,
            {
                if mines[i][j] {
                    proof {
                        lemma_grid_count_set(bool_rows(grid), i as int, j as int, true);
                        lemma_grid_count_bound(bool_rows(grid), h as nat, w as nat);
                    }
                    grid.set(i, j, true);
                    n = n + 1;
                }
                j += 1;
            }
            i += 1;
        }
        Self::build(grid, h, w, n)
    }

    /// A field of `height` rows and `width` columns with a mine at each cell whose row-major
    /// index `i * width + j` is listed in `mine_ixs`. Nothing is revealed or flagged.
    pub fn with_mines_at(height: usize, width: usize, mine_ixs: &Vec<usize>) -> (r: Self)
        requires
            height > 0,
            width > 0,
            height * width <= isize::MAX,
            mine_ixs@.no_duplicates(),
            forall|k: int| 0 <= k < mine_ixs@.len() ==> mine_ixs@[k] < height * width,
        ensures
            r.wf(),
            r@.is_fresh(),
            r@.height == height,
            r@.width == width,
            r@.mine_total() == mine_ixs@.len(),
            forall|i: int, j: int|
                r@.in_bounds((i, j)) ==> (r@.mines[i][j] <==> exists|k: int|
                    0 <= k < mine_ixs@.len() && mine_ixs@[k] as int == i * width + j),
    {
        let n_cells = height * width;
        let n_mines = mine_ixs.len();
        proof {
            lemma_sides_bounded(height as int, width as int);
        }
        let mut grid = BoolGrid::filled(height, width, false);
        proof {
            lemma_grid_count_uniform_false(height as nat, width as nat);
        }
        let mut k: usize = 0;
        while k < n_mines
            invariant
                k <= n_mines,
                n_cells == height * width,
                width > 0,
                mine_ixs@.len() == n_mines,
                mine_ixs@.no_duplicates(),
                forall|m: int| 0 <= m < mine_ixs@.len() ==> mine_ixs@[m] < n_cells,
                has_shape(bool_rows(grid), height as nat, width as nat),
                grid_count(bool_rows(grid)) == k,
                forall|m: int|
                    0 <= m < k ==> bool_rows(grid)[(mine_ixs@[m] as int) / (width as int)][(
                    #[trigger] mine_ixs@[m] as int) % (width as int)],
                forall|a: int, b: int|
                    0 <= a < height && 0 <= b < width && #[trigger] bool_rows(grid)[a][b] ==> exists|m: int|
                        0 <= m < k && (mine_ixs@[m] as int) / (width as int) == a && (mine_ixs@[m] as int) % (
                        width as int) == b,
            decreases n_mines - k,
        {
            let ix = mine_ixs[k];
            let i = ix / width;
            let j = ix % width;
            proof {
                lemma_cell_of_index(ix as int, height as int, width as int);
                if bool_rows(grid)[i as int][j as int] {
                    let m = choose|m: int|
                        0 <= m < k && (mine_ixs@[m] as int) / (width as int) == i && (mine_ixs@[m] as int) % (
                        width as int) == j;
                    lemma_cell_of_index(mine_ixs@[m] as int, height as int, width as int);
                    assert(mine_ixs@[m] == ix);
                }
                lemma_grid_count_set(bool_rows(grid), i as int, j as int, true);
            }
            let ghost before = bool_rows(grid);
            grid.set(i, j, true);
            proof {
                assert forall|a: int, b: int|
                    0 <= a < height && 0 <= b < width && #[trigger] bool_rows(grid)[a][b] implies exists|m: int|
                        0 <= m < k + 1 && (mine_ixs@[m] as int) / (width as int) == a && (mine_ixs@[m] as int) % (
                        width as int) == b by {
                    if a == i && b == j {
                        assert((mine_ixs@[k as int] as int) / (width as int) == a);
                    } else {
                        assert(before[a][b]);
                    }
                }
                assert forall|m: int| 0 <= m < k + 1 implies bool_rows(grid)[(mine_ixs@[m] as int) / (width as int)][(
                    #[trigger] mine_ixs@[m] as int) % (width as int)] by {
                    if m < k {
                        lemma_cell_of_index(mine_ixs@[m] as int, height as int, width as int);
                        assert(before[(mine_ixs@[m] as int) / (width as int)][(mine_ixs@[m] as int) % (width as int)]);
                    }
                }
            }
            k += 1;
        }
        let r = Self::build(grid, height, width, n_mines);
        proof {
            assert forall|a: int, b: int| r@.in_bounds((a, b)) implies (r@.mines[a][b] <==> exists|m: int|
                0 <= m < mine_ixs@.len() && mine_ixs@[m] as int == a * width + b) by {
                if r@.mines[a][b] {
                    let m = choose|m: int|
                        0 <= m < k && (mine_ixs@[m] as int) / (width as int) == a && (mine_ixs@[m] as int) % (
                        width as int) == b;
                    lemma_cell_of_index(mine_ixs@[m] as int, height as int, width as int);
                    assert(mine_ixs@[m] as int == a * width + b) by (nonlinear_arith)
                        requires
                            mine_ixs@[m] as int == width * ((mine_ixs@[m] as int) / (width as int)) + (
                            mine_ixs@[m] as int) % (width as int),
                            (mine_ixs@[m] as int) / (width as int) == a,
                            (mine_ixs@[m] as int) % (width as int) == b,
                    ;
                }
                if exists|m: int| 0 <= m < mine_ixs@.len() && mine_ixs@[m] as int == a * width + b {
                    let m = choose|m: int| 0 <= m < mine_ixs@.len() && mine_ixs@[m] as int == a * width + b;
                    vstd::arithmetic::div_mod::lemma_fundamental_div_mod_converse(
                        mine_ixs@[m] as int,
                        width as int,
                        a,
                        b,
                    );
                    assert(bool_rows(grid)[(mine_ixs@[m] as int) / (width as int)][(mine_ixs@[m] as int) % (
                    width as int)]);
                }
            }
        }
        r
    }

    /// A field of `height` rows and `width` columns with `n_mines` mines at distinct cells
    /// drawn uniformly at random. Nothing is revealed or flagged.
    pub fn with_n_mines(height: usize, width: usize, n_mines: usize) -> (r: Self)
        requires
            height > 0,
            width > 0,
            height * width <= isize::MAX,
            n_mines < height * width,
        ensures
            r.wf(),
            r@.is_fresh(),
            r@.height == height,
            r@.width == width,
            r@.mine_total() == n_mines,
    {
        let mine_ixs = sample_distinct(height * width, n_mines);
        Self::with_mines_at(height, width, &mine_ixs)
    }
}

fn out_of_bounds() -> (r: MoveResult)
    ensures
        is_out_of_bounds(r),
{
    MoveResult::Error("index OOB".to_string())
}

impl MineField {
    /// The number of rows.
    pub fn height(&self) -> (r: usize)
        ensures
            r == self@.height,
    {
        self.dim.0
    }

    /// The number of columns.
    pub fn width(&self) -> (r: usize)
        ensures
            r == self@.width,
    {
        self.dim.1
    }

    /// The number of revealed cells that are not mines.
    pub fn revealed_count(&self) -> (r: usize)
        ensures
            r == self@.revealed_count,
    {
        self.n_revealed
    }

    /// The number of mines on the field.
    pub fn mine_count(&self) -> (r: usize)
        requires
            self.wf(),
        ensures
            r == self@.mine_total(),
    {
        self.n_mines
    }

    /// Whether `p` lies on the grid.
    fn contains(&self, p: &Point) -> (r: bool)
        ensures
            r == self@.in_bounds(cell_of(*p)),
    {
        let (i, j) = p.tuple();
        i < self.dim.0 && j < self.dim.1
    }

    /// Whether the cell at `p` holds a mine, without revealing it; `None` off the grid.
    fn peek_mine(&self, p: &Point) -> (r: Option<bool>)
        requires
            self.wf(),
        ensures
            r == if self@.in_bounds(cell_of(*p)) {
                Some(self@.is_mine(cell_of(*p)))
            } else {
                None::<bool>
            },
    {
        if self.contains(p) {
            let (i, j) = p.tuple();
            Some(self.mines.get(i, j))
        } else {
            None
        }
    }

    /// Whether the cell at `p` is revealed; `None` off the grid.
    fn is_revealed(&self, p: &Point) -> (r: Option<bool>)
        requires
            self.wf(),
        ensures
            r == if self@.in_bounds(cell_of(*p)) {
                Some(self@.is_revealed(cell_of(*p)))
            } else {
                None::<bool>
            },
    {
        if self.contains(p) {
            let (i, j) = p.tuple();
            Some(self.revealed.get(i, j))
        } else {
            None
        }
    }

    /// Whether the cell at `p` is flagged; `None` off the grid.
    pub fn is_flag(&self, p: &Point) -> (r: Option<bool>)
        requires
            self.wf(),
        ensures
            r == if self@.in_bounds(cell_of(*p)) {
                Some(self@.is_flagged(cell_of(*p)))
            } else {
                None::<bool>
            },
    {
        if self.contains(p) {
            let (i, j) = p.tuple();
            Some(self.flagged.get(i, j))
        } else {
            None
        }
    }

    /// What the cell at row `i`, column `j` shows.
    fn square_at(&self, i: usize, j: usize) -> (r: SquareView)
        requires
            self.wf(),
            self@.in_bounds((i as int, j as int)),
        ensures
            r == self@.square((i as int, j as int)),
    {
        if !self.revealed.get(i, j) {
            if self.flagged.get(i, j) {
                SquareView::Flag
            } else {
                SquareView::Hidden
            }
        } else if self.mines.get(i, j) {
            SquareView::Mine
        } else {
            SquareView::Revealed(self.neighbors.get(i, j))
        }
    }

    /// What the cell at `p` shows; `None` off the grid.
    pub fn view_sq(&self, p: &Point) -> (r: Option<SquareView>)
        requires
            self.wf(),
        ensures
            r == if self@.in_bounds(cell_of(*p)) {
                Some(self@.square(cell_of(*p)))
            } else {
                None::<SquareView>
            },
    {
        if self.contains(p) {
            let (i, j) = p.tuple();
            Some(self.square_at(i, j))
        } else {
            None
        }
    }

    /// What every cell shows, in row-major order: the cell at row `i`, column `j` comes at
    /// position `i * width + j`.
    pub fn get_view_iter(&self) -> (r: Vec<SquareView>)
        requires
            self.wf(),
        ensures
            r@.len() == self@.cell_total(),
            forall|i: int, j: int|
                self@.in_bounds((i, j)) ==> r@[i * self@.width + j] == self@.square((i, j)),
    {
        let h = self.dim.0;
        let w = self.dim.1;
        let mut r: Vec<SquareView> = Vec::new();
        let mut i: usize = 0;
        while i < h
            invariant
                self.wf(),
                h == self@.height,
                w == self@.width,
                i <= h,
                r@.len() == i * w,
                forall|a: int, b: int|
                    0 <= a < i && 0 <= b < w ==> r@[a * w + b] == self@.square((a, b)),
            decreases h - i,
        {
            let mut j: usize = 0;
            while j < w
                invariant
                    self.wf(),
                    h == self@.height,
                    w == self@.width,
                    i < h,
                    j <= w,
                    r@.len() == i * w + j,
                    forall|a: int, b: int|
                        (0 <= a < i && 0 <= b < w) || (a == i && 0 <= b < j) ==> r@[a * w + b]
                            == self@.square((a, b)),
                decreases w - j,
            {
                proof {
                    assert(i * w + j < h * w) by (nonlinear_arith)
                        requires
                            i < h,
                            j < w,
                    ;
                }
                let v = self.square_at(i, j);
                r.push(v);
                proof {
                    assert forall|a: int, b: int|
                        (0 <= a < i && 0 <= b < w) || (a == i && 0 <= b < j + 1) implies r@[a * w
                        + b] == self@.square((a, b)) by {
                        if a != i || b != j {
                            assert(a * w + b < i * w + j) by (nonlinear_arith)
                                requires
                                    (0 <= a < i && 0 <= b < w) || (a == i && 0 <= b < j),
                            ;
                        }
                    }
                }
                j += 1;
            }
            proof {
                assert(i * w + w == (i + 1) * w) by (nonlinear_arith);
            }
            i += 1;
        }
        r
    }

    /// Inverts the flag at `p`; does nothing to a revealed cell. Off the grid the move is
    /// rejected.
    pub fn toggle_flag(&mut self, p: &Point) -> (r: MoveResult)
        requires
            old(self).wf(),
        ensures
            final(self).wf(),
            old(self)@.flag_outcome(cell_of(*p), final(self)@, r),
    {
        if !self.contains(p) {
            return out_of_bounds();
        }
        let (i, j) = p.tuple();
        if self.revealed.get(i, j) {
            return MoveResult::Continue;
        }
        let f = self.flagged.get(i, j);
        self.flagged.set(i, j, !f);
        proof {
            assert(self@.safe_revealed() =~~= old(self)@.safe_revealed());
        }
        MoveResult::Continue
    }
}

impl MineField {
    /// Reveals every mine, clearing its flag.
    fn reveal_all_mines(&mut self)
        requires
            old(self).wf(),
        ensures
            final(self).wf(),
            final(self)@ == old(self)@.swept(),
    {
        let ghost s = self@;
        let h = self.dim.0;
        let w = self.dim.1;
        let mut i: usize = 0;
        while i < h
            invariant
                self.wf(),
                h == s.height,
                w == s.width,
                i <= h,
                self@.height == s.height,
                self@.width == s.width,
                self@.mines == s.mines,
                self@.revealed_count == s.revealed_count,
                self@.revealed =~~= Seq::new(
                    h as nat,
                    |a: int| Seq::new(w as nat, |b: int| s.revealed[a][b] || (a < i && s.mines[a][b])),
                ),
                self@.flagged =~~= Seq::new(
                    h as nat,
                    |a: int| Seq::new(w as nat, |b: int| s.flagged[a][b] && !(a < i && s.mines[a][b])),
                ),
            decreases h - i,
        {
            let mut j: usize = 0;
            while j < w
                invariant
                    self.wf(),
                    h == s.height,
                    w == s.width,
                    i < h,
                    j <= w,
                    self@.height == s.height,
                    self@.width == s.width,
                    self@.mines == s.mines,
                    self@.revealed_count == s.revealed_count,
                    self@.revealed =~~= Seq::new(
                        h as nat,
                        |a: int|
                            Seq::new(
                                w as nat,
                                |b: int|
                                    s.revealed[a][b] || ((a < i || (a == i && b < j)) && s.mines[a][b]),
                            ),
                    ),
                    self@.flagged =~~= Seq::new(
                        h as nat,
                        |a: int|
                            Seq::new(
                                w as nat,
                                |b: int|
                                    s.flagged[a][b] && !((a < i || (a == i && b < j)) && s.mines[a][b]),
                            ),
                    ),
                decreases w - j,
            {
                if self.mines.get(i, j) {
                    let ghost before = self@;
                    self.revealed.set(i, j, true);
                    self.flagged.set(i, j, false);
                    proof {
                        assert(self@.safe_revealed() =~~= before.safe_revealed());
                    }
                }
                j += 1;
            }
            i += 1;
        }
        proof {
            assert(self@.revealed =~~= s.swept().revealed);
            assert(self@.flagged =~~= s.swept().flagged);
        }
    }

    /// Marks the hidden, unflagged, mine-free cell `(i, j)` revealed and counts it.
    fn mark_revealed(&mut self, i: usize, j: usize)
        requires
            old(self).wf(),
            old(self)@.in_bounds((i as int, j as int)),
            !old(self)@.is_revealed((i as int, j as int)),
            !old(self)@.is_flagged((i as int, j as int)),
            !old(self)@.is_mine((i as int, j as int)),
        ensures
            final(self).wf(),
            final(self)@ == (Board {
                revealed: old(self)@.revealed.update(
                    i as int,
                    old(self)@.revealed[i as int].update(j as int, true),
                ),
                revealed_count: old(self)@.revealed_count + 1,
                ..old(self)@
            }),
    {
        let ghost s = self@;
        self.revealed.set(i, j, true);
        proof {
            let t = self@;
            assert(t.safe_revealed() =~~= s.safe_revealed().update(
                i as int,
                s.safe_revealed()[i as int].update(j as int, true),
            ));
            lemma_grid_count_set(s.safe_revealed(), i as int, j as int, true);
            lemma_grid_count_bound(t.safe_revealed(), t.height, t.width);
        }
        self.n_revealed = self.n_revealed + 1;
    }

    /// Reveals the hidden, unflagged, mine-free cell `(i, j)` and floods from it: each newly
    /// revealed cell with no mine around it has its unrevealed, unflagged neighbors revealed
    /// in turn. The cells waiting to be expanded are kept in a queue, not on the call stack.
    fn flood_from(&mut self, i: usize, j: usize)
        requires
            old(self).wf(),
            old(self)@.in_bounds((i as int, j as int)),
            !old(self)@.is_revealed((i as int, j as int)),
            !old(self)@.is_flagged((i as int, j as int)),
            !old(self)@.is_mine((i as int, j as int)),
        ensures
            final(self).wf(),
            old(self)@.flooded(final(self)@, set![(i as int, j as int)]),
    {
        let ghost s = self@;
        let ghost seeds = set![(i as int, j as int)];
        let h = self.dim.0;
        let w = self.dim.1;
        assert(h <= h * w && w <= h * w) by (nonlinear_arith)
            requires
                w > 0,
                h > 0,
        ;
        self.mark_revealed(i, j);
        let mut queue: Vec<(usize, usize)> = Vec::new();
        queue.push((i, j));
        let ghost mut order: Seq<(int, int)> = seq![(i as int, j as int)];
        proof {
            assert forall|c: (int, int)| #[trigger] order.contains(c) <==> s.newly_revealed(self@, c) by {
                if order.contains(c) {
                    assert(order[0] == c);
                }
                if s.newly_revealed(self@, c) {
                    assert(order[0] == c);
                }
            }
            lemma_grid_count_bound(self@.safe_revealed(), self@.height, self@.width);
        }
        let mut head: usize = 0;
        while head < queue.len()
            invariant
                self.wf(),
                h == s.height,
                w == s.width,
                h <= isize::MAX,
                w <= isize::MAX,
                s.same_but_revealed(self@),
                forall|a: int, b: int| s.in_bounds((a, b)) && #[trigger] s.revealed[a][b] ==> self@.revealed[a][b],
                self@.is_revealed((i as int, j as int)),
                s.in_bounds((i as int, j as int)),
                forall|c: (int, int)|
                    #[trigger] s.newly_revealed(self@, c) ==> !s.is_mine(c) && !s.is_flagged(c),
                s.flood_order(self@, seeds, order),
                order.len() == queue@.len(),
                forall|x: int|
                    0 <= x < order.len() ==> #[trigger] order[x] == (queue@[x].0 as int, queue@[x].1 as int),
                head <= queue@.len(),
                forall|x: int, d: (int, int)|
                    0 <= x < head && s.mines_around(#[trigger] order[x]) == 0 && s.in_bounds(d)
                        && #[trigger] adjacent(order[x], d) && !s.is_flagged(d) ==> self@.is_revealed(d),
                self@.revealed_count <= self@.cell_total(),
            decreases (self@.cell_total() - self@.revealed_count) + (queue@.len() - head),
        {
            let (qi, qj) = queue[head];
            let ghost q = (qi as int, qj as int);
            assert(order[head as int] == q);
            assert(s.newly_revealed(self@, q)) by {
                assert(order.contains(q));
            }
            let ghost measure = (self@.cell_total() - self@.revealed_count) + (queue@.len() - head);
            if self.neighbors.get(qi, qj) == 0 {
                let mut di: usize = 0;
                while di < 3
                    invariant
                        self.wf(),
                        h == s.height,
                        w == s.width,
                        s.in_bounds(q),
                        q == (qi as int, qj as int),
                        order[head as int] == q,
                        s.mines_around(q) == 0,
                        head < queue@.len(),
                        s.same_but_revealed(self@),
                        forall|a: int, b: int| s.in_bounds((a, b)) && #[trigger] s.revealed[a][b] ==> self@.revealed[a][b],
                        self@.is_revealed((i as int, j as int)),
                s.in_bounds((i as int, j as int)),
                        forall|c: (int, int)|
                            #[trigger] s.newly_revealed(self@, c) ==> !s.is_mine(c) && !s.is_flagged(c),
                        s.flood_order(self@, seeds, order),
                        order.len() == queue@.len(),
                        forall|x: int|
                            0 <= x < order.len() ==> #[trigger] order[x] == (queue@[x].0 as int, queue@[x].1 as int),
                        forall|x: int, d: (int, int)|
                            0 <= x < head && s.mines_around(#[trigger] order[x]) == 0 && s.in_bounds(d)
                                && #[trigger] adjacent(order[x], d) && !s.is_flagged(d) ==> self@.is_revealed(d),
                        di <= 3,
                        measure == (self@.cell_total() - self@.revealed_count) + (queue@.len() - head),
                        h <= isize::MAX,
                        w <= isize::MAX,
                        forall|d: (int, int)|
                            s.in_bounds(d) && #[trigger] adjacent(q, d) && !s.is_flagged(d) && d.0 - q.0 + 1 < di
                                ==> self@.is_revealed(d),
                        self@.revealed_count <= self@.cell_total(),
                    decreases 3 - di,
                {
                    let mut dj: usize = 0;
                    while dj < 3
                        invariant
                            self.wf(),
                            h == s.height,
                            w == s.width,
                            s.in_bounds(q),
                            q == (qi as int, qj as int),
                            order[head as int] == q,
                            s.mines_around(q) == 0,
                            head < queue@.len(),
                            s.same_but_revealed(self@),
                            forall|a: int, b: int| s.in_bounds((a, b)) && #[trigger] s.revealed[a][b] ==> self@.revealed[a][b],
                            self@.is_revealed((i as int, j as int)),
                s.in_bounds((i as int, j as int)),
                            forall|c: (int, int)|
                                #[trigger] s.newly_revealed(self@, c) ==> !s.is_mine(c) && !s.is_flagged(c),
                            s.flood_order(self@, seeds, order),
                            order.len() == queue@.len(),
                            forall|x: int|
                                0 <= x < order.len() ==> #[trigger] order[x] == (queue@[x].0 as int, queue@[x].1 as int),
                            forall|x: int, d: (int, int)|
                                0 <= x < head && s.mines_around(#[trigger] order[x]) == 0 && s.in_bounds(d)
                                    && #[trigger] adjacent(order[x], d) && !s.is_flagged(d) ==> self@.is_revealed(d),
                            di < 3,
                            dj <= 3,
                            measure == (self@.cell_total() - self@.revealed_count) + (queue@.len() - head),
                            h <= isize::MAX,
                            w <= isize::MAX,
                            forall|d: (int, int)|
                                s.in_bounds(d) && #[trigger] adjacent(q, d) && !s.is_flagged(d) && (d.0 - q.0 + 1 < di
                                    || (d.0 - q.0 + 1 == di && d.1 - q.1 + 1 < dj)) ==> self@.is_revealed(d),
                            self@.revealed_count <= self@.cell_total(),
                        decreases 3 - dj,
                    {
                        if (di != 1 || dj != 1) && qi + di >= 1 && qj + dj >= 1 && qi + di - 1 < h
                            && qj + dj - 1 < w {
                            let ni = qi + di - 1;
                            let nj = qj + dj - 1;
                            let ghost n = (ni as int, nj as int);
                            if !self.revealed.get(ni, nj) && !self.flagged.get(ni, nj) {
                                proof {
                                    lemma_zero_around(s.mines, q, n);
                                }
                                let ghost before = self@;
                                self.mark_revealed(ni, nj);
                                queue.push((ni, nj));
                                proof {
                                    let old_order = order;
                                    order = order.push(n);
                                    assert(!old_order.contains(n));
                                    assert forall|c: (int, int)| #[trigger] order.contains(c) <==> s.newly_revealed(self@, c) by {
                                        if order.contains(c) && c != n {
                                            let x = choose|x: int| 0 <= x < order.len() && order[x] == c;
                                            assert(old_order.contains(c)) by {
                                                assert(old_order[x] == c);
                                            }
                                        }
                                        if s.newly_revealed(self@, c) && c != n {
                                            assert(s.newly_revealed(before, c));
                                            assert(old_order.contains(c));
                                            let x = choose|x: int| 0 <= x < old_order.len() && old_order[x] == c;
                                            assert(order[x] == c);
                                        }
                                        if c == n {
                                            assert(order[order.len() - 1] == c);
                                        }
                                    }
                                    assert forall|x: int|
                                        0 <= x < order.len() implies seeds.contains(#[trigger] order[x]) || exists|y: int|
                                            0 <= y < x && s.mines_around(order[y]) == 0 && adjacent(order[y], order[x]) by {
                                        if x == order.len() - 1 {
                                            assert(order[head as int] == q);
                                            assert(adjacent(order[head as int], order[x]));
                                        } else {
                                            assert(old_order[x] == order[x]);
                                            if !seeds.contains(old_order[x]) {
                                                let y = choose|y: int|
                                                    0 <= y < x && s.mines_around(old_order[y]) == 0 && adjacent(old_order[y], old_order[x]);
                                                assert(order[y] == old_order[y]);
                                            }
                                        }
                                    }
                                    lemma_grid_count_bound(self@.safe_revealed(), self@.height, self@.width);
                                    assert(self@.revealed[i as int][j as int]) by {
                                        assert(before.revealed[i as int][j as int]);
                                    }
                                    assert forall|a: int, b: int| s.in_bounds((a, b)) && #[trigger] s.revealed[a][b] implies self@.revealed[a][b] by {
                                        assert(before.revealed[a][b]);
                                    }
                                    assert(!s.is_mine(n));
                                    assert forall|c: (int, int)| #[trigger] s.newly_revealed(self@, c) implies !s.is_mine(c) && !s.is_flagged(c) by {
                                        if c != n {
                                            assert(s.newly_revealed(before, c));
                                        }
                                    }
                                }
                            }
                        }
                        dj += 1;
                    }
                    di += 1;
                }
            }
            head += 1;
        }
        proof {
            assert(s.flood_order(self@, seeds, order));
            assert forall|c: (int, int), d: (int, int)|
                #[trigger] s.newly_revealed(self@, c) && s.mines_around(c) == 0 && s.in_bounds(d)
                    && #[trigger] adjacent(c, d) && !s.is_flagged(d) implies self@.is_revealed(d) by {
                assert(order.contains(c));
                let x = choose|x: int| 0 <= x < order.len() && order[x] == c;
                assert(adjacent(order[x], d));
            }
            assert forall|c: (int, int)| #[trigger] seeds.contains(c) implies s.in_bounds(c) && self@.is_revealed(c) by {
                assert(c == (i as int, j as int));
            }
        }
    }
}

impl MineField {
    /// Whether every cell that is not a mine is revealed, by the running count.
    fn game_won(&self) -> (r: bool)
        requires
            self.wf(),
        ensures
            r == self@.won(),
    {
        proof {
            lemma_grid_count_bound(self@.mines, self@.height, self@.width);
        }
        self.n_revealed == self.dim.0 * self.dim.1 - self.n_mines
    }

    /// The win check after a flood: on a win every mine is revealed.
    fn conclude(&mut self) -> (r: MoveResult)
        requires
            old(self).wf(),
        ensures
            final(self).wf(),
            old(self)@.won() ==> r == MoveResult::Win && final(self)@ == old(self)@.swept(),
            !old(self)@.won() ==> r == MoveResult::Continue && final(self)@ == old(self)@,
    {
        if self.game_won() {
            self.reveal_all_mines();
            MoveResult::Win
        } else {
            MoveResult::Continue
        }
    }

    /// Moves the mine at `from` to the cell `to`, which holds none, and recomputes the mine
    /// counts. Only done before anything is revealed.
    fn move_mine(&mut self, from: (usize, usize), to: (usize, usize))
        requires
            old(self).wf(),
            old(self)@.revealed_count == 0,
            old(self)@.in_bounds((from.0 as int, from.1 as int)),
            old(self)@.in_bounds((to.0 as int, to.1 as int)),
            old(self)@.is_mine((from.0 as int, from.1 as int)),
            !old(self)@.is_mine((to.0 as int, to.1 as int)),
            !old(self)@.is_revealed((from.0 as int, from.1 as int)),
        ensures
            final(self).wf(),
            final(self)@ == old(self)@.relocated(
                (from.0 as int, from.1 as int),
                (to.0 as int, to.1 as int),
            ),
    {
        let ghost s = self@;
        proof {
            lemma_nothing_safe_revealed(s);
            lemma_grid_count_set(s.mines, from.0 as int, from.1 as int, false);
        }
        self.mines.set(from.0, from.1, false);
        proof {
            lemma_grid_count_set(bool_rows(self.mines), to.0 as int, to.1 as int, true);
        }
        self.mines.set(to.0, to.1, true);
        proof {
            lemma_sides_bounded(self.dim.0 as int, self.dim.1 as int);
        }
        self.neighbors = neighbor_counts(&self.mines, self.dim.0, self.dim.1);
        proof {
            let t = self@;
            assert(t.mines == s.relocated((from.0 as int, from.1 as int), (to.0 as int, to.1 as int)).mines);
            assert(t.safe_revealed() =~~= s.safe_revealed()) by {
                assert forall|i: int, j: int| 0 <= i < t.height && 0 <= j < t.width implies t.safe_revealed()[i][j] == s.safe_revealed()[i][j] by {
                    if (i, j) == (to.0 as int, to.1 as int) {
                        assert(!s.is_revealed((i, j)));
                    }
                }
            }
        }
    }

    /// Reveals the hidden, unflagged cells around the revealed cell `(i, j)` when the flags
    /// around it match its mine count.
    fn chord(&mut self, i: usize, j: usize) -> (r: MoveResult)
        requires
            old(self).wf(),
            old(self)@.in_bounds((i as int, j as int)),
            old(self)@.is_revealed((i as int, j as int)),
        ensures
            final(self).wf(),
            old(self)@.chorded((i as int, j as int), final(self)@, r),
    {
        let ghost s = self@;
        let ghost c = (i as int, j as int);
        let ghost sd = s.chord_seeds(c);
        let h = self.dim.0;
        let w = self.dim.1;
        let nn_mines = self.neighbors.get(i, j);
        let nn_flags = count_around(&self.flagged, h, w, i, j);
        if nn_mines != nn_flags {
            return MoveResult::Continue;
        }
        assert(h <= h * w && w <= h * w) by (nonlinear_arith)
            requires
                w > 0,
                h > 0,
        ;
        proof {
            lemma_flooded_none(s);
            assert(Set::new(|d: (int, int)| sd.contains(d) && (d.0 - c.0 + 1 < 0)) =~= Set::<(int, int)>::empty());
        }
        let mut di: usize = 0;
        while di < 3
            invariant
                self.wf(),
                h == s.height,
                w == s.width,
                h <= isize::MAX,
                w <= isize::MAX,
                s.in_bounds(c),
                c == (i as int, j as int),
                sd == s.chord_seeds(c),
                s == old(self)@,
                s.valid(),
                s.flags_around(c) == s.mines_around(c),
                di <= 3,
                s.flooded(self@, Set::new(|d: (int, int)| sd.contains(d) && d.0 - c.0 + 1 < di)),
                forall|d: (int, int)| sd.contains(d) && d.0 - c.0 + 1 < di ==> !s.is_mine(d),
                !(self@.won() && self@.revealed_count > s.revealed_count),
            decreases 3 - di,
        {
            let mut dj: usize = 0;
            proof {
                assert(Set::new(|d: (int, int)| sd.contains(d) && (d.0 - c.0 + 1 < di || (d.0 - c.0 + 1 == di && d.1 - c.1 + 1 < 0)))
                    =~= Set::new(|d: (int, int)| sd.contains(d) && d.0 - c.0 + 1 < di));
            }
            while dj < 3
                invariant
                    self.wf(),
                    h == s.height,
                    w == s.width,
                    h <= isize::MAX,
                    w <= isize::MAX,
                    s.in_bounds(c),
                    c == (i as int, j as int),
                    sd == s.chord_seeds(c),
                    s == old(self)@,
                    s.valid(),
                    s.flags_around(c) == s.mines_around(c),
                    di < 3,
                    dj <= 3,
                    s.flooded(self@, Set::new(|d: (int, int)| sd.contains(d) && (d.0 - c.0 + 1 < di || (d.0 - c.0 + 1 == di && d.1 - c.1 + 1 < dj)))),
                    forall|d: (int, int)| sd.contains(d) && (d.0 - c.0 + 1 < di || (d.0 - c.0 + 1 == di && d.1 - c.1 + 1 < dj)) ==> !s.is_mine(d),
                    !(self@.won() && self@.revealed_count > s.revealed_count),
                decreases 3 - dj,
            {
                let ghost done = Set::new(|d: (int, int)| sd.contains(d) && (d.0 - c.0 + 1 < di || (d.0 - c.0 + 1 == di && d.1 - c.1 + 1 < dj)));
                let ghost next = Set::new(|d: (int, int)| sd.contains(d) && (d.0 - c.0 + 1 < di || (d.0 - c.0 + 1 == di && d.1 - c.1 + 1 < dj + 1)));
                if (di != 1 || dj != 1) && i + di >= 1 && j + dj >= 1 && i + di - 1 < h && j + dj - 1 < w {
                    let ni = i + di - 1;
                    let nj = j + dj - 1;
                    let ghost n = (ni as int, nj as int);
                    if !self.revealed.get(ni, nj) && !self.flagged.get(ni, nj) {
                        assert(sd.contains(n));
                        assert(next =~= done.insert(n));
                        if self.mines.get(ni, nj) {
                            let ghost mid = self@;
                            self.reveal_all_mines();
                            proof {
                                assert(s.is_first_mine_seed(c, n));
                                assert(s.has_mine_seed(c));
                                let m = choose|m: (int, int)| s.is_first_mine_seed(c, m);
                                lemma_first_mine_seed_unique(s, c, m, n);
                                let early = Set::new(|d: (int, int)| sd.contains(d) && before(d, m));
                                assert(early =~= done);
                                assert(s.flooded(mid, early));
                            }
                            return MoveResult::Lose;
                        }
                        let ghost before_flood = self@;
                        self.flood_from(ni, nj);
                        proof {
                            lemma_flooded_trans(s, before_flood, self@, done, set![n]);
                            assert(done.union(set![n]) =~= next);
                            lemma_flooded_count(s, self@, next, n);
                        }
                        if self.game_won() {
                            let ghost mid = self@;
                            proof {
                                lemma_won_iff_all_safe_revealed(mid);
                                if s.has_mine_seed(c) {
                                    lemma_first_mine_seed_exists(s, c);
                                    let m = choose|m: (int, int)| s.is_first_mine_seed(c, m);
                                    let early = Set::new(|d: (int, int)| sd.contains(d) && before(d, m));
                                    assert(next.subset_of(early)) by {
                                        assert forall|d: (int, int)| next.contains(d) implies early.contains(d) by {
                                            assert(m != n);
                                            if !before(m, n) {
                                            } else {
                                                assert(!done.contains(m));
                                            }
                                        }
                                    }
                                    assert forall|d: (int, int)| #[trigger] early.contains(d) implies s.in_bounds(d) && mid.is_revealed(d) by {
                                        assert(!s.is_mine(d));
                                    }
                                    lemma_flooded_more_seeds(s, mid, next, early);
                                } else {
                                    assert forall|d: (int, int)| #[trigger] sd.contains(d) implies s.in_bounds(d) && mid.is_revealed(d) by {
                                        assert(!s.is_mine(d));
                                    }
                                    lemma_flooded_more_seeds(s, mid, next, sd);
                                }
                            }
                            self.reveal_all_mines();
                            return MoveResult::Win;
                        }
                    } else {
                        proof {
                            if sd.contains(n) {
                                assert(next =~= done.insert(n));
                                assert(s.newly_revealed(self@, n));
                                lemma_flooded_more_seeds(s, self@, done, next);
                            } else {
                                assert(next =~= done);
                            }
                        }
                    }
                } else {
                    proof {
                        assert(next =~= done);
                    }
                }
                dj += 1;
            }
            proof {
                assert(Set::new(|d: (int, int)| sd.contains(d) && (d.0 - c.0 + 1 < di || (d.0 - c.0 + 1 == di && d.1 - c.1 + 1 < 3)))
                    =~= Set::new(|d: (int, int)| sd.contains(d) && d.0 - c.0 + 1 < di + 1));
            }
            di += 1;
        }
        proof {
            assert(Set::new(|d: (int, int)| sd.contains(d) && d.0 - c.0 + 1 < 3) =~= sd);
            assert(!s.has_mine_seed(c));
            assert(s.concluded(self@, self@, MoveResult::Continue));
        }
        MoveResult::Continue
    }
}


impl MineField {
    /// Every cell that holds no mine, in row-major order.
    fn free_cells(&self) -> (r: Vec<(usize, usize)>)
        requires
            self.wf(),
        ensures
            forall|k: int|
                0 <= k < r@.len() ==> self@.in_bounds((r@[k].0 as int, r@[k].1 as int)) && !self@.is_mine(
                    (r@[k].0 as int, r@[k].1 as int),
                ),
            forall|c: (int, int)|
                self@.in_bounds(c) && !self@.is_mine(c) ==> exists|k: int|
                    0 <= k < r@.len() && r@[k].0 == c.0 && r@[k].1 == c.1,
    {
        let h = self.dim.0;
        let w = self.dim.1;
        let mut r: Vec<(usize, usize)> = Vec::new();
        let mut i: usize = 0;
        while i < h
            invariant
                self.wf(),
                h == self@.height,
                w == self@.width,
                i <= h,
                forall|k: int|
                    0 <= k < r@.len() ==> self@.in_bounds((r@[k].0 as int, r@[k].1 as int))
                        && !self@.is_mine((r@[k].0 as int, r@[k].1 as int)),
                forall|c: (int, int)|
                    self@.in_bounds(c) && !self@.is_mine(c) && c.0 < i ==> exists|k: int|
                        0 <= k < r@.len() && r@[k].0 == c.0 && r@[k].1 == c.1,
            decreases h - i,
        {
            let mut j: usize = 0;
            while j < w
                invariant
                    self.wf(),
                    h == self@.height,
                    w == self@.width,
                    i < h,
                    j <= w,
                    forall|k: int|
                        0 <= k < r@.len() ==> self@.in_bounds((r@[k].0 as int, r@[k].1 as int))
                            && !self@.is_mine((r@[k].0 as int, r@[k].1 as int)),
                    forall|c: (int, int)|
                        self@.in_bounds(c) && !self@.is_mine(c) && (c.0 < i || (c.0 == i && c.1 < j))
                            ==> exists|k: int| 0 <= k < r@.len() && r@[k].0 == c.0 && r@[k].1 == c.1,
                decreases w - j,
            {
                if !self.mines.get(i, j) {
                    let ghost old_r = r@;
                    r.push((i, j));
                    proof {
                        assert forall|c: (int, int)|
                            self@.in_bounds(c) && !self@.is_mine(c) && (c.0 < i || (c.0 == i && c.1 < j + 1))
                                implies exists|k: int| 0 <= k < r@.len() && r@[k].0 == c.0 && r@[k].1 == c.1 by {
                            if c.0 == i && c.1 == j {
                                assert(r@[r@.len() - 1] == (i, j));
                            } else {
                                let k = choose|k: int| 0 <= k < old_r.len() && old_r[k].0 == c.0 && old_r[k].1 == c.1;
                                assert(r@[k] == old_r[k]);
                            }
                        }
                    }
                }
                j += 1;
            }
            i += 1;
        }
        r
    }

    /// Reveals the cell at `p`; see `Board::reveal_outcome` for every case. A hidden cell
    /// that is not a mine is revealed together with the flood fill from it; a revealed cell
    /// is chorded; a flagged cell is left alone; a mine loses the game, except on the first
    /// reveal, where it is moved to a cell drawn at random among those without a mine.
    pub fn reveal_sq(&mut self, p: &Point) -> (r: MoveResult)
        requires
            old(self).wf(),
        ensures
            final(self).wf(),
            old(self)@.reveal_outcome(cell_of(*p), final(self)@, r),
    {
        let ghost s = self@;
        let ghost c = cell_of(*p);
        if !self.contains(p) {
            return out_of_bounds();
        }
        let (i, j) = p.tuple();
        if self.is_revealed(p).unwrap() {
            return self.chord(i, j);
        }
        if self.is_flag(p).unwrap() {
            return MoveResult::Continue;
        }
        if self.peek_mine(p).unwrap() {
            if self.n_revealed == 0 && self.n_mines < self.dim.0 * self.dim.1 {
                proof {
                    lemma_some_safe_cell(s);
                }
                let free = self.free_cells();
                proof {
                    let d = choose|d: (int, int)| s.in_bounds(d) && !s.is_mine(d);
                    let k = choose|k: int| 0 <= k < free@.len() && free@[k].0 == d.0 && free@[k].1 == d.1;
                }
                let to = choose_one(&free);
                proof {
                    let k = choose|k: int| 0 <= k < free@.len() && free@[k] == to;
                }
                self.move_mine((i, j), to);
                let ghost moved = self@;
                self.flood_from(i, j);
                proof {
                    assert(set![c].contains(c));
                    assert(moved.newly_revealed(self@, c));
                    lemma_flooded_count(moved, self@, set![c], c);
                }
                let ghost mid = self@;
                let r = self.conclude();
                proof {
                    assert(moved.concluded(mid, self@, r));
                    assert(moved.settles(set![c], self@, r));
                    assert(s.in_bounds((to.0 as int, to.1 as int)) && !s.is_mine((to.0 as int, to.1 as int)));
                }
                return r;
            } else {
                self.reveal_all_mines();
                return MoveResult::Lose;
            }
        }
        self.flood_from(i, j);
        proof {
            assert(set![c].contains(c));
            assert(s.newly_revealed(self@, c));
            lemma_flooded_count(s, self@, set![c], c);
        }
        let ghost mid = self@;
        let r = self.conclude();
        proof {
            assert(s.concluded(mid, self@, r));
        }
        r
    }
}

impl MineField {
    /// A well-formed field shows a valid board, so the laws over boards apply to it.
    pub proof fn lemma_wf_valid(f: &MineField)
        requires
            f.wf(),
        ensures
            f@.valid(),
    {
    }

    /// The stored mine count of the cell `c`.
    pub closed spec fn neighbor_count(&self, c: (int, int)) -> int {
        count_rows(self.neighbors)[c.0][c.1] as int
    }

    /// The stored mine count of every cell is the number of mines among its neighbors on
    /// the grid; the constructors establish this and every move keeps it.
    pub proof fn lemma_neighbor_counts(f: &MineField)
        requires
            f.wf(),
        ensures
            forall|c: (int, int)|
                f@.in_bounds(c) ==> #[trigger] f.neighbor_count(c) == f@.mines_around(c),
            forall|c: (int, int)|
                f@.in_bounds(c) ==> 0 <= #[trigger] f@.mines_around(c) <= 8,
    {
        assert forall|c: (int, int)| f@.in_bounds(c) implies #[trigger] f.neighbor_count(c) == f@.mines_around(c) by {
            assert(count_rows(f.neighbors)[c.0][c.1] as int == f@.mines_around((c.0, c.1)));
        }
    }
}

} // verus!
