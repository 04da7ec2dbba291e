//! The minefield as the proofs see it: the board, what revealing a cell and toggling a flag
//! do to it, and the laws that hold of them.
use vstd::prelude::*;

use crate::counting::{
    grid_count, lemma_grid_count_complement, lemma_grid_count_le, lemma_grid_count_set,
    lemma_grid_count_uniform_false, negated, uniform,
};
use crate::grid::{around, cell_value, has_shape};
use crate::point::Point;

verus! {

// ---------------------------------------------------------------------------------------------
// The board
// ---------------------------------------------------------------------------------------------

/// What a cell shows to the player.
#[derive(Clone, Copy, Debug, PartialEq, Eq, Structural)]
pub enum SquareView {
    /// Not revealed, not flagged.
    Hidden,
    /// Not revealed, flagged.
    Flag,
    /// Revealed, not a mine, with this many mines around it.
    Revealed(u32),
    /// Revealed, a mine.
    Mine,
}

/// The outcome of a move.
#[derive(Debug, PartialEq)]
pub enum MoveResult {
    /// The game is lost.
    Lose,
    /// The game is won.
    Win,
    /// The move was applied and the game goes on.
    Continue,
    /// The move was rejected and nothing changed.
    Error(String),
}

/// The state of a minefield: grid size, where the mines are, which cells are revealed and
/// flagged, and the running number of revealed cells that are not mines.
pub struct Board {
    pub height: nat,
    pub width: nat,
    pub mines: Seq<Seq<bool>>,
    pub revealed: Seq<Seq<bool>>,
    pub flagged: Seq<Seq<bool>>,
    pub revealed_count: nat,
}

impl Board {
    /// `c` lies on the grid.
    pub open spec fn in_bounds(self, c: (int, int)) -> bool {
        0 <= c.0 < self.height && 0 <= c.1 < self.width
    }

    /// The number of mines among the cells around `c`.
    pub open spec fn mines_around(self, c: (int, int)) -> int {
        around(self.mines, c.0, c.1)
    }

    /// The number of flags among the cells around `c`.
    pub open spec fn flags_around(self, c: (int, int)) -> int {
        around(self.flagged, c.0, c.1)
    }

    pub open spec fn is_mine(self, c: (int, int)) -> bool {
        self.mines[c.0][c.1]
    }

    pub open spec fn is_revealed(self, c: (int, int)) -> bool {
        self.revealed[c.0][c.1]
    }

    pub open spec fn is_flagged(self, c: (int, int)) -> bool {
        self.flagged[c.0][c.1]
    }

    /// Revealed cells that are not mines.
    pub open spec fn safe_revealed(self) -> Seq<Seq<bool>> {
        Seq::new(
            self.height,
            |i: int| Seq::new(self.width, |j: int| self.revealed[i][j] && !self.mines[i][j]),
        )
    }

    /// The number of mines on the board.
    pub open spec fn mine_total(self) -> nat {
        grid_count(self.mines)
    }

    pub open spec fn cell_total(self) -> nat {
        self.height * self.width
    }

    /// Sizes agree, no cell is both revealed and flagged, and `revealed_count` counts the
    /// revealed cells that are not mines.
    pub open spec fn valid(self) -> bool {
        &&& self.height > 0
        &&& self.width > 0
        &&& self.height * self.width <= isize::MAX
        &&& has_shape(self.mines, self.height, self.width)
        &&& has_shape(self.revealed, self.height, self.width)
        &&& has_shape(self.flagged, self.height, self.width)
        &&& forall|i: int, j: int|
            self.in_bounds((i, j)) ==> !(#[trigger] self.revealed[i][j] && self.flagged[i][j])
        &&& self.revealed_count == grid_count(self.safe_revealed())
    }

    /// A fresh board: nothing revealed, nothing flagged.
    pub open spec fn is_fresh(self) -> bool {
        &&& self.revealed == uniform(self.height, self.width, false)
        &&& self.flagged == uniform(self.height, self.width, false)
        &&& self.revealed_count == 0
    }

    /// Every cell that is not a mine has been revealed, by the running count.
    pub open spec fn won(self) -> bool {
        self.revealed_count == self.cell_total() - self.mine_total()
    }

    /// What cell `c` shows.
    pub open spec fn square(self, c: (int, int)) -> SquareView {
        if !self.is_revealed(c) {
            if self.is_flagged(c) {
                SquareView::Flag
            } else {
                SquareView::Hidden
            }
        } else if self.is_mine(c) {
            SquareView::Mine
        } else {
            SquareView::Revealed(self.mines_around(c) as u32)
        }
    }

    /// The board with every mine revealed (and its flag, if any, cleared).
    pub open spec fn swept(self) -> Board {
        Board {
            revealed: Seq::new(
                self.height,
                |i: int| Seq::new(self.width, |j: int| self.revealed[i][j] || self.mines[i][j]),
            ),
            flagged: Seq::new(
                self.height,
                |i: int| Seq::new(self.width, |j: int| self.flagged[i][j] && !self.mines[i][j]),
            ),
            ..self
        }
    }

    /// The board with the mine at `from` moved to `to`.
    pub open spec fn relocated(self, from: (int, int), to: (int, int)) -> Board {
        let m1 = self.mines.update(from.0, self.mines[from.0].update(from.1, false));
        Board { mines: m1.update(to.0, m1[to.0].update(to.1, true)), ..self }
    }

    /// The board with the flag at `c` inverted.
    pub open spec fn flag_toggled(self, c: (int, int)) -> Board {
        Board {
            flagged: self.flagged.update(c.0, self.flagged[c.0].update(c.1, !self.flagged[c.0][c.1])),
            ..self
        }
    }

    /// Toggling the flag at `c` of `self` gives `t` and `r`: off the grid the move is
    /// rejected; a revealed cell is left alone; any other cell has its flag inverted.
    pub open spec fn flag_outcome(self, c: (int, int), t: Board, r: MoveResult) -> bool {
        if !self.in_bounds(c) {
            is_out_of_bounds(r) && t == self
        } else if self.is_revealed(c) {
            r == MoveResult::Continue && t == self
        } else {
            r == MoveResult::Continue && t == self.flag_toggled(c)
        }
    }

    /// `t` differs from `self` in the revealed cells alone.
    pub open spec fn same_but_revealed(self, t: Board) -> bool {
        &&& t.height == self.height
        &&& t.width == self.width
        &&& t.mines == self.mines
        &&& t.flagged == self.flagged
        &&& has_shape(t.revealed, self.height, self.width)
    }

    /// Cell `c` is revealed in `t` and was not in `self`.
    pub open spec fn newly_revealed(self, t: Board, c: (int, int)) -> bool {
        self.in_bounds(c) && t.is_revealed(c) && !self.is_revealed(c)
    }

    /// `order` lists the cells newly revealed in `t`, each once, and each one is a seed or
    /// touches a cell listed before it that has no mine around it.
    pub open spec fn flood_order(self, t: Board, seeds: Set<(int, int)>, order: Seq<(int, int)>) -> bool {
        &&& order.no_duplicates()
        &&& forall|c: (int, int)| #[trigger] order.contains(c) <==> self.newly_revealed(t, c)
        &&& forall|x: int|
            0 <= x < order.len() ==> seeds.contains(#[trigger] order[x]) || exists|y: int|
                0 <= y < x && self.mines_around(order[y]) == 0 && adjacent(order[y], order[x])
    }

    /// `t` is `self` after the flood fill from the cells `seeds`: the seeds are revealed, and
    /// from every newly revealed cell with no mine around it every unflagged neighbor is
    /// revealed; nothing else is newly revealed, no mine and no flagged cell among them.
    pub open spec fn flooded(self, t: Board, seeds: Set<(int, int)>) -> bool {
        &&& self.same_but_revealed(t)
        &&& forall|i: int, j: int|
            self.in_bounds((i, j)) && #[trigger] self.revealed[i][j] ==> t.revealed[i][j]
        &&& forall|c: (int, int)| #[trigger] seeds.contains(c) ==> self.in_bounds(c) && t.is_revealed(c)
        &&& forall|c: (int, int)|
            #[trigger] self.newly_revealed(t, c) ==> !self.is_mine(c) && !self.is_flagged(c)
        &&& forall|c: (int, int), d: (int, int)|
            #[trigger] self.newly_revealed(t, c) && self.mines_around(c) == 0 && self.in_bounds(d)
                && #[trigger] adjacent(c, d) && !self.is_flagged(d) ==> t.is_revealed(d)
        &&& exists|order: Seq<(int, int)>| self.flood_order(t, seeds, order)
        &&& t.valid()
    }
}

/// `a` and `b` are distinct cells that touch, orthogonally or diagonally.
pub open spec fn adjacent(a: (int, int), b: (int, int)) -> bool {
    &&& a != b
    &&& -1 <= a.0 - b.0 <= 1
    &&& -1 <= a.1 - b.1 <= 1
}

/// The board cell of a point.
pub open spec fn cell_of(p: Point) -> (int, int) {
    (p.row() as int, p.col() as int)
}

/// The rejection of a move at a point off the grid.
pub open spec fn is_out_of_bounds(r: MoveResult) -> bool {
    match r {
        MoveResult::Error(msg) => msg@ == "index OOB"@,
        _ => false,
    }
}

/// Around a cell with no mine around it, no neighbor is a mine.
pub(crate) proof fn lemma_zero_around(g: Seq<Seq<bool>>, c: (int, int), d: (int, int))
    requires
        around(g, c.0, c.1) == 0,
        adjacent(c, d),
    ensures
        cell_value(g, d.0, d.1) == 0,
{
    assert(cell_value(g, c.0 - 1, c.1 - 1) >= 0);
    assert(cell_value(g, c.0 - 1, c.1) >= 0);
    assert(cell_value(g, c.0 - 1, c.1 + 1) >= 0);
    assert(cell_value(g, c.0, c.1 - 1) >= 0);
    assert(cell_value(g, c.0, c.1 + 1) >= 0);
    assert(cell_value(g, c.0 + 1, c.1 - 1) >= 0);
    assert(cell_value(g, c.0 + 1, c.1) >= 0);
    assert(cell_value(g, c.0 + 1, c.1 + 1) >= 0);
    if d.0 == c.0 - 1 {
        if d.1 == c.1 - 1 {
        } else if d.1 == c.1 {
        } else {
        }
    } else if d.0 == c.0 {
        if d.1 == c.1 - 1 {
        } else {
        }
    } else {
        if d.1 == c.1 - 1 {
        } else if d.1 == c.1 {
        } else {
        }
    }
}

// ---------------------------------------------------------------------------------------------
// Facts about boards and floods
// ---------------------------------------------------------------------------------------------

impl Board {
    /// Every cell that is not a mine is revealed.
    pub open spec fn all_safe_revealed(self) -> bool {
        forall|c: (int, int)| self.in_bounds(c) && !self.is_mine(c) ==> #[trigger] self.is_revealed(c)
    }
}

/// A win is declared exactly when the running count of revealed cells reaches the number of
/// cells minus the number of mines; on a valid board that is exactly when every cell that is
/// not a mine has been revealed.
pub proof fn lemma_won_iff_all_safe_revealed(b: Board)
    requires
        b.valid(),
    ensures
        b.won() <==> b.all_safe_revealed(),
{
    let safe = negated(b.mines);
    assert(has_shape(safe, b.height, b.width));
    assert(has_shape(b.safe_revealed(), b.height, b.width));
    lemma_grid_count_complement(b.mines, b.height, b.width);
    lemma_grid_count_le(b.safe_revealed(), safe, b.height, b.width);
    if b.won() {
        assert forall|c: (int, int)| b.in_bounds(c) && !b.is_mine(c) implies #[trigger] b.is_revealed(c) by {
            assert(b.safe_revealed()[c.0][c.1] == safe[c.0][c.1]);
        }
    }
    if b.all_safe_revealed() {
        assert forall|i: int, j: int| 0 <= i < b.height && 0 <= j < b.width && #[trigger] safe[i][j] implies b.safe_revealed()[i][j] by {
            assert(b.is_revealed((i, j)));
        }
        lemma_grid_count_le(safe, b.safe_revealed(), b.height, b.width);
    }
}

/// On a valid board with fewer mines than cells some cell is not a mine.
pub(crate) proof fn lemma_some_safe_cell(b: Board)
    requires
        b.valid(),
        b.mine_total() < b.cell_total(),
    ensures
        exists|c: (int, int)| b.in_bounds(c) && !b.is_mine(c),
{
    lemma_grid_count_complement(b.mines, b.height, b.width);
    let none = uniform(b.height, b.width, false);
    lemma_grid_count_uniform_false(b.height, b.width);
    if forall|c: (int, int)| b.in_bounds(c) ==> b.is_mine(c) {
        assert forall|i: int, j: int| 0 <= i < b.height && 0 <= j < b.width && #[trigger] negated(b.mines)[i][j] implies none[i][j] by {
            assert(b.is_mine((i, j)));
        }
        lemma_grid_count_le(negated(b.mines), none, b.height, b.width);
    }
}

/// A valid board with no revealed cell but mines has no revealed cell that is not a mine.
pub(crate) proof fn lemma_nothing_safe_revealed(b: Board)
    requires
        b.valid(),
        b.revealed_count == 0,
    ensures
        forall|c: (int, int)| b.in_bounds(c) && !b.is_mine(c) ==> !#[trigger] b.is_revealed(c),
{
    let none = uniform(b.height, b.width, false);
    lemma_grid_count_uniform_false(b.height, b.width);
    assert forall|i: int, j: int| 0 <= i < b.height && 0 <= j < b.width && #[trigger] none[i][j] implies b.safe_revealed()[i][j] by {
    }
    lemma_grid_count_le(none, b.safe_revealed(), b.height, b.width);
    assert forall|c: (int, int)| b.in_bounds(c) && !b.is_mine(c) implies !#[trigger] b.is_revealed(c) by {
        assert(none[c.0][c.1] == b.safe_revealed()[c.0][c.1]);
    }
}

/// Flooding from no seeds changes nothing.
pub(crate) proof fn lemma_flooded_none(s: Board)
    requires
        s.valid(),
    ensures
        s.flooded(s, Set::empty()),
{
    let order = Seq::<(int, int)>::empty();
    assert(s.flood_order(s, Set::empty(), order));
}

/// A flood followed by another is the flood from both sets of seeds.
pub(crate) proof fn lemma_flooded_trans(s: Board, a: Board, b: Board, sa: Set<(int, int)>, sb: Set<(int, int)>)
    requires
        s.flooded(a, sa),
        a.flooded(b, sb),
    ensures
        s.flooded(b, sa.union(sb)),
{
    let oa = choose|o: Seq<(int, int)>| s.flood_order(a, sa, o);
    let ob = choose|o: Seq<(int, int)>| a.flood_order(b, sb, o);
    let o = oa + ob;
    let seeds = sa.union(sb);
    assert forall|c: (int, int)| #[trigger] o.contains(c) <==> s.newly_revealed(b, c) by {
        if o.contains(c) {
            let x = choose|x: int| 0 <= x < o.len() && o[x] == c;
            if x < oa.len() {
                assert(oa.contains(c));
            } else {
                assert(ob[x - oa.len()] == c);
                assert(ob.contains(c));
            }
        }
        if s.newly_revealed(b, c) {
            if a.is_revealed(c) {
                assert(oa.contains(c));
                let x = choose|x: int| 0 <= x < oa.len() && oa[x] == c;
                assert(o[x] == c);
            } else {
                assert(a.newly_revealed(b, c));
                assert(ob.contains(c));
                let x = choose|x: int| 0 <= x < ob.len() && ob[x] == c;
                assert(o[x + oa.len()] == c);
            }
        }
    }
    assert(o.no_duplicates()) by {
        assert forall|x: int, y: int| 0 <= x < o.len() && 0 <= y < o.len() && x != y implies o[x] != o[y] by {
            if x < oa.len() && y >= oa.len() {
                assert(oa.contains(o[x]));
                assert(ob.contains(o[y])) by {
                    assert(ob[y - oa.len()] == o[y]);
                }
            } else if x >= oa.len() && y < oa.len() {
                assert(oa.contains(o[y]));
                assert(ob.contains(o[x])) by {
                    assert(ob[x - oa.len()] == o[x]);
                }
            } else if x >= oa.len() && y >= oa.len() {
                assert(ob[x - oa.len()] == o[x]);
                assert(ob[y - oa.len()] == o[y]);
            }
        }
    }
    assert forall|x: int|
        0 <= x < o.len() implies seeds.contains(#[trigger] o[x]) || exists|y: int|
            0 <= y < x && s.mines_around(o[y]) == 0 && adjacent(o[y], o[x]) by {
        if x < oa.len() {
            assert(o[x] == oa[x]);
            if !sa.contains(oa[x]) {
                let y = choose|y: int| 0 <= y < x && s.mines_around(oa[y]) == 0 && adjacent(oa[y], oa[x]);
                assert(o[y] == oa[y]);
            }
        } else {
            let xb = x - oa.len();
            assert(o[x] == ob[xb]);
            if !sb.contains(ob[xb]) {
                let y = choose|y: int| 0 <= y < xb && a.mines_around(ob[y]) == 0 && adjacent(ob[y], ob[xb]);
                assert(o[y + oa.len()] == ob[y]);
            }
        }
    }
    assert(s.flood_order(b, seeds, o));
    assert forall|c: (int, int)| #[trigger] s.newly_revealed(b, c) implies !s.is_mine(c) && !s.is_flagged(c) by {
        if !a.is_revealed(c) {
            assert(a.newly_revealed(b, c));
        } else {
            assert(s.newly_revealed(a, c));
        }
    }
    assert forall|c: (int, int), d: (int, int)|
        #[trigger] s.newly_revealed(b, c) && s.mines_around(c) == 0 && s.in_bounds(d)
            && #[trigger] adjacent(c, d) && !s.is_flagged(d) implies b.is_revealed(d) by {
        if !a.is_revealed(c) {
            assert(a.newly_revealed(b, c));
        } else {
            assert(s.newly_revealed(a, c));
            assert(a.is_revealed(d));
        }
    }
    assert forall|i: int, j: int| s.in_bounds((i, j)) && #[trigger] s.revealed[i][j] implies b.revealed[i][j] by {
        assert(a.revealed[i][j]);
    }
    assert forall|c: (int, int)| #[trigger] seeds.contains(c) implies s.in_bounds(c) && b.is_revealed(c) by {
        if sa.contains(c) {
            assert(a.is_revealed(c));
            assert(b.revealed[c.0][c.1]);
        }
    }
}

/// A flood also counts as one from more seeds, where those are revealed as well.
pub(crate) proof fn lemma_flooded_more_seeds(s: Board, t: Board, sa: Set<(int, int)>, sb: Set<(int, int)>)
    requires
        s.flooded(t, sa),
        sa.subset_of(sb),
        forall|c: (int, int)| #[trigger] sb.contains(c) ==> s.in_bounds(c) && t.is_revealed(c),
    ensures
        s.flooded(t, sb),
{
    let o = choose|o: Seq<(int, int)>| s.flood_order(t, sa, o);
    assert(s.flood_order(t, sb, o));
}

// ---------------------------------------------------------------------------------------------
// What a reveal does
// ---------------------------------------------------------------------------------------------

/// `a` comes before `b` in row-major order.
pub open spec fn before(a: (int, int), b: (int, int)) -> bool {
    a.0 < b.0 || (a.0 == b.0 && a.1 < b.1)
}

impl Board {
    /// After the flood from `self` to `mid`: a win, with every mine shown, when the flood
    /// revealed something and the win condition holds; otherwise the game goes on at `mid`.
    pub open spec fn concluded(self, mid: Board, t: Board, r: MoveResult) -> bool {
        if mid.won() && mid.revealed_count > self.revealed_count {
            r == MoveResult::Win && t == mid.swept()
        } else {
            r == MoveResult::Continue && t == mid
        }
    }

    /// Revealing the hidden, unflagged, mine-free cells `seeds` of `self` gives `t` and `r`.
    pub open spec fn settles(self, seeds: Set<(int, int)>, t: Board, r: MoveResult) -> bool {
        exists|mid: Board| self.flooded(mid, seeds) && self.concluded(mid, t, r)
    }

    /// The hidden, unflagged cells around `c`: the ones a chord on `c` reveals.
    pub open spec fn chord_seeds(self, c: (int, int)) -> Set<(int, int)> {
        Set::new(
            |d: (int, int)|
                self.in_bounds(d) && adjacent(c, d) && !self.is_revealed(d) && !self.is_flagged(d),
        )
    }

    /// `m` is a mine among the chord seeds of `c`, and the first such in row-major order.
    pub open spec fn is_first_mine_seed(self, c: (int, int), m: (int, int)) -> bool {
        &&& self.chord_seeds(c).contains(m)
        &&& self.is_mine(m)
        &&& forall|m2: (int, int)|
            #[trigger] self.chord_seeds(c).contains(m2) && self.is_mine(m2) ==> !before(m2, m)
    }

    /// Some chord seed of `c` is a mine.
    pub open spec fn has_mine_seed(self, c: (int, int)) -> bool {
        exists|m: (int, int)| #[trigger] self.chord_seeds(c).contains(m) && self.is_mine(m)
    }

    /// A chord on the revealed cell `c` gives `t` and `r`. When the flags around `c` do not
    /// match its mine count nothing happens. Otherwise its hidden, unflagged neighbors are
    /// revealed in row-major order: up to the first mine among them, if any, which loses
    /// the game (unless the board was won before it); else all of them.
    pub open spec fn chorded(self, c: (int, int), t: Board, r: MoveResult) -> bool {
        if self.flags_around(c) != self.mines_around(c) {
            r == MoveResult::Continue && t == self
        } else if self.has_mine_seed(c) {
            let m = choose|m: (int, int)| self.is_first_mine_seed(c, m);
            let early = Set::new(|d: (int, int)| self.chord_seeds(c).contains(d) && before(d, m));
            exists|mid: Board|
                self.flooded(mid, early) && t == mid.swept() && r == if mid.won()
                    && mid.revealed_count > self.revealed_count {
                    MoveResult::Win
                } else {
                    MoveResult::Lose
                }
        } else {
            self.settles(self.chord_seeds(c), t, r)
        }
    }

    /// Revealing cell `c` of `self` gives `t` and `r`:
    /// - off the grid the move is rejected;
    /// - on a revealed cell it is a chord;
    /// - on a flagged cell nothing happens;
    /// - a cell that is not a mine is revealed, with the flood fill and the win check;
    /// - a mine hit as the first reveal of the game (nothing revealed yet) is first moved to
    ///   some cell that is not a mine, where there is one, and then the cell is revealed as
    ///   one that is not a mine;
    /// - any other mine loses the game, and every mine is shown.
    pub open spec fn reveal_outcome(self, c: (int, int), t: Board, r: MoveResult) -> bool {
        if !self.in_bounds(c) {
            is_out_of_bounds(r) && t == self
        } else if self.is_revealed(c) {
            self.chorded(c, t, r)
        } else if self.is_flagged(c) {
            r == MoveResult::Continue && t == self
        } else if !self.is_mine(c) {
            self.settles(set![c], t, r)
        } else if self.revealed_count == 0 && self.mine_total() < self.cell_total() {
            exists|d: (int, int)|
                self.in_bounds(d) && !self.is_mine(d) && self.relocated(c, d).settles(set![c], t, r)
        } else {
            r == MoveResult::Lose && t == self.swept()
        }
    }
}

/// A flood never lowers the running count, and raises it when it reveals anything.
pub(crate) proof fn lemma_flooded_count(s: Board, t: Board, seeds: Set<(int, int)>, c: (int, int))
    requires
        s.valid(),
        s.flooded(t, seeds),
    ensures
        t.revealed_count >= s.revealed_count,
        s.newly_revealed(t, c) ==> t.revealed_count > s.revealed_count,
{
    assert(has_shape(s.safe_revealed(), s.height, s.width));
    assert(has_shape(t.safe_revealed(), s.height, s.width));
    assert forall|i: int, j: int| 0 <= i < s.height && 0 <= j < s.width && #[trigger] s.safe_revealed()[i][j] implies t.safe_revealed()[i][j] by {
        assert(s.revealed[i][j]);
    }
    lemma_grid_count_le(s.safe_revealed(), t.safe_revealed(), s.height, s.width);
    if s.newly_revealed(t, c) {
        assert(!s.is_mine(c));
        assert(s.safe_revealed()[c.0][c.1] != t.safe_revealed()[c.0][c.1]);
    }
}

/// Among the chord seeds of `c` that are mines, if any, one comes first in row-major order.
pub(crate) proof fn lemma_first_mine_seed_exists(b: Board, c: (int, int))
    requires
        b.has_mine_seed(c),
    ensures
        exists|m: (int, int)| b.is_first_mine_seed(c, m),
{
    let sd = b.chord_seeds(c);
    let p0 = (c.0 - 1, c.1 - 1);
    let p1 = (c.0 - 1, c.1);
    let p2 = (c.0 - 1, c.1 + 1);
    let p3 = (c.0, c.1 - 1);
    let p4 = (c.0, c.1 + 1);
    let p5 = (c.0 + 1, c.1 - 1);
    let p6 = (c.0 + 1, c.1);
    let p7 = (c.0 + 1, c.1 + 1);
    let m = choose|m: (int, int)| #[trigger] sd.contains(m) && b.is_mine(m);
    assert(m == p0 || m == p1 || m == p2 || m == p3 || m == p4 || m == p5 || m == p6 || m == p7);
    if sd.contains(p0) && b.is_mine(p0) {
        assert(b.is_first_mine_seed(c, p0));
    } else if sd.contains(p1) && b.is_mine(p1) {
        assert(b.is_first_mine_seed(c, p1));
    } else if sd.contains(p2) && b.is_mine(p2) {
        assert(b.is_first_mine_seed(c, p2));
    } else if sd.contains(p3) && b.is_mine(p3) {
        assert(b.is_first_mine_seed(c, p3));
    } else if sd.contains(p4) && b.is_mine(p4) {
        assert(b.is_first_mine_seed(c, p4));
    } else if sd.contains(p5) && b.is_mine(p5) {
        assert(b.is_first_mine_seed(c, p5));
    } else if sd.contains(p6) && b.is_mine(p6) {
        assert(b.is_first_mine_seed(c, p6));
    } else {
        assert(b.is_first_mine_seed(c, p7));
    }
}

/// At most one chord seed is the first mine.
pub(crate) proof fn lemma_first_mine_seed_unique(b: Board, c: (int, int), m1: (int, int), m2: (int, int))
    requires
        b.is_first_mine_seed(c, m1),
        b.is_first_mine_seed(c, m2),
    ensures
        m1 == m2,
{
    assert(!before(m1, m2));
    assert(!before(m2, m1));
}

// ---------------------------------------------------------------------------------------------
// Laws
// ---------------------------------------------------------------------------------------------

/// Moving a mine to a cell without one keeps the number of mines.
pub(crate) proof fn lemma_relocated_mine_total(s: Board, from: (int, int), to: (int, int))
    requires
        s.valid(),
        s.in_bounds(from),
        s.in_bounds(to),
        s.is_mine(from),
        !s.is_mine(to),
    ensures
        s.relocated(from, to).mine_total() == s.mine_total(),
        s.revealed_count == 0 && !s.is_revealed(from) ==> s.relocated(from, to).valid(),
{
    lemma_grid_count_set(s.mines, from.0, from.1, false);
    let m1 = s.mines.update(from.0, s.mines[from.0].update(from.1, false));
    lemma_grid_count_set(m1, to.0, to.1, true);
    if s.revealed_count == 0 && !s.is_revealed(from) {
        lemma_nothing_safe_revealed(s);
        let t = s.relocated(from, to);
        assert(t.safe_revealed() =~~= s.safe_revealed()) by {
            assert forall|i: int, j: int| 0 <= i < t.height && 0 <= j < t.width implies t.safe_revealed()[i][j] == s.safe_revealed()[i][j] by {
                if (i, j) == to {
                    assert(!s.is_revealed((i, j)));
                }
            }
        }
    }
}

/// The number of mines never changes: neither revealing a cell (a first-click relocation
/// included) nor toggling a flag adds or removes one.
pub proof fn lemma_moves_keep_mine_total(s: Board, c: (int, int), t: Board, r: MoveResult)
    requires
        s.valid(),
    ensures
        s.reveal_outcome(c, t, r) ==> t.mine_total() == s.mine_total(),
        s.flag_outcome(c, t, r) ==> t.mine_total() == s.mine_total(),
{
    if s.reveal_outcome(c, t, r) && s.in_bounds(c) && !s.is_revealed(c) && !s.is_flagged(c) && s.is_mine(
        c,
    ) && s.revealed_count == 0 && s.mine_total() < s.cell_total() {
        let d = choose|d: (int, int)|
            s.in_bounds(d) && !s.is_mine(d) && s.relocated(c, d).settles(set![c], t, r);
        lemma_relocated_mine_total(s, c, d);
    }
}

/// The first reveal of a game never loses, where the board has a cell without a mine: a
/// mine hit there is moved away first.
pub proof fn lemma_first_reveal_never_loses(s: Board, c: (int, int), t: Board, r: MoveResult)
    requires
        s.valid(),
        s.is_fresh(),
        s.mine_total() < s.cell_total(),
        s.reveal_outcome(c, t, r),
    ensures
        r != MoveResult::Lose,
{
    if s.in_bounds(c) {
        assert(!s.is_revealed(c));
        assert(!s.is_flagged(c));
    }
}

/// Flagging a hidden cell and then revealing it leaves the board as the flag left it: the
/// cell stays hidden and flagged, and the move goes on.
pub proof fn lemma_reveal_flagged_is_noop(
    s: Board,
    c: (int, int),
    f: Board,
    rf: MoveResult,
    t: Board,
    r: MoveResult,
)
    requires
        s.valid(),
        s.in_bounds(c),
        !s.is_revealed(c),
        !s.is_flagged(c),
        s.flag_outcome(c, f, rf),
        f.reveal_outcome(c, t, r),
    ensures
        rf == MoveResult::Continue,
        r == MoveResult::Continue,
        t == s.flag_toggled(c),
        t.is_flagged(c),
        !t.is_revealed(c),
        t.square(c) == SquareView::Flag,
{
}

/// On a game still going on, a move is declared a win exactly when, after it, the running
/// count of revealed cells is the number of cells minus the number of mines; and then every
/// mine is shown.
pub proof fn lemma_win_exactly_at_count(s: Board, c: (int, int), t: Board, r: MoveResult)
    requires
        s.valid(),
        !s.won(),
        s.reveal_outcome(c, t, r),
    ensures
        r == MoveResult::Win <==> t.revealed_count == t.cell_total() - t.mine_total(),
        r == MoveResult::Win ==> forall|d: (int, int)| t.in_bounds(d) && t.is_mine(d) ==> #[trigger] t.is_revealed(d),
{
    if !s.in_bounds(c) || (!s.is_revealed(c) && s.is_flagged(c)) {
    } else if s.is_revealed(c) {
        if s.flags_around(c) != s.mines_around(c) {
        } else if s.has_mine_seed(c) {
            let m = choose|m: (int, int)| s.is_first_mine_seed(c, m);
            let early = Set::new(|d: (int, int)| s.chord_seeds(c).contains(d) && before(d, m));
            let mid = choose|mid: Board|
                s.flooded(mid, early) && t == mid.swept() && r == if mid.won()
                    && mid.revealed_count > s.revealed_count {
                    MoveResult::Win
                } else {
                    MoveResult::Lose
                };
            lemma_flooded_count(s, mid, early, c);
        } else {
            lemma_settles_win(s, s.chord_seeds(c), t, r);
        }
    } else if !s.is_mine(c) {
        lemma_settles_win(s, set![c], t, r);
    } else if s.revealed_count == 0 && s.mine_total() < s.cell_total() {
        let d = choose|d: (int, int)|
            s.in_bounds(d) && !s.is_mine(d) && s.relocated(c, d).settles(set![c], t, r);
        lemma_relocated_mine_total(s, c, d);
        lemma_settles_win(s.relocated(c, d), set![c], t, r);
    }
}

/// Revealing mine-free seeds on a game still going on is a win exactly when the win
/// condition holds afterwards, and a win shows every mine.
pub(crate) proof fn lemma_settles_win(s: Board, seeds: Set<(int, int)>, t: Board, r: MoveResult)
    requires
        s.valid(),
        !s.won(),
        s.settles(seeds, t, r),
    ensures
        r == MoveResult::Win <==> t.won(),
        r == MoveResult::Win ==> forall|d: (int, int)| t.in_bounds(d) && t.is_mine(d) ==> #[trigger] t.is_revealed(d),
{
    let mid = choose|mid: Board| s.flooded(mid, seeds) && s.concluded(mid, t, r);
    lemma_flooded_count(s, mid, seeds, (0, 0));
}

/// A lost game shows every mine.
pub proof fn lemma_lose_shows_all_mines(s: Board, c: (int, int), t: Board, r: MoveResult)
    requires
        s.valid(),
        s.reveal_outcome(c, t, r),
        r == MoveResult::Lose,
    ensures
        forall|d: (int, int)| t.in_bounds(d) && t.is_mine(d) ==> #[trigger] t.is_revealed(d),
        forall|d: (int, int)| t.in_bounds(d) && t.is_mine(d) ==> #[trigger] t.square(d) == SquareView::Mine,
{
}

/// A move at a cell off the grid is rejected and changes nothing, the running count
/// included.
pub proof fn lemma_out_of_bounds_changes_nothing(s: Board, c: (int, int), t: Board, r: MoveResult)
    requires
        s.valid(),
        !s.in_bounds(c),
        s.reveal_outcome(c, t, r),
    ensures
        is_out_of_bounds(r),
        t == s,
        t.revealed_count == s.revealed_count,
{
}

/// The first `n` cells of a reveal order of one flood are revealed by any other flood from
/// the same seeds.
pub(crate) proof fn lemma_order_revealed(
    s: Board,
    t1: Board,
    t2: Board,
    seeds: Set<(int, int)>,
    o: Seq<(int, int)>,
    n: int,
)
    requires
        s.flooded(t1, seeds),
        s.flooded(t2, seeds),
        s.flood_order(t1, seeds, o),
        0 <= n <= o.len(),
    ensures
        forall|x: int| 0 <= x < n ==> t2.is_revealed(#[trigger] o[x]),
    decreases n,
{
    if n > 0 {
        lemma_order_revealed(s, t1, t2, seeds, o, n - 1);
        let x = n - 1;
        assert(o.contains(o[x]));
        if !seeds.contains(o[x]) {
            let y = choose|y: int| 0 <= y < x && s.mines_around(o[y]) == 0 && adjacent(o[y], o[x]);
            assert(o.contains(o[y]));
            assert(t2.is_revealed(o[y]));
            assert(s.newly_revealed(t2, o[y]));
            assert(s.newly_revealed(t1, o[x]));
        }
    }
}

/// The flood fill from given seeds is determined by the board: two boards that both are
/// `s` flooded from `seeds` are the same.
pub proof fn lemma_flooded_unique(s: Board, t1: Board, t2: Board, seeds: Set<(int, int)>)
    requires
        s.valid(),
        s.flooded(t1, seeds),
        s.flooded(t2, seeds),
    ensures
        t1 == t2,
{
    let o1 = choose|o: Seq<(int, int)>| s.flood_order(t1, seeds, o);
    let o2 = choose|o: Seq<(int, int)>| s.flood_order(t2, seeds, o);
    lemma_order_revealed(s, t1, t2, seeds, o1, o1.len() as int);
    lemma_order_revealed(s, t2, t1, seeds, o2, o2.len() as int);
    assert forall|i: int, j: int| 0 <= i < s.height && 0 <= j < s.width implies #[trigger] t1.revealed[i][j]
        == t2.revealed[i][j] by {
        let c = (i, j);
        if s.newly_revealed(t1, c) {
            assert(o1.contains(c));
            let x = choose|x: int| 0 <= x < o1.len() && o1[x] == c;
            assert(t2.is_revealed(o1[x]));
        }
        if s.newly_revealed(t2, c) {
            assert(o2.contains(c));
            let x = choose|x: int| 0 <= x < o2.len() && o2[x] == c;
            assert(t1.is_revealed(o2[x]));
        }
        if s.revealed[i][j] {
            assert(t1.revealed[i][j] && t2.revealed[i][j]);
        }
    }
    assert(t1.revealed =~~= t2.revealed);
    assert(t1.safe_revealed() =~~= t2.safe_revealed());
}

} // verus!
