//! Cursor and mode of the minesweeper interface, and the keys that drive them.
use vstd::prelude::*;

use crate::point::Point;

verus! {

/// The help screen of the game.
pub const HELP_TEXT: &'static str = "
Use the arrow keys to move.\r
Press <space> to select the highlighted square.\r
Press <tab> to switch between reveal and flag mode.\r
Press <h> to show this help screen.\r
Press <q> to quit.\r
";

/// A key as the interface reads it.
#[derive(Clone, Copy, Debug, PartialEq, Eq, Structural)]
pub enum Key {
    Up,
    Down,
    Left,
    Right,
    Enter,
    Tab,
    Char(char),
    Other,
}

/// What the player asked for.
#[derive(Clone, Copy, Debug, PartialEq, Eq, Structural)]
pub enum MineUIAction {
    Wait,
    Move(MoveDirection),
    Mode(UIMode),
    ToggleMode,
    Select,
    Help,
    Quit,
}

/// A direction the cursor moves in.
#[derive(Clone, Copy, Debug, PartialEq, Eq, Structural)]
pub enum MoveDirection {
    Up,
    Down,
    Left,
    Right,
}

/// What selecting a cell does: flag it or reveal it.
#[derive(Clone, Copy, Debug, PartialEq, Eq, Structural)]
pub enum UIMode {
    Flag,
    Reveal,
}

/// The action bound to each key.
pub open spec fn key_action(key: Key) -> MineUIAction {
    match key {
        Key::Up => MineUIAction::Move(MoveDirection::Up),
        Key::Down => MineUIAction::Move(MoveDirection::Down),
        Key::Left => MineUIAction::Move(MoveDirection::Left),
        Key::Right => MineUIAction::Move(MoveDirection::Right),
        Key::Char(' ') => MineUIAction::Select,
        Key::Char('f') => MineUIAction::Mode(UIMode::Flag),
        Key::Char('r') => MineUIAction::Mode(UIMode::Reveal),
        Key::Tab => MineUIAction::ToggleMode,
        Key::Char('h') => MineUIAction::Help,
        Key::Char('q') => MineUIAction::Quit,
        _ => MineUIAction::Wait,
    }
}

/// The cell one step from `(i, j)` in direction `dir`; it may lie off the grid.
pub open spec fn step_from(i: int, j: int, dir: MoveDirection) -> (int, int) {
    match dir {
        MoveDirection::Up => (i - 1, j),
        MoveDirection::Down => (i + 1, j),
        MoveDirection::Left => (i, j - 1),
        MoveDirection::Right => (i, j + 1),
    }
}

/// Why a step to `(ni, nj)` on a `h` by `w` grid is refused, if it is.
pub open spec fn step_refusal(ni: int, nj: int, h: int, w: int) -> Option<Seq<char>> {
    if ni < 0 {
        Some("already at upper boundary"@)
    } else if nj < 0 {
        Some("already at left boundary"@)
    } else if ni >= h {
        Some("already at lower boundary"@)
    } else if nj >= w {
        Some("already at rightward boundary"@)
    } else {
        None
    }
}

/// The decimal digits of `n`, most significant first, with no leading zero.
pub open spec fn decimal(n: nat) -> Seq<char>
    decreases n,
{
    let d = seq!['0', '1', '2', '3', '4', '5', '6', '7', '8', '9'][(n % 10) as int];
    if n < 10 {
        seq![d]
    } else {
        decimal(n / 10).push(d)
    }
}

/// The message for a point off the grid: "point (i, j)", a line break, then " is OOB".
pub open spec fn oob_text(i: usize, j: usize) -> Seq<char> {
    "point ("@ + decimal(i as nat) + ", "@ + decimal(j as nat) + ")\n is OOB"@
}

/// Relies on std's `format!`, where `{}` writes a `usize` in decimal digits with no leading
/// zero.
#[verifier::external_body]
fn oob_message(i: usize, j: usize) -> (r: String)
    ensures
        r@ == oob_text(i, j),
{
    format!("point ({}, {})\n is OOB", i, j)
}

/// The cursor and mode of the interface on a grid of `gridh` rows and `gridw` columns.
pub struct MineUI {
    gridh: usize,
    gridw: usize,
    cursor: Point,
    pub mode: UIMode,
}

impl MineUI {
    pub closed spec fn height(&self) -> nat {
        self.gridh as nat
    }

    pub closed spec fn width(&self) -> nat {
        self.gridw as nat
    }

    /// What selecting does.
    pub closed spec fn current_mode(&self) -> UIMode {
        self.mode
    }

    /// What selecting does.
    pub fn mode(&self) -> (r: UIMode)
        ensures
            r == self.current_mode(),
    {
        self.mode
    }

    /// The cell under the cursor.
    pub closed spec fn cursor(&self) -> (int, int) {
        (self.cursor.row() as int, self.cursor.col() as int)
    }

    /// The action bound to a key.
    pub fn match_key_to_action(key: Key) -> (r: MineUIAction)
        ensures
            r == key_action(key),
    {
        match key {
            Key::Up => MineUIAction::Move(MoveDirection::Up),
            Key::Down => MineUIAction::Move(MoveDirection::Down),
            Key::Left => MineUIAction::Move(MoveDirection::Left),
            Key::Right => MineUIAction::Move(MoveDirection::Right),
            Key::Char(' ') => MineUIAction::Select,
            Key::Char('f') => MineUIAction::Mode(UIMode::Flag),
            Key::Char('r') => MineUIAction::Mode(UIMode::Reveal),
            Key::Tab => MineUIAction::ToggleMode,
            Key::Char('h') => MineUIAction::Help,
            Key::Char('q') => MineUIAction::Quit,
            _ => MineUIAction::Wait,
        }
    }

    /// An interface on a `height` by `width` grid, the cursor at (0, 0), in reveal mode.
    pub fn new(height: usize, width: usize) -> (r: Self)
        ensures
            r.height() == height,
            r.width() == width,
            r.cursor() == (0int, 0int),
            r.current_mode() == UIMode::Reveal,
    {
        Self { gridh: height, gridw: width, cursor: Point::origin(), mode: UIMode::Reveal }
    }

    /// Moves the cursor one step in direction `dir`, unless that leaves the grid: then the
    /// cursor stays and the error names the boundary.
    pub fn move_cursor(&mut self, dir: MoveDirection) -> (r: Result<(), String>)
        ensures
            final(self).height() == old(self).height(),
            final(self).width() == old(self).width(),
            final(self).current_mode() == old(self).current_mode(),
            ({
                let n = step_from(old(self).cursor().0, old(self).cursor().1, dir);
                match step_refusal(n.0, n.1, old(self).height() as int, old(self).width() as int) {
                    Some(msg) => r matches Err(e) && e@ == msg && final(self).cursor() == old(
                        self,
                    ).cursor(),
                    None => r matches Ok(_) && final(self).cursor() == n,
                }
            }),
    {
        let (cur_i, cur_j) = self.cursor.tuple();
        let (new_i, new_j): (usize, usize) = match dir {
            MoveDirection::Up => {
                if cur_i == 0 {
                    return Err("already at upper boundary".to_string());
                }
                (cur_i - 1, cur_j)
            },
            MoveDirection::Left => {
                if cur_j == 0 {
                    return Err("already at left boundary".to_string());
                }
                (cur_i, cur_j - 1)
            },
            MoveDirection::Down => {
                if cur_i >= self.gridh {
                    return Err("already at lower boundary".to_string());
                }
                (cur_i + 1, cur_j)
            },
            MoveDirection::Right => {
                if cur_j >= self.gridw {
                    if cur_i >= self.gridh {
                        return Err("already at lower boundary".to_string());
                    }
                    return Err("already at rightward boundary".to_string());
                }
                (cur_i, cur_j + 1)
            },
        };
        if new_i >= self.gridh {
            return Err("already at lower boundary".to_string());
        }
        if new_j >= self.gridw {
            return Err("already at rightward boundary".to_string());
        }
        self.reset_cursor(Point::new(new_i, new_j))
    }

    /// Puts the cursor at `p`, unless `p` lies off the grid.
    pub fn reset_cursor(&mut self, p: Point) -> (r: Result<(), String>)
        ensures
            final(self).height() == old(self).height(),
            final(self).width() == old(self).width(),
            final(self).current_mode() == old(self).current_mode(),
            p.row() < old(self).height() && p.col() < old(self).width() ==> (r matches Ok(_)
                && final(self).cursor() == (p.row() as int, p.col() as int)),
            !(p.row() < old(self).height() && p.col() < old(self).width()) ==> (r matches Err(e)
                && e@ == oob_text(p.row(), p.col()) && final(self).cursor() == old(self).cursor()),
    {
        let (pi, pj) = p.tuple();
        if pi >= self.gridh || pj >= self.gridw {
            return Err(oob_message(pi, pj));
        }
        self.cursor = p;
        Ok(())
    }

    /// The cell under the cursor.
    pub fn get_cursor(&self) -> (r: Point)
        ensures
            (r.row() as int, r.col() as int) == self.cursor(),
    {
        self.cursor
    }

    /// Sets the mode.
    pub fn set_mode(&mut self, mode: UIMode)
        ensures
            final(self).height() == old(self).height(),
            final(self).width() == old(self).width(),
            final(self).cursor() == old(self).cursor(),
            final(self).current_mode() == mode,
    {
        self.mode = mode;
    }

    /// Switches between flag and reveal mode.
    pub fn toggle_mode(&mut self)
        ensures
            final(self).height() == old(self).height(),
            final(self).width() == old(self).width(),
            final(self).cursor() == old(self).cursor(),
            final(self).current_mode() == match old(self).current_mode() {
                UIMode::Reveal => UIMode::Flag,
                UIMode::Flag => UIMode::Reveal,
            },
    {
        let newmode = match self.mode {
            UIMode::Reveal => UIMode::Flag,
            UIMode::Flag => UIMode::Reveal,
        };
        self.mode = newmode;
    }
}

} // verus!
