//! The minesweeper game: a field, the interface over it, and the decisions of the play loop.
use vstd::prelude::*;

use crate::board::{cell_of, Board, MoveResult};
use crate::minefield::MineField;
use crate::mineui::{step_from, step_refusal, MineUI, MineUIAction, UIMode};

verus! {

/// What the status line says.
#[derive(Debug, PartialEq)]
pub enum Message {
    Clear,
    Lose,
    Win,
    Error(String),
}

/// What the play loop does after an action.
#[derive(Clone, Copy, Debug, PartialEq, Eq, Structural)]
pub enum Flow {
    /// Draw the board and wait for the next action.
    Continue,
    /// Show the help screen, then go on.
    ShowHelp,
    /// The player quit.
    Quit,
    /// The game ended in a win or a loss: draw the board once more and stop.
    GameOver,
}

/// The status line after a move with result `r`.
pub open spec fn message_for(r: MoveResult) -> Message {
    match r {
        MoveResult::Lose => Message::Lose,
        MoveResult::Win => Message::Win,
        MoveResult::Error(msg) => Message::Error(msg),
        MoveResult::Continue => Message::Clear,
    }
}

/// Whether play goes on after a move with result `r`.
pub open spec fn goes_on(r: MoveResult) -> bool {
    !(r is Lose || r is Win)
}

/// A game of minesweeper.
pub struct MineSweeper {
    gridh: usize,
    gridw: usize,
    field: MineField,
    ui: MineUI,
    message: Message,
}

impl MineSweeper {
    pub closed spec fn board(&self) -> Board {
        self.field@
    }

    pub closed spec fn interface(&self) -> MineUI {
        self.ui
    }

    pub closed spec fn status(&self) -> Message {
        self.message
    }

    /// The field is well formed and the interface has its size.
    pub closed spec fn wf(&self) -> bool {
        &&& self.field.wf()
        &&& self.ui.height() == self.field@.height
        &&& self.ui.width() == self.field@.width
        &&& self.gridh == self.field@.height
        &&& self.gridw == self.field@.width
    }

    /// A fresh game on `field`.
    pub open spec fn starts(&self, field: Board) -> bool {
        &&& self.wf()
        &&& self.board() == field
        &&& self.interface().cursor() == (0int, 0int)
        &&& self.interface().current_mode() == UIMode::Reveal
        &&& self.status() == Message::Clear
    }

    fn around_field(field: MineField) -> (r: Self)
        requires
            field.wf(),
        ensures
            r.starts(field@),
    {
        let h = field.height();
        let w = field.width();
        Self { gridh: h, gridw: w, field, ui: MineUI::new(h, w), message: Message::Clear }
    }

    /// A game on a `height` by `width` field with `n_mines` mines placed at random.
    pub fn with_n_mines(height: usize, width: usize, n_mines: usize) -> (r: Self)
        requires
            height > 0,
            width > 0,
            height * width <= isize::MAX,
            n_mines < height * width,
        ensures
            r.starts(r.board()),
            r.board().is_fresh(),
            r.board().height == height,
            r.board().width == width,
            r.board().mine_total() == n_mines,
    {
        Self::around_field(MineField::with_n_mines(height, width, n_mines))
    }

    /// A game on a field with the given mine layout (see `MineField::from_mine_grid`).
    pub fn from_mine_grid(mines: &Vec<Vec<bool>>) -> (r: Self)
        requires
            mines@.len() > 0,
            mines@[0]@.len() > 0,
            forall|i: int| 0 <= i < mines@.len() ==> (#[trigger] mines@[i]@).len() == mines@[0]@.len(),
            mines@.len() * mines@[0]@.len() <= isize::MAX,
        ensures
            r.starts(r.board()),
            r.board().is_fresh(),
            r.board().height == mines@.len(),
            r.board().width == mines@[0]@.len(),
            forall|i: int, j: int|
                r.board().in_bounds((i, j)) ==> r.board().mines[i][j] == mines@[i]@[j],
    {
        Self::around_field(MineField::from_mine_grid(mines))
    }

    /// The beginner board: 8 by 8 with 10 mines.
    pub fn new_beginner() -> (r: Self)
        ensures
            r.starts(r.board()),
            r.board().is_fresh(),
            r.board().height == 8 && r.board().width == 8,
            r.board().mine_total() == 10,
    {
        Self::with_n_mines(8, 8, 10)
    }

    /// The intermediate board: 16 by 16 with 40 mines.
    pub fn new_intermediate() -> (r: Self)
        ensures
            r.starts(r.board()),
            r.board().is_fresh(),
            r.board().height == 16 && r.board().width == 16,
            r.board().mine_total() == 40,
    {
        Self::with_n_mines(16, 16, 40)
    }

    /// The expert board: 16 by 30 with 99 mines.
    pub fn new_expert() -> (r: Self)
        ensures
            r.starts(r.board()),
            r.board().is_fresh(),
            r.board().height == 16 && r.board().width == 30,
            r.board().mine_total() == 99,
    {
        Self::with_n_mines(16, 30, 99)
    }

    /// The field.
    pub fn field(&self) -> (r: &MineField)
        ensures
            r@ == self.board(),
            self.wf() ==> r.wf(),
    {
        &self.field
    }

    /// The interface.
    pub fn ui(&self) -> (r: &MineUI)
        ensures
            *r == self.interface(),
    {
        &self.ui
    }

    /// The status line.
    pub fn message(&self) -> (r: &Message)
        ensures
            *r == self.status(),
    {
        &self.message
    }

    /// Puts an error on the status line.
    pub fn show_error(&mut self, msg: String)
        ensures
            final(self).board() == old(self).board(),
            final(self).interface() == old(self).interface(),
            final(self).wf() == old(self).wf(),
            final(self).status() == Message::Error(msg),
    {
        self.message = Message::Error(msg);
    }

    /// Sets the status line from the result of a move and tells whether play goes on.
    pub fn handle_res(&mut self, res: &MoveResult) -> (r: bool)
        ensures
            final(self).board() == old(self).board(),
            final(self).interface() == old(self).interface(),
            final(self).wf() == old(self).wf(),
            final(self).status() == message_for(*res),
            r == goes_on(*res),
    {
        match res {
            MoveResult::Lose => {
                self.message = Message::Lose;
                false
            },
            MoveResult::Win => {
                self.message = Message::Win;
                false
            },
            MoveResult::Error(msg) => {
                self.message = Message::Error(msg.clone());
                true
            },
            MoveResult::Continue => {
                self.message = Message::Clear;
                true
            },
        }
    }

    /// Carries out one action of the player and says what the play loop does next:
    /// - `Quit` and `Help` change nothing; the loop stops or shows the help screen;
    /// - `Wait` changes nothing;
    /// - `Mode` and `ToggleMode` set the mode;
    /// - `Move` clears the status line and moves the cursor where the grid allows;
    /// - `Select` reveals or flags the cell under the cursor, as the mode says, and puts the
    ///   result on the status line; a win or a loss ends the game.
    pub fn step(&mut self, action: MineUIAction) -> (r: Flow)
        requires
            old(self).wf(),
        ensures
            final(self).wf(),
            match action {
                MineUIAction::Quit => r == Flow::Quit && final(self).board() == old(self).board()
                    && final(self).interface() == old(self).interface() && final(self).status()
                    == old(self).status(),
                MineUIAction::Help => r == Flow::ShowHelp && final(self).board() == old(self).board()
                    && final(self).interface() == old(self).interface() && final(self).status()
                    == old(self).status(),
                MineUIAction::Wait => r == Flow::Continue && final(self).board() == old(self).board()
                    && final(self).interface() == old(self).interface() && final(self).status()
                    == old(self).status(),
                MineUIAction::Mode(m) => r == Flow::Continue && final(self).board() == old(
                    self,
                ).board() && final(self).interface().current_mode() == m
                    && final(self).interface().cursor() == old(self).interface().cursor()
                    && final(self).status() == old(self).status(),
                MineUIAction::ToggleMode => r == Flow::Continue && final(self).board() == old(
                    self,
                ).board() && final(self).interface().current_mode() != old(
                    self,
                ).interface().current_mode() && final(self).interface().cursor() == old(
                    self,
                ).interface().cursor() && final(self).status() == old(self).status(),
                MineUIAction::Move(d) => {
                    let c = old(self).interface().cursor();
                    let n = step_from(c.0, c.1, d);
                    &&& r == Flow::Continue
                    &&& final(self).board() == old(self).board()
                    &&& final(self).status() == Message::Clear
                    &&& final(self).interface().current_mode() == old(self).interface().current_mode()
                    &&& final(self).interface().cursor() == if step_refusal(
                        n.0,
                        n.1,
                        old(self).board().height as int,
                        old(self).board().width as int,
                    ) is None {
                        n
                    } else {
                        c
                    }
                },
                MineUIAction::Select => exists|res: MoveResult|
                    {
                        let c = old(self).interface().cursor();
                        &&& if old(self).interface().current_mode() == UIMode::Reveal {
                            old(self).board().reveal_outcome(c, final(self).board(), res)
                        } else {
                            old(self).board().flag_outcome(c, final(self).board(), res)
                        }
                        &&& final(self).interface() == old(self).interface()
                        &&& final(self).status() == #[trigger] message_for(res)
                        &&& r == if goes_on(res) {
                            Flow::Continue
                        } else {
                            Flow::GameOver
                        }
                    },
            },
    {
        match action {
            MineUIAction::Quit => Flow::Quit,
            MineUIAction::Help => Flow::ShowHelp,
            MineUIAction::Wait => Flow::Continue,
            MineUIAction::Mode(newmode) => {
                self.ui.set_mode(newmode);
                Flow::Continue
            },
            MineUIAction::ToggleMode => {
                self.ui.toggle_mode();
                Flow::Continue
            },
            MineUIAction::Move(movedir) => {
                self.message = Message::Clear;
                let _ = self.ui.move_cursor(movedir);
                Flow::Continue
            },
            MineUIAction::Select => {
                let p = self.ui.get_cursor();
                let move_res = match self.ui.mode() {
                    UIMode::Reveal => self.field.reveal_sq(&p),
                    UIMode::Flag => self.field.toggle_flag(&p),
                };
                proof {
                    assert(cell_of(p) == old(self).interface().cursor());
                }
                if self.handle_res(&move_res) {
                    Flow::Continue
                } else {
                    Flow::GameOver
                }
            },
        }
    }
}

} // verus!
