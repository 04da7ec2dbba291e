use mines::game::{Flow, Message, MineSweeper};
use mines::gameoflife::GameOfLife;
use mines::langton::{Direction, Grid, Langton, RotationDirection};
use mines::minefield::SquareView;
use mines::mineui::{MineUIAction, MoveDirection, UIMode};
use mines::point::Point;

fn grid(rows: &[&str]) -> Vec<Vec<bool>> {
    rows.iter().map(|r| r.chars().map(|c| c == '*').collect()).collect()
}

#[test]
fn preset_boards() {
    let g = MineSweeper::new_beginner();
    assert_eq!(g.field().mine_count(), 10);
    assert_eq!((g.field().height(), g.field().width()), (8, 8));
    let g = MineSweeper::new_intermediate();
    assert_eq!(g.field().mine_count(), 40);
    assert_eq!((g.field().height(), g.field().width()), (16, 16));
    let g = MineSweeper::new_expert();
    assert_eq!(g.field().mine_count(), 99);
    assert_eq!((g.field().height(), g.field().width()), (16, 30));
    assert_eq!(*g.message(), Message::Clear);
}

#[test]
fn step_moves_flags_and_reveals() {
    let mut g = MineSweeper::from_mine_grid(&grid(&["*.", ".."]));
    assert_eq!(g.step(MineUIAction::Move(MoveDirection::Up)), Flow::Continue);
    assert_eq!(g.ui().get_cursor(), Point::origin());
    assert_eq!(g.step(MineUIAction::Mode(UIMode::Flag)), Flow::Continue);
    assert_eq!(g.step(MineUIAction::Select), Flow::Continue);
    assert_eq!(g.field().view_sq(&Point::origin()), Some(SquareView::Flag));
    assert_eq!(g.step(MineUIAction::ToggleMode), Flow::Continue);
    assert_eq!(g.ui().mode(), UIMode::Reveal);
    assert_eq!(g.step(MineUIAction::Move(MoveDirection::Right)), Flow::Continue);
    assert_eq!(g.step(MineUIAction::Select), Flow::Continue);
    assert_eq!(g.step(MineUIAction::Move(MoveDirection::Down)), Flow::Continue);
    assert_eq!(g.step(MineUIAction::Select), Flow::Continue);
    assert_eq!(g.step(MineUIAction::Move(MoveDirection::Left)), Flow::Continue);
    assert_eq!(g.step(MineUIAction::Select), Flow::GameOver);
    assert_eq!(*g.message(), Message::Win);
}

#[test]
fn step_loses_on_mine() {
    let mut g = MineSweeper::from_mine_grid(&grid(&["*.", ".."]));
    g.step(MineUIAction::Move(MoveDirection::Down));
    assert_eq!(g.step(MineUIAction::Select), Flow::Continue);
    g.step(MineUIAction::Move(MoveDirection::Up));
    assert_eq!(g.step(MineUIAction::Select), Flow::GameOver);
    assert_eq!(*g.message(), Message::Lose);
    assert_eq!(g.field().view_sq(&Point::origin()), Some(SquareView::Mine));
}

#[test]
fn step_quit_help_wait() {
    let mut g = MineSweeper::from_mine_grid(&grid(&["*."]));
    assert_eq!(g.step(MineUIAction::Quit), Flow::Quit);
    assert_eq!(g.step(MineUIAction::Help), Flow::ShowHelp);
    assert_eq!(g.step(MineUIAction::Wait), Flow::Continue);
    g.show_error("help-text failed".to_string());
    assert_eq!(*g.message(), Message::Error("help-text failed".to_string()));
    g.step(MineUIAction::Move(MoveDirection::Right));
    assert_eq!(*g.message(), Message::Clear);
}

#[test]
fn life_blinker_oscillates() {
    let mut life = GameOfLife::from_cells(&grid(&[".....", "..*..", "..*..", "..*..", "....."]));
    assert_eq!(life.num_neighbors(2, 2), 2);
    assert_eq!(life.num_neighbors(2, 1), 3);
    life.tick();
    assert_eq!(life.steps_taken(), 1);
    for j in 0..5 {
        assert_eq!(life.get_cell(2, j), Some((1..=3).contains(&j)));
    }
    assert_eq!(life.get_cell(1, 2), Some(false));
    life.tick();
    assert_eq!(life.get_cell(1, 2), Some(true));
    assert_eq!(life.get_cell(2, 1), Some(false));
    assert_eq!(life.get_cell(5, 0), None);
}

#[test]
fn life_new_is_dead() {
    let mut life = GameOfLife::new(3, 4);
    assert_eq!(life.get_cell(2, 3), Some(false));
    life.tick();
    assert_eq!(life.get_cell(0, 0), Some(false));
}

#[test]
fn direction_rotates() {
    let mut d = Direction::new(0, 1);
    d.rotate(RotationDirection::CW);
    assert_eq!(d.get(), (-1, 0));
    d.rotate(RotationDirection::CCW);
    d.rotate(RotationDirection::CCW);
    assert_eq!(d.get(), (1, 0));
}

#[test]
fn langton_steps() {
    let _ = Grid::new(2, 2);
    let mut l = Langton::new_centered(4, 5);
    assert_eq!(l.get_pos(), [2, 2]);
    l.tick();
    assert_eq!(l.get_square(2, 2), Some(true));
    assert_eq!(l.get_heading(), (-1, 0));
    assert_eq!(l.get_pos(), [1, 2]);
    for _ in 0..4 {
        l.tick();
    }
    assert_eq!(l.get_square(1, 2), Some(true));
}

#[test]
fn langton_wraps_around() {
    let mut l = Langton::new_centered(1, 1);
    l.tick();
    assert_eq!(l.get_pos(), [0, 0]);
    assert_eq!(l.get_square(0, 0), Some(true));
    assert_eq!(l.get_heading(), (-1, 0));
    l.tick();
    assert_eq!(l.get_heading(), (0, 1));
    assert_eq!(l.get_square(0, 0), Some(false));
}

#[test]
fn life_grid_with_an_empty_side() {
    let mut life = GameOfLife::new(0, 5);
    life.tick();
    assert_eq!(life.get_cell(0, 0), None);
    assert_eq!(life.steps_taken(), 1);
}
