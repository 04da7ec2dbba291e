use mines::minefield::{MineField, MoveResult, SquareView};
use mines::point::Point;

fn field(rows: &[&str]) -> MineField {
    let grid: Vec<Vec<bool>> = rows.iter().map(|r| r.chars().map(|c| c == '*').collect()).collect();
    MineField::from_mine_grid(&grid)
}

fn view(f: &MineField, i: usize, j: usize) -> SquareView {
    f.view_sq(&Point::new(i, j)).unwrap()
}

fn oob() -> MoveResult {
    MoveResult::Error(String::from("index OOB"))
}

#[test]
fn constructor_places_requested_mines() {
    let f = MineField::with_n_mines(8, 8, 10);
    assert_eq!(f.mine_count(), 10);
    assert_eq!(f.revealed_count(), 0);
    assert_eq!(f.height(), 8);
    assert_eq!(f.width(), 8);
    let views = f.get_view_iter();
    assert_eq!(views.len(), 64);
    assert!(views.iter().all(|v| *v == SquareView::Hidden));
}

#[test]
fn constructor_fills_all_but_one_cell() {
    let f = MineField::with_n_mines(3, 4, 11);
    assert_eq!(f.mine_count(), 11);
}

#[test]
fn mine_grid_counts_mines() {
    let f = field(&["*..", ".*.", "..."]);
    assert_eq!(f.mine_count(), 2);
    assert_eq!(f.revealed_count(), 0);
}

#[test]
fn first_click_on_mine_is_safe() {
    let mut f = field(&["*..", "...", "..."]);
    let r = f.reveal_sq(&Point::new(0, 0));
    assert_ne!(r, MoveResult::Lose);
    assert!(matches!(view(&f, 0, 0), SquareView::Revealed(_)));
    assert_eq!(f.mine_count(), 1);
}

#[test]
fn first_click_relocates_to_only_free_cell() {
    let mut f = field(&["**", "*."]);
    let r = f.reveal_sq(&Point::new(0, 0));
    assert_eq!(r, MoveResult::Win);
    assert_eq!(view(&f, 0, 0), SquareView::Revealed(3));
    assert_eq!(view(&f, 1, 1), SquareView::Mine);
    assert_eq!(f.mine_count(), 3);
}

#[test]
fn board_of_mines_loses_at_once() {
    let mut f = field(&["*"]);
    assert_eq!(f.reveal_sq(&Point::new(0, 0)), MoveResult::Lose);
    assert_eq!(view(&f, 0, 0), SquareView::Mine);
}

#[test]
fn flood_fill_stops_at_numbers() {
    let mut f = field(&["...*.", ".....", "...*."]);
    assert_eq!(f.reveal_sq(&Point::new(1, 0)), MoveResult::Continue);
    for i in 0..3 {
        assert_eq!(view(&f, i, 0), SquareView::Revealed(0));
        assert_eq!(view(&f, i, 1), SquareView::Revealed(0));
    }
    assert_eq!(view(&f, 0, 2), SquareView::Revealed(1));
    assert_eq!(view(&f, 1, 2), SquareView::Revealed(2));
    assert_eq!(view(&f, 2, 2), SquareView::Revealed(1));
    assert_eq!(view(&f, 1, 3), SquareView::Hidden);
    assert_eq!(view(&f, 0, 4), SquareView::Hidden);
    assert_eq!(f.revealed_count(), 9);
}

#[test]
fn second_reveal_chords() {
    let mut f = field(&["...*.", ".....", "...*."]);
    assert_eq!(f.reveal_sq(&Point::new(1, 0)), MoveResult::Continue);
    assert_eq!(f.toggle_flag(&Point::new(0, 3)), MoveResult::Continue);
    assert_eq!(f.toggle_flag(&Point::new(2, 3)), MoveResult::Continue);
    assert_eq!(f.reveal_sq(&Point::new(1, 2)), MoveResult::Continue);
    assert_eq!(view(&f, 1, 3), SquareView::Revealed(2));
    assert_eq!(view(&f, 0, 3), SquareView::Flag);
    assert_eq!(view(&f, 2, 3), SquareView::Flag);
    assert_eq!(view(&f, 0, 4), SquareView::Hidden);
    assert_eq!(f.revealed_count(), 10);
}

#[test]
fn chord_with_wrong_flag_count_does_nothing() {
    let mut f = field(&["...*.", ".....", "...*."]);
    f.reveal_sq(&Point::new(1, 0));
    f.toggle_flag(&Point::new(0, 3));
    assert_eq!(f.reveal_sq(&Point::new(1, 2)), MoveResult::Continue);
    assert_eq!(view(&f, 1, 3), SquareView::Hidden);
    assert_eq!(f.revealed_count(), 9);
}

#[test]
fn chord_with_misplaced_flag_loses() {
    let mut f = field(&["...*.", ".....", "...*."]);
    f.reveal_sq(&Point::new(1, 0));
    f.toggle_flag(&Point::new(0, 3));
    f.toggle_flag(&Point::new(1, 3));
    assert_eq!(f.reveal_sq(&Point::new(1, 2)), MoveResult::Lose);
    assert_eq!(view(&f, 0, 3), SquareView::Mine);
    assert_eq!(view(&f, 2, 3), SquareView::Mine);
}

#[test]
fn revealing_a_flag_does_nothing() {
    let mut f = field(&["*....", ".....", "....."]);
    assert_eq!(f.toggle_flag(&Point::new(2, 4)), MoveResult::Continue);
    assert_eq!(f.is_flag(&Point::new(2, 4)), Some(true));
    assert_eq!(f.reveal_sq(&Point::new(2, 4)), MoveResult::Continue);
    assert_eq!(view(&f, 2, 4), SquareView::Flag);
    assert_eq!(f.revealed_count(), 0);
    assert_eq!(f.toggle_flag(&Point::new(2, 4)), MoveResult::Continue);
    assert_eq!(f.is_flag(&Point::new(2, 4)), Some(false));
    assert_eq!(view(&f, 2, 4), SquareView::Hidden);
}

#[test]
fn flagging_a_revealed_cell_does_nothing() {
    let mut f = field(&["*.", ".."]);
    f.reveal_sq(&Point::new(1, 1));
    assert_eq!(f.toggle_flag(&Point::new(1, 1)), MoveResult::Continue);
    assert_eq!(f.is_flag(&Point::new(1, 1)), Some(false));
    assert_eq!(view(&f, 1, 1), SquareView::Revealed(1));
}

#[test]
fn win_on_last_safe_cell() {
    let mut f = field(&["*.", ".."]);
    assert_eq!(f.reveal_sq(&Point::new(1, 1)), MoveResult::Continue);
    assert_eq!(f.reveal_sq(&Point::new(0, 1)), MoveResult::Continue);
    assert_eq!(view(&f, 0, 0), SquareView::Hidden);
    assert_eq!(f.reveal_sq(&Point::new(1, 0)), MoveResult::Win);
    assert_eq!(f.revealed_count(), 3);
    assert_eq!(view(&f, 0, 0), SquareView::Mine);
}

#[test]
fn win_by_flood() {
    let mut f = field(&["...*"]);
    assert_eq!(f.reveal_sq(&Point::new(0, 0)), MoveResult::Win);
    assert_eq!(view(&f, 0, 2), SquareView::Revealed(1));
    assert_eq!(view(&f, 0, 3), SquareView::Mine);
}

#[test]
fn lose_shows_every_mine() {
    let mut f = field(&["*...*."]);
    assert_eq!(f.reveal_sq(&Point::new(0, 1)), MoveResult::Continue);
    assert_eq!(f.reveal_sq(&Point::new(0, 5)), MoveResult::Continue);
    assert_eq!(f.toggle_flag(&Point::new(0, 4)), MoveResult::Continue);
    assert_eq!(f.reveal_sq(&Point::new(0, 0)), MoveResult::Lose);
    assert_eq!(view(&f, 0, 0), SquareView::Mine);
    assert_eq!(view(&f, 0, 4), SquareView::Mine);
    assert_eq!(view(&f, 0, 2), SquareView::Hidden);
}

#[test]
fn out_of_bounds_moves_are_rejected() {
    let mut f = field(&["*....", ".....", ".....", ".....", "....."]);
    f.reveal_sq(&Point::new(4, 4));
    let before = f.revealed_count();
    let views = f.get_view_iter();
    assert_eq!(f.reveal_sq(&Point::new(5, 5)), oob());
    assert_eq!(f.reveal_sq(&Point::new(100, 100)), oob());
    assert_eq!(f.toggle_flag(&Point::new(5, 5)), oob());
    assert_eq!(f.toggle_flag(&Point::new(100, 100)), oob());
    assert_eq!(f.revealed_count(), before);
    assert_eq!(f.get_view_iter(), views);
    assert_eq!(f.view_sq(&Point::new(5, 5)), None);
    assert_eq!(f.is_flag(&Point::new(100, 100)), None);
}

#[test]
fn view_order_is_row_major() {
    let mut f = field(&["*..", "..."]);
    f.reveal_sq(&Point::new(1, 2));
    f.toggle_flag(&Point::new(0, 0));
    let views = f.get_view_iter();
    assert_eq!(views.len(), 6);
    assert_eq!(views[0], SquareView::Flag);
    assert_eq!(views[1], SquareView::Revealed(1));
    assert_eq!(views[2], SquareView::Revealed(0));
    assert_eq!(views[3], SquareView::Hidden);
    assert_eq!(views[4], SquareView::Revealed(1));
    assert_eq!(views[5], SquareView::Revealed(0));
}

#[test]
fn neighbor_counts_match_brute_force() {
    let rows = ["*.*.", "....", ".**.", "...*"];
    let grid: Vec<Vec<bool>> = rows.iter().map(|r| r.chars().map(|c| c == '*').collect()).collect();
    let mut f = MineField::from_mine_grid(&grid);
    f.reveal_sq(&Point::new(0, 3));
    f.reveal_sq(&Point::new(1, 1));
    for i in 0..4 {
        for j in 0..4 {
            f.reveal_sq(&Point::new(i, j));
        }
    }
    for i in 0..4usize {
        for j in 0..4usize {
            let mut n = 0;
            for a in i.saturating_sub(1)..=(i + 1).min(3) {
                for b in j.saturating_sub(1)..=(j + 1).min(3) {
                    if (a, b) != (i, j) && grid[a][b] {
                        n += 1;
                    }
                }
            }
            let v = view(&f, i, j);
            if grid[i][j] {
                assert_eq!(v, SquareView::Mine);
            } else {
                assert_eq!(v, SquareView::Revealed(n));
            }
        }
    }
}

#[test]
fn mines_sit_at_given_indices() {
    let f = MineField::with_mines_at(3, 4, &vec![0, 5, 11]);
    assert_eq!(f.mine_count(), 3);
    let mut g = MineField::with_mines_at(3, 4, &vec![0, 5, 11]);
    g.reveal_sq(&Point::new(2, 0));
    assert_eq!(view(&g, 2, 0), SquareView::Revealed(1));
    g.reveal_sq(&Point::new(0, 3));
    assert_eq!(view(&g, 0, 3), SquareView::Revealed(0));
    assert_eq!(view(&g, 1, 2), SquareView::Revealed(2));
    assert_eq!(g.reveal_sq(&Point::new(1, 1)), MoveResult::Lose);
    assert_eq!(view(&g, 0, 0), SquareView::Mine);
    assert_eq!(view(&g, 1, 1), SquareView::Mine);
    assert_eq!(view(&g, 2, 3), SquareView::Mine);
}

#[test]
fn two_by_two_wins_on_third_safe_cell_in_any_order() {
    let cells = [(0usize, 0usize), (0, 1), (1, 0), (1, 1)];
    let orders = [[0, 1, 2], [0, 2, 1], [1, 0, 2], [1, 2, 0], [2, 0, 1], [2, 1, 0]];
    for m in 0..4 {
        let safe: Vec<(usize, usize)> = (0..4).filter(|&k| k != m).map(|k| cells[k]).collect();
        for order in orders.iter() {
            let mut f = MineField::with_mines_at(2, 2, &vec![m]);
            let results: Vec<MoveResult> =
                order.iter().map(|&k| f.reveal_sq(&Point::new(safe[k].0, safe[k].1))).collect();
            assert_eq!(results, vec![MoveResult::Continue, MoveResult::Continue, MoveResult::Win]);
            assert_eq!(view(&f, cells[m].0, cells[m].1), SquareView::Mine);
            for &(i, j) in safe.iter() {
                assert_eq!(view(&f, i, j), SquareView::Revealed(1));
            }
            assert_eq!(f.revealed_count(), 3);
        }
    }
}
