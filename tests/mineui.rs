use mines::mineui::{Key, MineUI, MineUIAction, MoveDirection, UIMode};
use mines::point::Point;

#[test]
fn new_ui_starts_at_origin_in_reveal_mode() {
    let ui = MineUI::new(4, 5);
    assert_eq!(ui.get_cursor(), Point::origin());
    assert_eq!(ui.mode, UIMode::Reveal);
}

#[test]
fn cursor_moves_within_grid() {
    let mut ui = MineUI::new(2, 3);
    assert_eq!(ui.move_cursor(MoveDirection::Right), Ok(()));
    assert_eq!(ui.move_cursor(MoveDirection::Down), Ok(()));
    assert_eq!(ui.get_cursor().tuple(), (1, 1));
    assert_eq!(ui.move_cursor(MoveDirection::Left), Ok(()));
    assert_eq!(ui.move_cursor(MoveDirection::Up), Ok(()));
    assert_eq!(ui.get_cursor().tuple(), (0, 0));
}

#[test]
fn cursor_stops_at_boundaries() {
    let mut ui = MineUI::new(2, 2);
    assert_eq!(ui.move_cursor(MoveDirection::Up), Err("already at upper boundary".to_string()));
    assert_eq!(ui.move_cursor(MoveDirection::Left), Err("already at left boundary".to_string()));
    ui.reset_cursor(Point::new(1, 1)).unwrap();
    assert_eq!(ui.move_cursor(MoveDirection::Down), Err("already at lower boundary".to_string()));
    assert_eq!(ui.move_cursor(MoveDirection::Right), Err("already at rightward boundary".to_string()));
    assert_eq!(ui.get_cursor().arr(), [1, 1]);
}

#[test]
fn reset_cursor_rejects_points_off_the_grid() {
    let mut ui = MineUI::new(5, 5);
    assert_eq!(ui.reset_cursor(Point::new(5, 5)), Err("point (5, 5)\n is OOB".to_string()));
    assert_eq!(ui.get_cursor(), Point::origin());
    assert_eq!(ui.reset_cursor(Point::new(4, 2)), Ok(()));
    assert_eq!(ui.get_cursor(), Point::new(4, 2));
}

#[test]
fn toggle_mode_switches() {
    let mut ui = MineUI::new(1, 1);
    ui.toggle_mode();
    assert_eq!(ui.mode, UIMode::Flag);
    ui.toggle_mode();
    assert_eq!(ui.mode, UIMode::Reveal);
}

#[test]
fn keys_map_to_actions() {
    assert_eq!(MineUI::match_key_to_action(Key::Up), MineUIAction::Move(MoveDirection::Up));
    assert_eq!(MineUI::match_key_to_action(Key::Right), MineUIAction::Move(MoveDirection::Right));
    assert_eq!(MineUI::match_key_to_action(Key::Char(' ')), MineUIAction::Select);
    assert_eq!(MineUI::match_key_to_action(Key::Char('f')), MineUIAction::Mode(UIMode::Flag));
    assert_eq!(MineUI::match_key_to_action(Key::Char('r')), MineUIAction::Mode(UIMode::Reveal));
    assert_eq!(MineUI::match_key_to_action(Key::Tab), MineUIAction::ToggleMode);
    assert_eq!(MineUI::match_key_to_action(Key::Char('h')), MineUIAction::Help);
    assert_eq!(MineUI::match_key_to_action(Key::Char('q')), MineUIAction::Quit);
    assert_eq!(MineUI::match_key_to_action(Key::Char('x')), MineUIAction::Wait);
    assert_eq!(MineUI::match_key_to_action(Key::Enter), MineUIAction::Wait);
}

#[test]
fn point_accessors() {
    let p = Point::new(3, 7);
    assert_eq!(p.tuple(), (3, 7));
    assert_eq!(p.arr(), [3, 7]);
    assert_eq!(Point::origin().tuple(), (0, 0));
}
