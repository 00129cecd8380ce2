use lift_shift::board::Board;
use lift_shift::registry::build_registry;
use lift_shift::shift::{direction_from_keys, shift_tiles, Direction};

const TILE: u32 = 1000;
const MARGIN: u32 = 100;
const VIEW_W: u32 = 4716;
const VIEW_H: u32 = 10224;

fn scenario_board() -> Board {
    Board::new(3, 3, TILE, TILE, MARGIN, VIEW_W, VIEW_H).unwrap()
}

#[test]
fn shift_up_clamps_at_the_top_row() {
    // On a 3x3 board a tile at row 0 stays at row 0; one at row 2 moves
    // to row 1.
    let mut r = build_registry(scenario_board());
    shift_tiles(&mut r, Direction::Up);
    for t in r.tiles.iter() {
        let expected = if t.id < 3 { 0 } else if t.id < 6 { 0 } else { 1 };
        assert_eq!(t.row, expected);
        assert_eq!(t.col, t.id as u32 % 3);
    }
}

#[test]
fn shift_down_clamps_at_the_bottom_row() {
    let mut r = build_registry(scenario_board());
    shift_tiles(&mut r, Direction::Down);
    for t in r.tiles.iter() {
        let expected = if t.id < 3 { 1 } else { 2 };
        assert_eq!(t.row, expected);
    }
}

#[test]
fn shift_left_and_right_clamp_at_the_side_columns() {
    let mut r = build_registry(scenario_board());
    shift_tiles(&mut r, Direction::Left);
    for t in r.tiles.iter() {
        let expected = if t.id % 3 == 0 { 0 } else { t.id as u32 % 3 - 1 };
        assert_eq!(t.col, expected);
    }
    shift_tiles(&mut r, Direction::Right);
    shift_tiles(&mut r, Direction::Right);
    shift_tiles(&mut r, Direction::Right);
    for t in r.tiles.iter() {
        assert_eq!(t.col, 2);
    }
}

#[test]
fn shift_keeps_ids_and_hues() {
    let mut r = build_registry(scenario_board());
    let before: Vec<(u64, u64)> = r.tiles.iter().map(|t| (t.id, t.hue_milli)).collect();
    shift_tiles(&mut r, Direction::Down);
    let after: Vec<(u64, u64)> = r.tiles.iter().map(|t| (t.id, t.hue_milli)).collect();
    assert_eq!(before, after);
}

#[test]
fn first_pressed_direction_wins() {
    assert_eq!(direction_from_keys(true, true, true, true), Some(Direction::Up));
    assert_eq!(direction_from_keys(false, true, true, false), Some(Direction::Down));
    assert_eq!(direction_from_keys(false, false, true, true), Some(Direction::Left));
    assert_eq!(direction_from_keys(false, false, false, true), Some(Direction::Right));
    assert_eq!(direction_from_keys(false, false, false, false), None);
}
