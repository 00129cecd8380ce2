use lift_shift::board::Board;
use lift_shift::registry::build_registry;
use lift_shift::selection::{selection_step, step, TileTouchedEvent};

const TILE: u32 = 1000;
const MARGIN: u32 = 100;
const VIEW_W: u32 = 4716;
const VIEW_H: u32 = 10224;

fn scenario_board() -> Board {
    Board::new(3, 3, TILE, TILE, MARGIN, VIEW_W, VIEW_H).unwrap()
}

#[test]
fn selecting_a_tile_emits_one_event_and_removes_it() {
    let mut r = build_registry(scenario_board());
    let ev = selection_step(&mut r, Some((0, 0)));
    assert_eq!(ev, Some(TileTouchedEvent { id: 4 }));
    // Exactly one removal happened...
    assert_eq!(r.tiles.len(), 8);
    assert!(r.tiles.iter().all(|t| t.id != 4));
    assert_eq!(r.cells[4], None);
    // ...and the former center hits nothing any more.
    assert_eq!(r.tile_at_position(0, 0), None);
}

#[test]
fn a_press_with_no_position_is_a_no_op() {
    let mut r = build_registry(scenario_board());
    let ev = selection_step(&mut r, None);
    assert_eq!(ev, None);
    assert_eq!(r.tiles.len(), 9);
}

#[test]
fn a_press_over_no_tile_is_a_no_op() {
    let mut r = build_registry(scenario_board());
    let ev = selection_step(&mut r, Some((1100, 1100)));
    assert_eq!(ev, None);
    assert_eq!(r.tiles.len(), 9);
}

#[test]
fn selecting_twice_selects_two_different_tiles() {
    let mut r = build_registry(scenario_board());
    let first = selection_step(&mut r, Some((0, 0))).unwrap();
    // The same press position now misses; a press on the top-left tile
    // still selects it.
    assert_eq!(selection_step(&mut r, Some((0, 0))), None);
    let second = selection_step(&mut r, Some((-2200, 2200))).unwrap();
    assert_eq!(first, TileTouchedEvent { id: 4 });
    assert_eq!(second, TileTouchedEvent { id: 0 });
    assert_eq!(r.tiles.len(), 7);
}

#[test]
fn a_full_step_selects_then_shifts() {
    let mut r = build_registry(scenario_board());
    // Press the center tile and hold the Up arrow in the same step: the
    // center tile goes, then every remaining tile moves one row up.
    let ev = step(&mut r, Some((0, 0)), true, false, false, false);
    assert_eq!(ev, Some(TileTouchedEvent { id: 4 }));
    assert_eq!(r.tiles.len(), 8);
    for t in r.tiles.iter() {
        let spawned_row = t.id as u32 / 3;
        let expected = if spawned_row == 0 { 0 } else { spawned_row - 1 };
        assert_eq!(t.row, expected);
    }
}

#[test]
fn a_step_without_input_changes_nothing() {
    let mut r = build_registry(scenario_board());
    let ev = step(&mut r, None, false, false, false, false);
    assert_eq!(ev, None);
    assert_eq!(r.tiles.len(), 9);
    for t in r.tiles.iter() {
        assert_eq!(t.row, t.id as u32 / 3);
        assert_eq!(t.col, t.id as u32 % 3);
    }
}
