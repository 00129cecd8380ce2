use lift_shift::board::Board;
use lift_shift::geometry::cell_center;
use lift_shift::registry::{build_registry, Registry, UnknownTileError};

const TILE: u32 = 1000;
const MARGIN: u32 = 100;
const VIEW_W: u32 = 4716;
const VIEW_H: u32 = 10224;

fn scenario_board() -> Board {
    Board::new(3, 3, TILE, TILE, MARGIN, VIEW_W, VIEW_H).unwrap()
}

#[test]
fn build_spawns_one_tile_per_cell() {
    let r = build_registry(scenario_board());
    assert_eq!(r.tiles.len(), 9);
    assert_eq!(r.next_id, 9);
    for (k, t) in r.tiles.iter().enumerate() {
        assert_eq!(t.id, k as u64);
        assert_eq!(t.row, k as u32 / 3);
        assert_eq!(t.col, k as u32 % 3);
        assert_eq!(t.hue_milli, 80000 * (t.row as u64 + t.col as u64));
    }
    assert_eq!(r.cells.len(), 9);
    for (k, c) in r.cells.iter().enumerate() {
        assert_eq!(*c, Some(k as u64));
    }
}

#[test]
fn spawn_sets_the_cell_reference() {
    let mut r = Registry::new(scenario_board());
    let id = r.spawn_tile(1, 2, 0);
    assert_eq!(id, 0);
    assert_eq!(r.cells[1 * 3 + 2], Some(id));
    assert_eq!(r.cells[0], None);
}

#[test]
fn remove_clears_the_cell_reference() {
    let mut r = build_registry(scenario_board());
    let t = r.remove_tile(4).unwrap();
    assert_eq!(t.row, 1);
    assert_eq!(t.col, 1);
    assert_eq!(r.tiles.len(), 8);
    assert_eq!(r.cells[4], None);
    assert_eq!(r.cells[3], Some(3));
}

#[test]
fn removing_an_unknown_id_is_an_error() {
    let mut r = build_registry(scenario_board());
    assert_eq!(r.remove_tile(99), Err(UnknownTileError { id: 99 }));
    assert_eq!(r.tiles.len(), 9);
}

#[test]
fn removing_twice_is_an_error() {
    let mut r = build_registry(scenario_board());
    assert!(r.remove_tile(4).is_ok());
    assert_eq!(r.remove_tile(4), Err(UnknownTileError { id: 4 }));
    assert_eq!(r.tiles.len(), 8);
}

#[test]
fn every_center_hits_its_own_tile() {
    // Hit-test round trip: the computed center of each tile selects it.
    let r = build_registry(scenario_board());
    for t in r.tiles.iter() {
        let (x, y) = cell_center(t.row, t.col, 3, 3, TILE, TILE, MARGIN);
        assert_eq!(r.tile_at_position(x, y), Some(t.id));
    }
}

#[test]
fn origin_press_hits_the_center_tile() {
    // The grid is centered on the origin, so (0,0) lies in the middle
    // tile at (row 1, col 1), which was spawned fifth.
    let r = build_registry(scenario_board());
    assert_eq!(r.tile_at_position(0, 0), Some(4));
}

#[test]
fn a_point_on_the_edge_is_not_matched() {
    // Containment is strict: the right edge of the center tile lies at
    // half a tile extent, 1000 half-units, and is outside it — and inside
    // no neighbour either, the margin keeping boxes apart.
    let r = build_registry(scenario_board());
    assert_eq!(r.tile_at_position(1000, 0), None);
    assert_eq!(r.tile_at_position(-1000, 0), None);
    assert_eq!(r.tile_at_position(0, 1000), None);
    assert_eq!(r.tile_at_position(0, -1000), None);
    assert_eq!(r.tile_at_position(999, 999), Some(4));
}

#[test]
fn a_point_between_tiles_misses() {
    let r = build_registry(scenario_board());
    // Half way between the boxes of columns 1 and 2: 1100 half-units.
    assert_eq!(r.tile_at_position(1100, 0), None);
}

#[test]
fn earliest_created_wins_on_overlap() {
    // With a zero margin and tiles sharing a cell, boxes overlap and the
    // first-created tile is matched.
    let b = Board::new(1, 1, TILE, TILE, 0, VIEW_W, VIEW_H).unwrap();
    let mut r = Registry::new(b);
    let first = r.spawn_tile(0, 0, 0);
    let _second = r.spawn_tile(0, 0, 0);
    assert_eq!(r.tile_at_position(0, 0), Some(first));
}

#[test]
fn all_tiles_lists_ids_and_coordinates() {
    let r = build_registry(scenario_board());
    let listed = r.all_tiles();
    assert_eq!(listed.len(), 9);
    assert_eq!(listed[0], (0, 0, 0));
    assert_eq!(listed[5], (5, 1, 2));
    assert_eq!(listed[8], (8, 2, 2));
}
