//! The selection pipeline: a raw pointer press (a world position in
//! half-units, or nothing when the device reports no position) is
//! hit-tested against the live tiles; the first match, in creation order,
//! yields exactly one `TileTouchedEvent` and one authoritative removal of
//! the touched tile. A press with no position, or one over no tile, is a
//! plain no-op, never an error.
//!
//! The event is returned to the caller so the remaining consumers — the
//! logger and the audio trigger, both outside this core — can observe the
//! same single event after the removal has been applied.

use vstd::prelude::*;

use crate::geometry::{spec_center_x, spec_center_y};
use crate::registry::{
    cell_index, first_hit, same_cell, tile_index, tile_in_grid, Registry, Tile, TileId,
    lemma_center_hit_roundtrip, lemma_first_hit_present, lemma_selected_center_vacant,
    lemma_tile_index_props,
};
use crate::shift::{
    direction_from_keys, direction_of_keys, shift_tiles, tiles_after_shift,
};
use crate::board::Board;

verus! {

/// The ephemeral event carrying the identity of exactly one touched tile,
/// produced at most once per pointer press.
#[derive(Clone, Copy, PartialEq, Eq, Structural, Debug)]
pub struct TileTouchedEvent {
    pub id: TileId,
}

/// The tile a press selects: the first live tile, in creation order,
/// whose bounding box strictly contains the press position; none when the
/// press has no position or no tile contains it.
pub open spec fn touched_tile(b: Board, tiles: Seq<Tile>, press: Option<(i64, i64)>) -> Option<
    TileId,
> {
    match press {
        None => None,
        Some(p) => first_hit(b, tiles, p.0 as int, p.1 as int),
    }
}

/// The live set after a press has been processed: unchanged on a miss,
/// the touched tile removed on a hit.
pub open spec fn tiles_after_selection(
    b: Board,
    tiles: Seq<Tile>,
    press: Option<(i64, i64)>,
) -> Seq<Tile> {
    match touched_tile(b, tiles, press) {
        None => tiles,
        Some(id) => tiles.remove(tile_index(tiles, id)),
    }
}

/// The occupancy grid after a press has been processed: unchanged on a
/// miss, the touched tile's cell vacated on a hit.
pub open spec fn cells_after_selection(
    b: Board,
    tiles: Seq<Tile>,
    cells: Seq<Option<TileId>>,
    press: Option<(i64, i64)>,
) -> Seq<Option<TileId>> {
    match touched_tile(b, tiles, press) {
        None => cells,
        Some(id) => {
            let t = tiles[tile_index(tiles, id)];
            cells.update(cell_index(b, t.row, t.col), None)
        },
    }
}

/// Processes one pointer press: hit-tests it against the live tiles,
/// removes the first — earliest-created — tile containing it, and emits
/// the one `TileTouchedEvent` naming that tile. A press with no position
/// or over no tile leaves the registry untouched and emits nothing.
pub fn selection_step(reg: &mut Registry, press: Option<(i64, i64)>) -> (ev: Option<
    TileTouchedEvent,
>)
    requires
        old(reg).wf(),
    ensures
        final(reg).wf(),
        final(reg).board == old(reg).board,
        final(reg).next_id == old(reg).next_id,
        final(reg).tiles@ == tiles_after_selection(old(reg).board, old(reg).tiles@, press),
        final(reg).cells@ == cells_after_selection(
            old(reg).board,
            old(reg).tiles@,
            old(reg).cells@,
            press,
        ),
        ev == (match touched_tile(old(reg).board, old(reg).tiles@, press) {
            None => Option::<TileTouchedEvent>::None,
            Some(id) => Some((TileTouchedEvent { id })),
        }),
{
    match press {
        None => None,
        Some((x, y)) => {
            match reg.tile_at_position(x, y) {
                None => None,
                Some(id) => {
                    proof {
                        lemma_first_hit_present(reg.board, reg.tiles@, x as int, y as int);
                        lemma_tile_index_props(reg.tiles@, id);
                    }
                    let removed = reg.remove_tile(id);
                    proof {
                        assert(removed is Ok);
                    }
                    Some(TileTouchedEvent { id })
                },
            }
        },
    }
}

/// One full input step, in the fixed frame order: first the pointer press
/// runs through the selection pipeline, then the one direction picked
/// from the pressed arrow keys shifts every remaining tile.
pub fn step(
    reg: &mut Registry,
    press: Option<(i64, i64)>,
    up: bool,
    down: bool,
    left: bool,
    right: bool,
) -> (ev: Option<TileTouchedEvent>)
    requires
        old(reg).wf(),
    ensures
        final(reg).wf(),
        final(reg).board == old(reg).board,
        final(reg).next_id == old(reg).next_id,
        final(reg).tiles@ == (match direction_of_keys(up, down, left, right) {
            None => tiles_after_selection(old(reg).board, old(reg).tiles@, press),
            Some(d) => tiles_after_shift(
                tiles_after_selection(old(reg).board, old(reg).tiles@, press),
                d,
                old(reg).board.rows,
                old(reg).board.cols,
            ),
        }),
        final(reg).cells@ == cells_after_selection(
            old(reg).board,
            old(reg).tiles@,
            old(reg).cells@,
            press,
        ),
        ev == (match touched_tile(old(reg).board, old(reg).tiles@, press) {
            None => Option::<TileTouchedEvent>::None,
            Some(id) => Some((TileTouchedEvent { id })),
        }),
{
    let ev = selection_step(reg, press);
    match direction_from_keys(up, down, left, right) {
        None => {},
        Some(d) => shift_tiles(reg, d),
    }
    ev
}

/// Law: pressing exactly at the computed center of a live tile selects
/// that tile and only that tile — the one event names it, the live set
/// afterwards is the old one with exactly that tile taken out, and a
/// second press at the former center finds nothing. Holds whenever no two
/// live tiles share a cell and ids are pairwise distinct, as they are in
/// any well-formed registry.
pub proof fn lemma_center_selection(b: Board, tiles: Seq<Tile>, k: int, x: i64, y: i64)
    requires
        b.wf(),
        forall|i: int| 0 <= i < tiles.len() ==> tile_in_grid(#[trigger] tiles[i], b),
        forall|i: int, j: int|
            0 <= i < j < tiles.len() ==> !same_cell(#[trigger] tiles[i], #[trigger] tiles[j]),
        forall|i: int, j: int|
            0 <= i < j < tiles.len() ==> (#[trigger] tiles[i].id) != (#[trigger] tiles[j].id),
        0 <= k < tiles.len(),
        x == spec_center_x(tiles[k].col, b.cols, b.tile_w, b.margin),
        y == spec_center_y(tiles[k].row, b.rows, b.tile_h, b.margin),
    ensures
        touched_tile(b, tiles, Some((x, y))) == Some(tiles[k].id),
        tiles_after_selection(b, tiles, Some((x, y))) == tiles.remove(k),
        touched_tile(b, tiles_after_selection(b, tiles, Some((x, y))), Some((x, y))) is None,
{
    lemma_center_hit_roundtrip(b, tiles, k);
    lemma_selected_center_vacant(b, tiles, k);
}

} // verus!
