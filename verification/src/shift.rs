//! The shift controller: a directional key press translates every live
//! tile's grid coordinate by one cell, clamped at all four board edges, in
//! one synchronous pass. Ids and hues never change; cell occupancy
//! references are left as spawned, since screen positions are recomputed
//! from coordinates on demand rather than cached.

use vstd::prelude::*;

use crate::registry::{Registry, Tile};

verus! {

/// One directional key.
#[derive(Clone, Copy, PartialEq, Eq, Structural, Debug)]
pub enum Direction {
    Up,
    Down,
    Left,
    Right,
}

/// Where one tile of a `rows x cols` board stands after a shift: one cell
/// over in the given direction, clamped to the board edge it would leave.
pub open spec fn shifted_tile(t: Tile, d: Direction, rows: u32, cols: u32) -> Tile {
    match d {
        Direction::Up => Tile {
            id: t.id,
            row: if t.row > 0 {
                (t.row - 1) as u32
            } else {
                0u32
            },
            col: t.col,
            hue_milli: t.hue_milli,
        },
        Direction::Down => Tile {
            id: t.id,
            row: if t.row + 1 < rows {
                (t.row + 1) as u32
            } else {
                t.row
            },
            col: t.col,
            hue_milli: t.hue_milli,
        },
        Direction::Left => Tile {
            id: t.id,
            row: t.row,
            col: if t.col > 0 {
                (t.col - 1) as u32
            } else {
                0u32
            },
            hue_milli: t.hue_milli,
        },
        Direction::Right => Tile {
            id: t.id,
            row: t.row,
            col: if t.col + 1 < cols {
                (t.col + 1) as u32
            } else {
                t.col
            },
            hue_milli: t.hue_milli,
        },
    }
}

/// The whole live set after a shift, tile by tile.
pub open spec fn tiles_after_shift(tiles: Seq<Tile>, d: Direction, rows: u32, cols: u32) -> Seq<
    Tile,
> {
    Seq::new(tiles.len(), |i: int| shifted_tile(tiles[i], d, rows, cols))
}

/// The direction a step processes for a given set of pressed arrow keys:
/// the first pressed one in the fixed order Up, Down, Left, Right, or none.
pub open spec fn direction_of_keys(up: bool, down: bool, left: bool, right: bool) -> Option<
    Direction,
> {
    if up {
        Some(Direction::Up)
    } else if down {
        Some(Direction::Down)
    } else if left {
        Some(Direction::Left)
    } else if right {
        Some(Direction::Right)
    } else {
        None
    }
}

/// Picks the one direction to process out of the arrow keys pressed this
/// step; when several are pressed at once the first in the fixed order
/// Up, Down, Left, Right wins.
pub fn direction_from_keys(up: bool, down: bool, left: bool, right: bool) -> (d: Option<Direction>)
    ensures
        d == direction_of_keys(up, down, left, right),
{
    if up {
        Some(Direction::Up)
    } else if down {
        Some(Direction::Down)
    } else if left {
        Some(Direction::Left)
    } else if right {
        Some(Direction::Right)
    } else {
        None
    }
}

/// Moves every live tile one cell in direction `d`, clamped at the board
/// edges; ids, hues, the board and the occupancy grid are untouched.
pub fn shift_tiles(reg: &mut Registry, d: Direction)
    requires
        old(reg).wf(),
    ensures
        final(reg).wf(),
        final(reg).board == old(reg).board,
        final(reg).next_id == old(reg).next_id,
        final(reg).cells@ == old(reg).cells@,
        final(reg).tiles@ == tiles_after_shift(
            old(reg).tiles@,
            d,
            old(reg).board.rows,
            old(reg).board.cols,
        ),
{
    let rows = reg.board.rows;
    let cols = reg.board.cols;
    let n = reg.tiles.len();
    let mut i: usize = 0;
    while i < n
        invariant
            old(reg).wf(),
            reg.board == old(reg).board,
            reg.next_id == old(reg).next_id,
            reg.cells@ == old(reg).cells@,
            rows == reg.board.rows,
            cols == reg.board.cols,
            n == reg.tiles@.len(),
            reg.tiles@.len() == old(reg).tiles@.len(),
            i <= n,
            forall|j: int|
                0 <= j < i ==> reg.tiles@[j] == shifted_tile(#[trigger] old(reg).tiles@[j], d, rows, cols),
            forall|j: int| i <= j < n ==> reg.tiles@[j] == old(reg).tiles@[j],
        decreases n - i,
    {
        let t = reg.tiles[i];
        let moved = match d {
            Direction::Up => Tile {
                id: t.id,
                row: if t.row > 0 {
                    t.row - 1
                } else {
                    0
                },
                col: t.col,
                hue_milli: t.hue_milli,
            },
            Direction::Down => Tile {
                id: t.id,
                row: if t.row + 1 < rows {
                    t.row + 1
                } else {
                    t.row
                },
                col: t.col,
                hue_milli: t.hue_milli,
            },
            Direction::Left => Tile {
                id: t.id,
                row: t.row,
                col: if t.col > 0 {
                    t.col - 1
                } else {
                    0
                },
                hue_milli: t.hue_milli,
            },
            Direction::Right => Tile {
                id: t.id,
                row: t.row,
                col: if t.col + 1 < cols {
                    t.col + 1
                } else {
                    t.col
                },
                hue_milli: t.hue_milli,
            },
        };
        reg.tiles[i] = moved;
        i = i + 1;
    }
    proof {
        assert(reg.tiles@ =~= tiles_after_shift(old(reg).tiles@, d, rows, cols));
        assert forall|a: int, b: int| 0 <= a < b < reg.tiles@.len() implies (
        #[trigger] reg.tiles@[a].id) < (#[trigger] reg.tiles@[b].id) by {
            assert(old(reg).tiles@[a].id < old(reg).tiles@[b].id);
        }
        assert forall|a: int| 0 <= a < reg.tiles@.len() implies crate::registry::tile_in_grid(
            #[trigger] reg.tiles@[a],
            reg.board,
        ) && reg.tiles@[a].id < reg.next_id by {
            assert(crate::registry::tile_in_grid(old(reg).tiles@[a], old(reg).board));
            assert(old(reg).tiles@[a].id < old(reg).next_id);
        }
    }
}

} // verus!
