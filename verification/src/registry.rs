//! The tile registry: the exclusive owner of all live tiles, each tagged
//! with its grid coordinate and hue, plus the cell occupancy grid holding a
//! non-owning back-reference from each cell to the tile standing on it.
//!
//! Tiles are handed out under stable `u64` ids in creation order, so the
//! hit-test's "first match wins" tie-break means "earliest-created wins".

use vstd::prelude::*;

use crate::board::Board;
use crate::geometry::{cell_center, spec_center_x, spec_center_y};

verus! {

/// A stable handle to one live tile, unique until the tile is removed.
pub type TileId = u64;

/// One selectable board piece: its logical grid coordinate (mutable, moved
/// by the shift controller) and its hue in millidegrees (fixed at creation).
#[derive(Clone, Copy, PartialEq, Eq, Structural, Debug)]
pub struct Tile {
    pub id: TileId,
    pub row: u32,
    pub col: u32,
    pub hue_milli: u64,
}

/// Reported when a tile is removed under an id that is not live: a stale
/// handle is a logic bug upstream, never a no-op.
#[derive(Clone, Copy, PartialEq, Eq, Structural, Debug)]
pub struct UnknownTileError {
    pub id: TileId,
}

/// The tile's coordinate lies on the board.
pub open spec fn tile_in_grid(t: Tile, b: Board) -> bool {
    t.row < b.rows && t.col < b.cols
}

/// Two tiles stand on the same cell.
pub open spec fn same_cell(t1: Tile, t2: Tile) -> bool {
    t1.row == t2.row && t1.col == t2.col
}

/// The point `(x, y)` (in half-units) lies strictly inside the tile's
/// axis-aligned bounding box: the box is centered on the tile's cell and
/// extends one tile extent in half-units (half an extent in world units)
/// each way, all four edges exclusive.
pub open spec fn hits(b: Board, t: Tile, x: int, y: int) -> bool {
    let cx = spec_center_x(t.col, b.cols, b.tile_w, b.margin);
    let cy = spec_center_y(t.row, b.rows, b.tile_h, b.margin);
    &&& cx - b.tile_w < x < cx + b.tile_w
    &&& cy - b.tile_h < y < cy + b.tile_h
}

/// Id of the first tile, in creation order, whose bounding box strictly
/// contains `(x, y)`.
pub open spec fn first_hit(b: Board, tiles: Seq<Tile>, x: int, y: int) -> Option<TileId>
    decreases tiles.len(),
{
    if tiles.len() == 0 {
        None
    } else if hits(b, tiles[0], x, y) {
        Some(tiles[0].id)
    } else {
        first_hit(b, tiles.drop_first(), x, y)
    }
}

/// Index of the first tile carrying `id`, or `-1` if none is live.
pub open spec fn tile_index(tiles: Seq<Tile>, id: TileId) -> int
    decreases tiles.len(),
{
    if tiles.len() == 0 {
        -1
    } else if tiles[0].id == id {
        0
    } else {
        let rest = tile_index(tiles.drop_first(), id);
        if rest < 0 {
            -1
        } else {
            rest + 1
        }
    }
}

/// Position of the cell `(row, col)` in the row-major occupancy vector.
pub open spec fn cell_index(b: Board, row: u32, col: u32) -> int {
    (row as int) * (b.cols as int) + (col as int)
}

/// The registry: all live tiles in creation order, the id for the next
/// spawn, and one occupancy slot per cell of the board.
pub struct Registry {
    pub board: Board,
    pub next_id: TileId,
    pub tiles: Vec<Tile>,
    pub cells: Vec<Option<TileId>>,
}

impl Registry {
    /// The board is valid, there is one occupancy slot per cell, every
    /// tile stands on the board, and ids strictly increase in creation
    /// order and stay below the next id to be handed out.
    pub open spec fn wf(self) -> bool {
        &&& self.board.wf()
        &&& self.cells@.len() == (self.board.rows as int) * (self.board.cols as int)
        &&& forall|i: int| 0 <= i < self.tiles@.len() ==> tile_in_grid(#[trigger] self.tiles@[i], self.board)
        &&& forall|i: int, j: int|
            0 <= i < j < self.tiles@.len() ==> (#[trigger] self.tiles@[i].id) < (#[trigger] self.tiles@[j].id)
        &&& forall|i: int| 0 <= i < self.tiles@.len() ==> (#[trigger] self.tiles@[i].id) < self.next_id
    }

    /// An empty registry over `board`: no tiles, every cell vacant.
    pub fn new(board: Board) -> (r: Registry)
        requires
            board.wf(),
            (board.rows as int) * (board.cols as int) <= usize::MAX,
        ensures
            r.wf(),
            r.board == board,
            r.next_id == 0,
            r.tiles@.len() == 0,
            forall|k: int| 0 <= k < r.cells@.len() ==> (#[trigger] r.cells@[k]) is None,
    {
        proof {
            assert(0 <= (board.rows as int) * (board.cols as int)) by (nonlinear_arith);
        }
        let n: usize = (board.rows as usize) * (board.cols as usize);
        let mut cells: Vec<Option<TileId>> = Vec::new();
        for k in 0..n
            invariant
                cells@.len() == k,
                forall|m: int| 0 <= m < k ==> (#[trigger] cells@[m]) is None,
        {
            cells.push(None);
        }
        Registry { board, next_id: 0, tiles: Vec::new(), cells }
    }

    /// Spawns a tile at `(row, col)` with the given hue, appends it to the
    /// live set under a fresh id, and marks its cell occupied by it.
    pub fn spawn_tile(&mut self, row: u32, col: u32, hue_milli: u64) -> (id: TileId)
        requires
            old(self).wf(),
            row < old(self).board.rows,
            col < old(self).board.cols,
            old(self).next_id < TileId::MAX,
        ensures
            final(self).wf(),
            id == old(self).next_id,
            final(self).board == old(self).board,
            final(self).next_id == old(self).next_id + 1,
            final(self).tiles@ == old(self).tiles@.push((Tile { id, row, col, hue_milli })),
            final(self).cells@ == old(self).cells@.update(
                cell_index(old(self).board, row, col),
                Some(id),
            ),
    {
        let id = self.next_id;
        self.next_id = self.next_id + 1;
        self.tiles.push(Tile { id, row, col, hue_milli });
        proof {
            lemma_cell_index_in_range(self.board, row, col);
        }
        let _nslots = self.cells.len();
        let idx: usize = (row as usize) * (self.board.cols as usize) + (col as usize);
        self.cells[idx] = Some(id);
        id
    }

    /// Removes the tile with the given id, vacating the cell at its
    /// current coordinate; a stale or unknown id is an error and leaves
    /// the registry untouched.
    pub fn remove_tile(&mut self, id: TileId) -> (r: Result<Tile, UnknownTileError>)
        requires
            old(self).wf(),
        ensures
            final(self).wf(),
            final(self).board == old(self).board,
            final(self).next_id == old(self).next_id,
            ({
                let ix = tile_index(old(self).tiles@, id);
                match r {
                    Ok(t) => ix >= 0 && t == old(self).tiles@[ix] && final(self).tiles@ == old(
                        self,
                    ).tiles@.remove(ix) && final(self).cells@ == old(self).cells@.update(
                        cell_index(old(self).board, t.row, t.col),
                        None,
                    ),
                    Err(e) => ix < 0 && e == (UnknownTileError { id }) && final(self).tiles@ == old(
                        self,
                    ).tiles@ && final(self).cells@ == old(self).cells@,
                }
            }),
    {
        let n = self.tiles.len();
        let mut i: usize = 0;
        while i < n
            invariant
                self == old(self),
                n == self.tiles@.len(),
                old(self).wf(),
                i <= n,
                forall|j: int| 0 <= j < i ==> (#[trigger] self.tiles@[j].id) != id,
            decreases n - i,
        {
            if self.tiles[i].id == id {
                proof {
                    lemma_tile_index_first(self.tiles@, id, i as int);
                }
                let t = self.tiles.remove(i);
                proof {
                    lemma_cell_index_in_range(self.board, t.row, t.col);
                    old(self).tiles@.remove_ensures(i as int);
                    lemma_removed_still_sorted(old(self).tiles@, i as int);
                }
                let _nslots = self.cells.len();
                let idx: usize = (t.row as usize) * (self.board.cols as usize) + (t.col
                    as usize);
                self.cells[idx] = None;
                return Ok(t);
            }
            i = i + 1;
        }
        proof {
            lemma_tile_index_props(self.tiles@, id);
        }
        Err(UnknownTileError { id })
    }

    /// Hit-test: the id of the first live tile, in creation order, whose
    /// bounding box strictly contains the point `(x, y)` in half-units.
    /// Earliest-created wins when boxes overlap; a miss is a plain `None`.
    pub fn tile_at_position(&self, x: i64, y: i64) -> (r: Option<TileId>)
        requires
            self.wf(),
        ensures
            r == first_hit(self.board, self.tiles@, x as int, y as int),
    {
        let n = self.tiles.len();
        let mut i: usize = 0;
        proof {
            assert(self.tiles@.skip(0) =~= self.tiles@);
        }
        while i < n
            invariant
                self.wf(),
                n == self.tiles@.len(),
                i <= n,
                first_hit(self.board, self.tiles@, x as int, y as int) == first_hit(
                    self.board,
                    self.tiles@.skip(i as int),
                    x as int,
                    y as int,
                ),
            decreases n - i,
        {
            let t = self.tiles[i];
            let (cx, cy) = cell_center(
                t.row,
                t.col,
                self.board.rows,
                self.board.cols,
                self.board.tile_w,
                self.board.tile_h,
                self.board.margin,
            );
            let w = self.board.tile_w as i64;
            let h = self.board.tile_h as i64;
            proof {
                assert(self.tiles@.skip(i as int).len() > 0);
                assert(self.tiles@.skip(i as int)[0] == self.tiles@[i as int]);
            }
            if cx - w < x && x < cx + w && cy - h < y && y < cy + h {
                return Some(t.id);
            }
            proof {
                assert(self.tiles@.skip(i as int).drop_first() =~= self.tiles@.skip(i as int + 1));
            }
            i = i + 1;
        }
        proof {
            assert(self.tiles@.skip(n as int).len() == 0);
        }
        None
    }

    /// Every live tile as `(id, row, col)`, in creation order: the view
    /// the shift controller and the renderer iterate over.
    pub fn all_tiles(&self) -> (r: Vec<(TileId, u32, u32)>)
        ensures
            r@.len() == self.tiles@.len(),
            forall|i: int|
                0 <= i < r@.len() ==> r@[i] == ((
                    self.tiles@[i].id,
                    self.tiles@[i].row,
                    self.tiles@[i].col,
                )),
    {
        let n = self.tiles.len();
        let mut r: Vec<(TileId, u32, u32)> = Vec::new();
        let mut i: usize = 0;
        while i < n
            invariant
                n == self.tiles@.len(),
                i <= n,
                r@.len() == i,
                forall|j: int|
                    0 <= j < i ==> r@[j] == ((
                        self.tiles@[j].id,
                        self.tiles@[j].row,
                        self.tiles@[j].col,
                    )),
            decreases n - i,
        {
            let t = self.tiles[i];
            r.push((t.id, t.row, t.col));
            i = i + 1;
        }
        r
    }
}

/// The tile spawned `k`-th when a board is populated in row-major order:
/// id `k`, the `k`-th row-major cell, and the hue of that cell.
pub open spec fn initial_tile(k: int, b: Board) -> Tile {
    let row = ((k / (b.cols as int)) as u32);
    let col = ((k % (b.cols as int)) as u32);
    Tile {
        id: k as TileId,
        row,
        col,
        hue_milli: crate::geometry::spec_hue_milli(row, col, b.rows, b.cols) as u64,
    }
}

/// The explicit setup factory: builds the registry for `board` and spawns
/// one tile per cell in row-major order, so tile `k` stands on the `k`-th
/// row-major cell, carries id `k` and the hue of its coordinate, and its
/// cell holds a reference back to it.
pub fn build_registry(board: Board) -> (r: Registry)
    requires
        board.wf(),
        (board.rows as int) * (board.cols as int) <= usize::MAX,
    ensures
        r.wf(),
        r.board == board,
        r.next_id == (board.rows as int) * (board.cols as int),
        r.tiles@.len() == (board.rows as int) * (board.cols as int),
        forall|k: int| 0 <= k < r.tiles@.len() ==> (#[trigger] r.tiles@[k]) == initial_tile(k, board),
        forall|k: int| 0 <= k < r.cells@.len() ==> (#[trigger] r.cells@[k]) == Some(k as TileId),
{
    let mut r = Registry::new(board);
    let rows = board.rows;
    let cols = board.cols;
    proof {
        vstd::arithmetic::mul::lemma_mul_basics(cols as int);
    }
    for row in 0..rows
        invariant
            r.wf(),
            r.board == board,
            rows == board.rows,
            cols == board.cols,
            (rows as int) * (cols as int) <= usize::MAX,
            r.tiles@.len() <= r.cells@.len(),
            r.next_id == (row as int) * (cols as int),
            r.tiles@.len() == (row as int) * (cols as int),
            forall|k: int|
                0 <= k < r.tiles@.len() ==> (#[trigger] r.tiles@[k]) == initial_tile(k, board),
            forall|k: int|
                0 <= k < r.tiles@.len() ==> (#[trigger] r.cells@[k]) == Some(k as TileId),
            forall|k: int|
                r.tiles@.len() <= k < r.cells@.len() ==> (#[trigger] r.cells@[k]) is None,
    {
        for col in 0..cols
            invariant
                r.wf(),
                r.board == board,
                rows == board.rows,
                cols == board.cols,
                (rows as int) * (cols as int) <= usize::MAX,
                row < rows,
                r.tiles@.len() <= r.cells@.len(),
                r.next_id == (row as int) * (cols as int) + col,
                r.tiles@.len() == (row as int) * (cols as int) + col,
                forall|k: int|
                    0 <= k < r.tiles@.len() ==> (#[trigger] r.tiles@[k]) == initial_tile(k, board),
                forall|k: int|
                    0 <= k < r.tiles@.len() ==> (#[trigger] r.cells@[k]) == Some(k as TileId),
                forall|k: int|
                    r.tiles@.len() <= k < r.cells@.len() ==> (#[trigger] r.cells@[k]) is None,
        {
            proof {
                crate::board::lemma_row_major_step(row as int, col as int, rows as int, cols as int);
                vstd::arithmetic::div_mod::lemma_fundamental_div_mod_converse(
                    (row as int) * (cols as int) + (col as int),
                    cols as int,
                    row as int,
                    col as int,
                );
            }
            let hue = crate::geometry::hue_millidegrees(row, col, rows, cols);
            r.spawn_tile(row, col, hue);
        }
        proof {
            assert((row as int) * (cols as int) + (cols as int) == ((row as int) + 1) * (
            cols as int)) by (nonlinear_arith);
        }
    }
    r
}

/// A cell's slot in the occupancy vector lies within it.
proof fn lemma_cell_index_in_range(b: Board, row: u32, col: u32)
    requires
        row < b.rows,
        col < b.cols,
    ensures
        0 <= cell_index(b, row, col) < (b.rows as int) * (b.cols as int),
{
    assert(0 <= (row as int) * (b.cols as int) + (col as int) < (b.rows as int) * (b.cols as int))
        by (nonlinear_arith)
        requires
            0 <= (row as int) < (b.rows as int),
            0 <= (col as int) < (b.cols as int),
    ;
}

/// Removing one tile keeps the remaining ids strictly increasing.
proof fn lemma_removed_still_sorted(tiles: Seq<Tile>, k: int)
    requires
        0 <= k < tiles.len(),
        forall|i: int, j: int|
            0 <= i < j < tiles.len() ==> (#[trigger] tiles[i].id) < (#[trigger] tiles[j].id),
    ensures
        forall|i: int, j: int|
            0 <= i < j < tiles.remove(k).len() ==> (#[trigger] tiles.remove(k)[i].id) < (
            #[trigger] tiles.remove(k)[j].id),
{
    tiles.remove_ensures(k);
}

/// What `tile_index` finds: a valid position holding the id, preceded by
/// no occurrence, or `-1` exactly when the id is not live.
pub proof fn lemma_tile_index_props(tiles: Seq<Tile>, id: TileId)
    ensures
        tile_index(tiles, id) < tiles.len(),
        tile_index(tiles, id) >= 0 ==> tiles[tile_index(tiles, id)].id == id,
        tile_index(tiles, id) < 0 ==> forall|j: int|
            0 <= j < tiles.len() ==> (#[trigger] tiles[j].id) != id,
    decreases tiles.len(),
{
    if tiles.len() == 0 {
    } else if tiles[0].id == id {
    } else {
        lemma_tile_index_props(tiles.drop_first(), id);
        assert forall|j: int| 1 <= j < tiles.len() implies tiles.drop_first()[j - 1] == tiles[j] by {}
    }
}

/// When position `i` holds the first occurrence of `id`, `tile_index`
/// returns exactly `i`.
pub proof fn lemma_tile_index_first(tiles: Seq<Tile>, id: TileId, i: int)
    requires
        0 <= i < tiles.len(),
        tiles[i].id == id,
        forall|j: int| 0 <= j < i ==> (#[trigger] tiles[j].id) != id,
    ensures
        tile_index(tiles, id) == i,
    decreases i,
{
    if i == 0 {
    } else {
        assert(tiles[0].id != id);
        assert(tiles.drop_first()[i - 1] == tiles[i]);
        assert forall|j: int| 0 <= j < i - 1 implies (#[trigger] tiles.drop_first()[j].id) != id by {
            assert(tiles.drop_first()[j] == tiles[j + 1]);
        }
        lemma_tile_index_first(tiles.drop_first(), id, i - 1);
    }
}

/// Skipping tiles that do not contain the point leaves the first hit
/// unchanged.
proof fn lemma_first_hit_extend(b: Board, tiles: Seq<Tile>, x: int, y: int, i: int)
    requires
        0 <= i <= tiles.len(),
        forall|j: int| 0 <= j < i ==> !hits(b, #[trigger] tiles[j], x, y),
    ensures
        first_hit(b, tiles, x, y) == first_hit(b, tiles.skip(i), x, y),
    decreases i,
{
    if i == 0 {
        assert(tiles.skip(0) =~= tiles);
    } else {
        lemma_first_hit_extend(b, tiles, x, y, i - 1);
        assert(tiles.skip(i - 1).len() > 0);
        assert(tiles.skip(i - 1)[0] == tiles[i - 1]);
        assert(tiles.skip(i - 1).drop_first() =~= tiles.skip(i));
    }
}

/// A reported hit names a live tile whose box contains the point.
pub proof fn lemma_first_hit_present(b: Board, tiles: Seq<Tile>, x: int, y: int)
    requires
        first_hit(b, tiles, x, y) is Some,
    ensures
        exists|i: int|
            0 <= i < tiles.len() && (#[trigger] tiles[i].id) == first_hit(b, tiles, x, y).unwrap()
                && hits(b, tiles[i], x, y),
    decreases tiles.len(),
{
    if hits(b, tiles[0], x, y) {
        assert(tiles[0].id == first_hit(b, tiles, x, y).unwrap() && hits(b, tiles[0], x, y));
    } else {
        lemma_first_hit_present(b, tiles.drop_first(), x, y);
        let i = choose|i: int|
            0 <= i < tiles.drop_first().len() && (#[trigger] tiles.drop_first()[i].id) == first_hit(
                b,
                tiles.drop_first(),
                x,
                y,
            ).unwrap() && hits(b, tiles.drop_first()[i], x, y);
        assert(tiles.drop_first()[i] == tiles[i + 1]);
        assert((tiles[i + 1].id) == first_hit(b, tiles, x, y).unwrap() && hits(
            b,
            tiles[i + 1],
            x,
            y,
        ));
    }
}

/// When no live tile contains the point, the hit-test reports a miss.
pub proof fn lemma_first_hit_none(b: Board, tiles: Seq<Tile>, x: int, y: int)
    requires
        forall|i: int| 0 <= i < tiles.len() ==> !hits(b, #[trigger] tiles[i], x, y),
    ensures
        first_hit(b, tiles, x, y) is None,
{
    lemma_first_hit_extend(b, tiles, x, y, tiles.len() as int);
    assert(tiles.skip(tiles.len() as int).len() == 0);
}

/// The center of a tile's cell never lies inside the box of a tile on a
/// different cell: neighbouring centers are a full pitch apart on the axis
/// where the cells differ, and a pitch is at least a tile extent, while
/// the box reaches only half an extent each way.
proof fn lemma_distinct_cells_separate(b: Board, t1: Tile, t2: Tile)
    requires
        b.wf(),
        tile_in_grid(t1, b),
        tile_in_grid(t2, b),
        !same_cell(t1, t2),
    ensures
        !hits(
            b,
            t2,
            spec_center_x(t1.col, b.cols, b.tile_w, b.margin),
            spec_center_y(t1.row, b.rows, b.tile_h, b.margin),
        ),
{
    if t1.col != t2.col {
        let px = (b.tile_w as int) + (b.margin as int);
        let a1 = 2 * (t1.col as int) - (b.cols as int - 1);
        let a2 = 2 * (t2.col as int) - (b.cols as int - 1);
        assert(a1 * px - a2 * px >= 2 * px || a2 * px - a1 * px >= 2 * px) by (nonlinear_arith)
            requires
                a1 - a2 >= 2 || a2 - a1 >= 2,
                px >= 1,
        ;
    } else {
        let py = (b.tile_h as int) + (b.margin as int);
        let a1 = (b.rows as int - 1) - 2 * (t1.row as int);
        let a2 = (b.rows as int - 1) - 2 * (t2.row as int);
        assert(a1 * py - a2 * py >= 2 * py || a2 * py - a1 * py >= 2 * py) by (nonlinear_arith)
            requires
                a1 - a2 >= 2 || a2 - a1 >= 2,
                py >= 1,
        ;
    }
}

/// Law: the hit-test round-trips through the layout. When no two live
/// tiles share a cell, pressing exactly at the computed center of any live
/// tile selects that tile.
pub proof fn lemma_center_hit_roundtrip(b: Board, tiles: Seq<Tile>, k: int)
    requires
        b.wf(),
        forall|i: int| 0 <= i < tiles.len() ==> tile_in_grid(#[trigger] tiles[i], b),
        forall|i: int, j: int|
            0 <= i < j < tiles.len() ==> !same_cell(#[trigger] tiles[i], #[trigger] tiles[j]),
        0 <= k < tiles.len(),
    ensures
        first_hit(
            b,
            tiles,
            spec_center_x(tiles[k].col, b.cols, b.tile_w, b.margin),
            spec_center_y(tiles[k].row, b.rows, b.tile_h, b.margin),
        ) == Some(tiles[k].id),
{
    let cx = spec_center_x(tiles[k].col, b.cols, b.tile_w, b.margin);
    let cy = spec_center_y(tiles[k].row, b.rows, b.tile_h, b.margin);
    assert forall|j: int| 0 <= j < k implies !hits(b, #[trigger] tiles[j], cx, cy) by {
        lemma_distinct_cells_separate(b, tiles[k], tiles[j]);
    }
    lemma_first_hit_extend(b, tiles, cx, cy, k);
    assert(tiles.skip(k).len() > 0);
    assert(tiles.skip(k)[0] == tiles[k]);
    assert(hits(b, tiles[k], cx, cy));
}

/// Law: a point exactly on any edge of a tile's bounding box lies outside
/// it; containment is strict on all four edges.
pub proof fn lemma_edge_excluded(b: Board, t: Tile, x: int, y: int)
    ensures
        !hits(b, t, spec_center_x(t.col, b.cols, b.tile_w, b.margin) + b.tile_w, y),
        !hits(b, t, spec_center_x(t.col, b.cols, b.tile_w, b.margin) - b.tile_w, y),
        !hits(b, t, x, spec_center_y(t.row, b.rows, b.tile_h, b.margin) + b.tile_h),
        !hits(b, t, x, spec_center_y(t.row, b.rows, b.tile_h, b.margin) - b.tile_h),
{
}

/// Law: once the tile selected at its own center is removed, a second
/// press at that former center finds nothing. Requires, as the round-trip
/// does, that no two live tiles share a cell, and that ids are unique.
pub proof fn lemma_selected_center_vacant(b: Board, tiles: Seq<Tile>, k: int)
    requires
        b.wf(),
        forall|i: int| 0 <= i < tiles.len() ==> tile_in_grid(#[trigger] tiles[i], b),
        forall|i: int, j: int|
            0 <= i < j < tiles.len() ==> !same_cell(#[trigger] tiles[i], #[trigger] tiles[j]),
        forall|i: int, j: int|
            0 <= i < j < tiles.len() ==> (#[trigger] tiles[i].id) != (#[trigger] tiles[j].id),
        0 <= k < tiles.len(),
    ensures
        tile_index(tiles, tiles[k].id) == k,
        first_hit(
            b,
            tiles.remove(k),
            spec_center_x(tiles[k].col, b.cols, b.tile_w, b.margin),
            spec_center_y(tiles[k].row, b.rows, b.tile_h, b.margin),
        ) is None,
{
    let cx = spec_center_x(tiles[k].col, b.cols, b.tile_w, b.margin);
    let cy = spec_center_y(tiles[k].row, b.rows, b.tile_h, b.margin);
    lemma_tile_index_first(tiles, tiles[k].id, k);
    tiles.remove_ensures(k);
    assert forall|i: int| 0 <= i < tiles.remove(k).len() implies !hits(
        b,
        #[trigger] tiles.remove(k)[i],
        cx,
        cy,
    ) by {
        if i < k {
            assert(tiles.remove(k)[i] == tiles[i]);
            lemma_distinct_cells_separate(b, tiles[k], tiles[i]);
        } else {
            assert(tiles.remove(k)[i] == tiles[i + 1]);
            lemma_distinct_cells_separate(b, tiles[k], tiles[i + 1]);
        }
    }
    lemma_first_hit_none(b, tiles.remove(k), cx, cy);
}

} // verus!
