//! The board model: a fixed grid of `rows x cols` cells, validated at
//! construction against the largest grid that fits the viewport, and the
//! row-major enumeration of its cells used to spawn one tile per cell.

use vstd::prelude::*;

use crate::geometry::{max_cols, max_rows, spec_pitch};

verus! {

/// The axis whose requested extent exceeded what the viewport allows.
#[derive(Clone, Copy, PartialEq, Eq, Structural, Debug)]
pub enum Axis {
    Rows,
    Cols,
}

/// Reported when `Board::new` is asked for more rows or columns than fit
/// the viewport: the requested count, the largest allowed count, and the
/// violated axis.
#[derive(Clone, Copy, PartialEq, Eq, Structural, Debug)]
pub struct DimensionError {
    pub axis: Axis,
    pub requested: u32,
    pub max: u64,
}

/// A fixed-size logical grid: cell counts, tile extents and margin, all in
/// world units. Immutable after construction.
#[derive(Clone, Copy, PartialEq, Eq, Structural, Debug)]
pub struct Board {
    pub rows: u32,
    pub cols: u32,
    pub tile_w: u32,
    pub tile_h: u32,
    pub margin: u32,
}

/// The cell visited `k`-th by a row-major walk of a grid `cols` wide.
pub open spec fn row_major_coord(k: int, cols: int) -> (u32, u32) {
    (((k / cols) as u32), ((k % cols) as u32))
}

impl Board {
    /// Tile extents are positive and the whole grid spans at most
    /// `u32::MAX` world units on each axis, so every cell center fits
    /// comfortably in an `i64` of half-units.
    pub open spec fn wf(self) -> bool {
        &&& self.tile_w >= 1
        &&& self.tile_h >= 1
        &&& (self.cols as int) * spec_pitch(self.tile_w, self.margin) <= u32::MAX
        &&& (self.rows as int) * spec_pitch(self.tile_h, self.margin) <= u32::MAX
    }

    /// Builds a board after checking each axis against the viewport: at
    /// most `viewport / (extent + margin)` tiles fit per axis. A request
    /// over either bound is refused outright, citing the violated axis
    /// (rows are checked first); nothing is clamped.
    pub fn new(
        rows: u32,
        cols: u32,
        tile_w: u32,
        tile_h: u32,
        margin: u32,
        viewport_w: u32,
        viewport_h: u32,
    ) -> (r: Result<Board, DimensionError>)
        requires
            tile_w >= 1,
            tile_h >= 1,
        ensures
            ({
                let mr = (viewport_h as int) / spec_pitch(tile_h, margin);
                let mc = (viewport_w as int) / spec_pitch(tile_w, margin);
                match r {
                    Ok(b) => rows <= mr && cols <= mc && b == (Board {
                        rows,
                        cols,
                        tile_w,
                        tile_h,
                        margin,
                    }) && b.wf(),
                    Err(e) => (rows > mr || cols > mc) && e == (if rows > mr {
                        (DimensionError { axis: Axis::Rows, requested: rows, max: mr as u64 })
                    } else {
                        (DimensionError { axis: Axis::Cols, requested: cols, max: mc as u64 })
                    }),
                }
            }),
    {
        let mr = max_rows(viewport_h, tile_h, margin);
        let mc = max_cols(viewport_w, tile_w, margin);
        if (rows as u64) > mr {
            Err(DimensionError { axis: Axis::Rows, requested: rows, max: mr })
        } else if (cols as u64) > mc {
            Err(DimensionError { axis: Axis::Cols, requested: cols, max: mc })
        } else {
            proof {
                lemma_fits_viewport(rows as int, viewport_h as int, spec_pitch(tile_h, margin));
                lemma_fits_viewport(cols as int, viewport_w as int, spec_pitch(tile_w, margin));
            }
            Ok(Board { rows, cols, tile_w, tile_h, margin })
        }
    }

    /// All `(row, col)` pairs of the grid in row-major order, each exactly
    /// once: the enumeration used to spawn the initial tiles.
    pub fn coords(&self) -> (r: Vec<(u32, u32)>)
        requires
            (self.rows as int) * (self.cols as int) <= usize::MAX,
        ensures
            r@.len() == (self.rows as int) * (self.cols as int),
            forall|k: int|
                0 <= k < r@.len() ==> r@[k] == row_major_coord(k, self.cols as int),
            forall|i: int, j: int| 0 <= i < j < r@.len() ==> r@[i] != r@[j],
    {
        let rows = self.rows;
        let cols = self.cols;
        let mut r: Vec<(u32, u32)> = Vec::new();
        proof {
            assert((rows as int) * (cols as int) >= 0) by (nonlinear_arith);
        }
        for row in 0..rows
            invariant
                (rows as int) * (cols as int) <= usize::MAX,
                r@.len() == (row as int) * (cols as int),
                forall|k: int|
                    0 <= k < r@.len() ==> r@[k] == row_major_coord(k, cols as int),
        {
            for col in 0..cols
                invariant
                    (rows as int) * (cols as int) <= usize::MAX,
                    row < rows,
                    r@.len() == (row as int) * (cols as int) + col,
                    forall|k: int|
                        0 <= k < r@.len() ==> r@[k] == row_major_coord(k, cols as int),
            {
                proof {
                    lemma_row_major_step(row as int, col as int, rows as int, cols as int);
                    vstd::arithmetic::div_mod::lemma_fundamental_div_mod_converse(
                        (row as int) * (cols as int) + col,
                        cols as int,
                        row as int,
                        col as int,
                    );
                }
                r.push((row, col));
            }
            proof {
                assert((row as int) * (cols as int) + (cols as int) == ((row as int) + 1) * (
                cols as int)) by (nonlinear_arith);
            }
        }
        proof {
            assert forall|i: int, j: int| 0 <= i < j < r@.len() implies r@[i] != r@[j] by {
                assert(1 <= cols as int) by (nonlinear_arith)
                    requires
                        0 < (rows as int) * (cols as int),
                        0 <= cols as int,
                ;
                crate::geometry::lemma_div_below(j, cols as int, rows as int);
                lemma_row_major_unique(i, j, cols as int);
            }
        }
        r
    }
}

/// If at most `max = viewport / pitch` tiles fit and `n <= max`, then `n`
/// tiles span at most the viewport, which is at most `u32::MAX`.
proof fn lemma_fits_viewport(n: int, viewport: int, pitch: int)
    requires
        0 <= viewport <= u32::MAX,
        1 <= pitch,
        n <= viewport / pitch,
    ensures
        n * pitch <= u32::MAX,
{
    assert(n * pitch <= viewport) by (nonlinear_arith)
        requires
            0 <= viewport,
            1 <= pitch,
            n <= viewport / pitch,
    ;
}

/// One step of the row-major walk stays within the grid's cell count.
pub(crate) proof fn lemma_row_major_step(row: int, col: int, rows: int, cols: int)
    requires
        0 <= row < rows,
        0 <= col < cols,
    ensures
        row * cols + col < rows * cols,
        0 <= row * cols,
{
    assert(row * cols + col < rows * cols && 0 <= row * cols) by (nonlinear_arith)
        requires
            0 <= row < rows,
            0 <= col < cols,
    ;
}

/// Law: two distinct steps of the row-major walk of a grid name distinct
/// cells, as long as both row numbers fit a `u32`.
pub proof fn lemma_row_major_unique(i: int, j: int, cols: int)
    requires
        0 <= i < j,
        1 <= cols <= u32::MAX,
        j / cols <= u32::MAX,
    ensures
        row_major_coord(i, cols) != row_major_coord(j, cols),
{
    vstd::arithmetic::div_mod::lemma_fundamental_div_mod(i, cols);
    vstd::arithmetic::div_mod::lemma_fundamental_div_mod(j, cols);
    vstd::arithmetic::div_mod::lemma_mod_pos_bound(i, cols);
    vstd::arithmetic::div_mod::lemma_mod_pos_bound(j, cols);
    vstd::arithmetic::div_mod::lemma_div_is_ordered(i, j, cols);
    vstd::arithmetic::div_mod::lemma_div_pos_is_pos(i, cols);
    if i / cols == j / cols && i % cols == j % cols {
        assert(i == j);
    }
}

} // verus!
