//! Pure layout math: grid cell centers, the hue of a freshly spawned tile,
//! and the largest grid that fits a viewport.
//!
//! Positions are expressed in half-units (twice the world coordinate): the
//! grid is centered on the origin, so a cell center lies at an integer
//! number of half-units whenever the tile extent and margin are integers.

use vstd::prelude::*;

verus! {

/// Distance between the centers of two adjacent columns (or rows): the tile
/// extent plus the margin, as a mathematical integer.
pub open spec fn spec_pitch(extent: u32, margin: u32) -> int {
    extent + margin
}

/// Horizontal center of the cell in column `col`, in half-units.
/// Column 0 is leftmost (most negative x).
pub open spec fn spec_center_x(col: u32, cols: u32, tile_w: u32, margin: u32) -> int {
    (2 * col - (cols - 1)) * spec_pitch(tile_w, margin)
}

/// Vertical center of the cell in row `row`, in half-units.
/// Row 0 is topmost (largest y).
pub open spec fn spec_center_y(row: u32, rows: u32, tile_h: u32, margin: u32) -> int {
    ((rows - 1) - 2 * row) * spec_pitch(tile_h, margin)
}

/// Hue assigned to the tile spawned at `(row, col)`, in millidegrees,
/// rounded toward zero: `720000 * (row + col) / (rows * cols)`.
pub open spec fn spec_hue_milli(row: u32, col: u32, rows: u32, cols: u32) -> int {
    720000 * (row + col) / ((rows as int) * (cols as int))
}

/// Center of the cell at `(row, col)`, in half-units, for a grid of
/// `rows x cols` cells centered on the origin.
pub fn cell_center(
    row: u32,
    col: u32,
    rows: u32,
    cols: u32,
    tile_w: u32,
    tile_h: u32,
    margin: u32,
) -> (c: (i64, i64))
    requires
        row < rows,
        col < cols,
        (cols as int) * spec_pitch(tile_w, margin) <= u32::MAX,
        (rows as int) * spec_pitch(tile_h, margin) <= u32::MAX,
    ensures
        c.0 == spec_center_x(col, cols, tile_w, margin),
        c.1 == spec_center_y(row, rows, tile_h, margin),
        -(u32::MAX as int) <= c.0 <= u32::MAX,
        -(u32::MAX as int) <= c.1 <= u32::MAX,
{
    let px: i64 = tile_w as i64 + margin as i64;
    let py: i64 = tile_h as i64 + margin as i64;
    let ax: i64 = 2 * (col as i64) - (cols as i64 - 1);
    let ay: i64 = (rows as i64 - 1) - 2 * (row as i64);
    proof {
        assert((-(cols as int)) * ((tile_w as int) + (margin as int)) <= (ax as int) * (px as int)
            <= (cols as int) * ((tile_w as int) + (margin as int))) by (nonlinear_arith)
            requires
                -(cols as int) <= ax as int <= cols as int,
                0 <= px as int,
                px as int == (tile_w as int) + (margin as int),
        ;
        assert((-(rows as int)) * ((tile_h as int) + (margin as int)) <= (ay as int) * (py as int)
            <= (rows as int) * ((tile_h as int) + (margin as int))) by (nonlinear_arith)
            requires
                -(rows as int) <= ay as int <= rows as int,
                0 <= py as int,
                py as int == (tile_h as int) + (margin as int),
        ;
        assert((-(cols as int)) * ((tile_w as int) + (margin as int)) == -((cols as int) * ((
        tile_w as int) + (margin as int)))) by (nonlinear_arith);
        assert((-(rows as int)) * ((tile_h as int) + (margin as int)) == -((rows as int) * ((
        tile_h as int) + (margin as int)))) by (nonlinear_arith);
    }
    (ax * px, ay * py)
}

/// Largest number of columns of `tile_w`-wide tiles, separated by `margin`,
/// that fit across a viewport `viewport_w` wide.
pub fn max_cols(viewport_w: u32, tile_w: u32, margin: u32) -> (m: u64)
    requires
        tile_w >= 1,
    ensures
        m == (viewport_w as int) / spec_pitch(tile_w, margin),
{
    (viewport_w as u64) / (tile_w as u64 + margin as u64)
}

/// Largest number of rows of `tile_h`-tall tiles, separated by `margin`,
/// that fit down a viewport `viewport_h` tall.
pub fn max_rows(viewport_h: u32, tile_h: u32, margin: u32) -> (m: u64)
    requires
        tile_h >= 1,
    ensures
        m == (viewport_h as int) / spec_pitch(tile_h, margin),
{
    (viewport_h as u64) / (tile_h as u64 + margin as u64)
}

/// Hue for the tile spawned at `(row, col)`, in millidegrees.
pub fn hue_millidegrees(row: u32, col: u32, rows: u32, cols: u32) -> (h: u64)
    requires
        row < rows,
        col < cols,
    ensures
        h == spec_hue_milli(row, col, rows, cols),
        h < 720000,
{
    let num: u64 = 720000u64 * (row as u64 + col as u64);
    proof {
        assert((rows as int) * (cols as int) <= 0xffff_ffff * 0xffff_ffff) by (nonlinear_arith)
            requires
                rows as int <= 0xffff_ffff,
                cols as int <= 0xffff_ffff,
        ;
        assert((row as int) + (col as int) < (rows as int) * (cols as int)) by (nonlinear_arith)
            requires
                row < rows,
                col < cols,
        ;
    }
    let den: u64 = (rows as u64) * (cols as u64);
    let h = num / den;
    proof {
        lemma_div_below(num as int, den as int, 720000);
    }
    h
}

/// If `x < n * d` with `d >= 1` and `x >= 0`, then `x / d < n`.
pub(crate) proof fn lemma_div_below(x: int, d: int, n: int)
    requires
        0 <= x,
        1 <= d,
        x < n * d,
    ensures
        x / d < n,
{
    assert(x / d < n) by (nonlinear_arith)
        requires
            0 <= x,
            1 <= d,
            x < n * d,
    ;
}

/// Law: the layout is symmetric about the board center. Swapping `col` for
/// `cols - 1 - col` negates the cell center's x, and swapping `row` for
/// `rows - 1 - row` negates its y.
pub proof fn lemma_center_symmetry(
    row: u32,
    col: u32,
    rows: u32,
    cols: u32,
    tile_w: u32,
    tile_h: u32,
    margin: u32,
)
    requires
        row < rows,
        col < cols,
    ensures
        spec_center_x((cols - 1 - col) as u32, cols, tile_w, margin) == -spec_center_x(
            col,
            cols,
            tile_w,
            margin,
        ),
        spec_center_y((rows - 1 - row) as u32, rows, tile_h, margin) == -spec_center_y(
            row,
            rows,
            tile_h,
            margin,
        ),
{
    let px = spec_pitch(tile_w, margin);
    let py = spec_pitch(tile_h, margin);
    let ax = 2 * (col as int) - (cols as int - 1);
    let ay = (rows as int - 1) - 2 * (row as int);
    assert(2 * ((cols - 1 - col) as u32 as int) - (cols as int - 1) == -ax);
    assert((rows as int - 1) - 2 * ((rows - 1 - row) as u32 as int) == -ay);
    assert((-ax) * px == -(ax * px)) by (nonlinear_arith);
    assert((-ay) * py == -(ay * py)) by (nonlinear_arith);
}

} // verus!
