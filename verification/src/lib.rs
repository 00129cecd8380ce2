//! Core of a 2D grid puzzle board: layout geometry, the board/cell model,
//! the tile registry with spatial hit-testing, the pointer-selection
//! pipeline, and the keyboard shift controller.
//!
//! All lengths (tile extents, margins, viewport extents) are unsigned
//! integers in one world unit of the caller's choice. Screen-space positions
//! are signed integers in *half-units* (twice the world coordinate), so that
//! the center of every cell of the origin-centered grid is exact.

pub mod board;
pub mod geometry;
pub mod registry;
pub mod selection;
pub mod shift;
