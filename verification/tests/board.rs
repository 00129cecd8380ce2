use lift_shift::board::{Axis, Board, DimensionError};

const TILE: u32 = 1000;
const MARGIN: u32 = 100;
const VIEW_W: u32 = 4716;
const VIEW_H: u32 = 10224;

#[test]
fn scenario_board_fits() {
    // 3x3 tiles of 100x100 pixels with a 10 pixel margin fit a
    // 471.6 x 1022.4 pixel viewport (4 columns and 9 rows would fit).
    let b = Board::new(3, 3, TILE, TILE, MARGIN, VIEW_W, VIEW_H).unwrap();
    assert_eq!(b.rows, 3);
    assert_eq!(b.cols, 3);
    assert_eq!(b.tile_w, TILE);
    assert_eq!(b.tile_h, TILE);
    assert_eq!(b.margin, MARGIN);
}

#[test]
fn largest_fitting_board_is_accepted() {
    assert!(Board::new(9, 4, TILE, TILE, MARGIN, VIEW_W, VIEW_H).is_ok());
}

#[test]
fn too_many_rows_is_refused_citing_rows() {
    let e = Board::new(10, 3, TILE, TILE, MARGIN, VIEW_W, VIEW_H).unwrap_err();
    assert_eq!(
        e,
        DimensionError { axis: Axis::Rows, requested: 10, max: 9 }
    );
}

#[test]
fn too_many_cols_is_refused_citing_cols() {
    let e = Board::new(3, 5, TILE, TILE, MARGIN, VIEW_W, VIEW_H).unwrap_err();
    assert_eq!(
        e,
        DimensionError { axis: Axis::Cols, requested: 5, max: 4 }
    );
}

#[test]
fn rows_are_checked_before_cols() {
    let e = Board::new(10, 5, TILE, TILE, MARGIN, VIEW_W, VIEW_H).unwrap_err();
    assert_eq!(e.axis, Axis::Rows);
}

#[test]
fn coords_enumerates_row_major() {
    let b = Board::new(2, 3, TILE, TILE, MARGIN, VIEW_W, VIEW_H).unwrap();
    let cs = b.coords();
    assert_eq!(
        cs,
        vec![(0, 0), (0, 1), (0, 2), (1, 0), (1, 1), (1, 2)]
    );
}

#[test]
fn coords_are_unique_and_counted() {
    let b = Board::new(3, 3, TILE, TILE, MARGIN, VIEW_W, VIEW_H).unwrap();
    let cs = b.coords();
    assert_eq!(cs.len(), 9);
    for i in 0..cs.len() {
        for j in (i + 1)..cs.len() {
            assert_ne!(cs[i], cs[j]);
        }
    }
}
