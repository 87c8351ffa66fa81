use tile_core::body::Body;
use tile_core::level::{Level, TilePointer, SMALL};
use tile_core::tiles::{CollisionMatrix, TileAsset, TileLayer};
use tile_core::tileset::{TilesetAsset, TilesetRegistry};
use tile_core::TILE_SIZE;

fn solid_tile() -> TileAsset {
    TileAsset {
        x: 0,
        y: 0,
        auto_rule: None,
        layer: TileLayer::Object,
        group: None,
        collision_matrix: Some(CollisionMatrix::new()),
    }
}

fn empty_grid(rows: usize, cols: usize) -> Vec<Vec<Option<TilePointer>>> {
    vec![vec![None; cols]; rows]
}

/// A 4x4 level with solid object tiles at the given cells.
fn level_with_solids(cells: &[(usize, usize)]) -> Level {
    let mut registry = TilesetRegistry::new();
    registry.insert(String::from("t"), TilesetAsset::new(vec![solid_tile()]));
    let mut object = empty_grid(4, 4);
    for &(r, c) in cells {
        object[r][c] = Some(TilePointer(String::from("t"), 0));
    }
    Level::new(4, 4, empty_grid(4, 4), object, empty_grid(4, 4), registry).unwrap()
}

/// A one-tile box (16 pixels square at 3 units per pixel).
fn box_at(x: i64, y: i64) -> Body {
    Body { hitbox: tile_core::body::Hitbox { x, y, w: TILE_SIZE, h: TILE_SIZE } }
}

#[test]
fn new_centers_the_hitbox() {
    let b = Body::new(100, 60, 30, 20);
    assert_eq!(b.hitbox.x, 85);
    assert_eq!(b.hitbox.y, 50);
    assert_eq!(b.hitbox.w, 30);
    assert_eq!(b.hitbox.h, 20);
}

#[test]
fn moving_right_stops_flush_at_a_solid_boundary() {
    // A 16x16-pixel box moving right at 60 pixels/second for one frame
    // (one pixel is 3 coordinate units, so the delta is 3 units) would
    // cross the left boundary of the solid tile in column 2. It stops
    // with its right edge flush at that boundary (modulo the bias), and
    // y is untouched since only the x component is nonzero.
    let level = level_with_solids(&[(0, 2), (1, 2), (2, 2), (3, 2)]);
    let boundary = 2 * TILE_SIZE;
    let mut b = box_at(boundary - TILE_SIZE - 2, 0);
    b.move_by(3, 0, &level);
    assert_eq!(b.hitbox.x + b.hitbox.w, boundary - SMALL);
    assert_eq!(b.hitbox.y, 0);
}

#[test]
fn moving_left_clamps_to_the_sub_cell_right_edge() {
    let level = level_with_solids(&[(0, 0), (1, 0), (2, 0), (3, 0)]);
    let mut b = box_at(TILE_SIZE + 2, 0);
    b.move_by(-5, 0, &level);
    // The solid tile spans column 0; its rightmost sub-cell's right edge
    // is the tile's right boundary.
    assert_eq!(b.hitbox.x, TILE_SIZE);
    assert_eq!(b.hitbox.y, 0);
}

#[test]
fn unobstructed_motion_applies_the_full_delta() {
    let level = level_with_solids(&[]);
    let mut b = box_at(10, 20);
    b.move_by(7, -9, &level);
    assert_eq!(b.hitbox.x, 17);
    assert_eq!(b.hitbox.y, 11);
}

#[test]
fn zero_velocity_leaves_the_box_in_solid_ground_untouched() {
    // Even standing inside solid geometry, a zero delta runs no sweep.
    let level = level_with_solids(&[(0, 0)]);
    let mut b = box_at(2, 2);
    b.move_by(0, 0, &level);
    assert_eq!(b.hitbox.x, 2);
    assert_eq!(b.hitbox.y, 2);
}

#[test]
fn diagonal_motion_into_a_corner_slides_along_the_open_axis() {
    // Solid wall in column 2, open floor below: moving diagonally
    // down-right, the box is clamped in x but keeps its full downward
    // motion instead of stopping dead.
    let level = level_with_solids(&[(0, 2)]);
    let boundary = 2 * TILE_SIZE;
    let mut b = box_at(boundary - TILE_SIZE - 2, 0);
    b.move_by(3, 3, &level);
    assert_eq!(b.hitbox.x + b.hitbox.w, boundary - SMALL);
    assert_eq!(b.hitbox.y, 3);
}

#[test]
fn moving_down_clamps_to_the_sub_cell_top_edge() {
    let level = level_with_solids(&[(2, 0), (2, 1)]);
    let floor = 2 * TILE_SIZE;
    let mut b = box_at(0, floor - TILE_SIZE - 1);
    b.move_by(0, 10, &level);
    assert_eq!(b.hitbox.y + b.hitbox.h, floor - SMALL);
    assert_eq!(b.hitbox.x, 0);
}

#[test]
fn moving_up_clamps_to_the_sub_cell_bottom_edge() {
    let level = level_with_solids(&[(0, 0), (0, 1)]);
    let ceiling = TILE_SIZE;
    let mut b = box_at(0, ceiling + 2);
    b.move_by(0, -6, &level);
    assert_eq!(b.hitbox.y, ceiling);
    assert_eq!(b.hitbox.x, 0);
}
