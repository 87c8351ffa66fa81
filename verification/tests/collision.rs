use tile_core::level::{Level, TileHitInfo, TilePointer};
use tile_core::tiles::{CollisionMatrix, TileAsset, TileLayer};
use tile_core::tileset::{TilesetAsset, TilesetRegistry};
use tile_core::{TILE_PORTION, TILE_SIZE};

fn object_tile(matrix: Option<CollisionMatrix>) -> TileAsset {
    TileAsset {
        x: 0,
        y: 0,
        auto_rule: None,
        layer: TileLayer::Object,
        group: None,
        collision_matrix: matrix,
    }
}

fn empty_grid(rows: usize, cols: usize) -> Vec<Vec<Option<TilePointer>>> {
    vec![vec![None; cols]; rows]
}

/// A 4x4 level whose object layer holds tile 0 (solid) at (0,0) and
/// tile 1 (no collision matrix) at (2,2).
fn probe_level() -> Level {
    let tiles = vec![object_tile(Some(CollisionMatrix::new())), object_tile(None)];
    let mut registry = TilesetRegistry::new();
    registry.insert(String::from("t"), TilesetAsset::new(tiles));
    let mut object = empty_grid(4, 4);
    object[0][0] = Some(TilePointer(String::from("t"), 0));
    object[2][2] = Some(TilePointer(String::from("t"), 1));
    Level::new(4, 4, empty_grid(4, 4), object, empty_grid(4, 4), registry).unwrap()
}

#[test]
fn probe_misses_on_empty_cells() {
    let level = probe_level();
    assert_eq!(level.check_for_collision(TILE_SIZE + 1, TILE_SIZE + 1), None);
}

#[test]
fn probe_misses_on_tiles_without_collision_matrix() {
    let level = probe_level();
    let mid = 2 * TILE_SIZE + TILE_SIZE / 2;
    assert_eq!(level.check_for_collision(mid, mid), None);
}

#[test]
fn probe_misses_outside_the_grid() {
    let level = probe_level();
    assert_eq!(level.check_for_collision(-1, 5), None);
    assert_eq!(level.check_for_collision(5, -1), None);
    assert_eq!(level.check_for_collision(4 * TILE_SIZE + 1, 5), None);
    assert_eq!(level.check_for_collision(5, 4 * TILE_SIZE + 1), None);
}

#[test]
fn low_local_fraction_maps_to_sub_cell_zero_zero() {
    // A point about a tenth of the way into a solid tile.
    let level = probe_level();
    let p = TILE_SIZE / 10;
    assert_eq!(
        level.check_for_collision(p, p),
        Some(TileHitInfo { row: 0, col: 0, sub_row: 0, sub_col: 0 })
    );
}

#[test]
fn high_local_fraction_maps_to_sub_cell_two_two() {
    // A point about nine tenths of the way into a solid tile.
    let level = probe_level();
    let p = 9 * TILE_SIZE / 10;
    assert_eq!(
        level.check_for_collision(p, p),
        Some(TileHitInfo { row: 0, col: 0, sub_row: 2, sub_col: 2 })
    );
}

#[test]
fn probe_honors_individual_sub_cells() {
    // Only the center sub-cell of the matrix is solid.
    let mut matrix = CollisionMatrix { matrix: [[false; 3]; 3] };
    matrix.matrix[1][1] = true;
    let tiles = vec![object_tile(Some(matrix))];
    let mut registry = TilesetRegistry::new();
    registry.insert(String::from("t"), TilesetAsset::new(tiles));
    let mut object = empty_grid(1, 1);
    object[0][0] = Some(TilePointer(String::from("t"), 0));
    let level =
        Level::new(1, 1, empty_grid(1, 1), object, empty_grid(1, 1), registry).unwrap();
    let center = TILE_SIZE / 2;
    assert_eq!(
        level.check_for_collision(center, center),
        Some(TileHitInfo { row: 0, col: 0, sub_row: 1, sub_col: 1 })
    );
    assert_eq!(level.check_for_collision(1, 1), None);
    assert_eq!(level.check_for_collision(TILE_SIZE - 1, 1), None);
}

#[test]
fn hit_boundaries_derive_from_tile_and_sub_cell() {
    let hit = TileHitInfo { row: 2, col: 3, sub_row: 1, sub_col: 2 };
    assert_eq!(hit.from_left(), 3 * TILE_SIZE + 2 * TILE_PORTION - 1);
    assert_eq!(hit.from_right(), 3 * TILE_SIZE + 2 * TILE_PORTION + TILE_PORTION);
    assert_eq!(hit.from_top(), 2 * TILE_SIZE + TILE_PORTION - 1);
    assert_eq!(hit.from_bottom(), 2 * TILE_SIZE + TILE_PORTION + TILE_PORTION);
}

#[test]
fn probe_on_a_tile_boundary_belongs_to_the_next_cell() {
    // x == TILE_SIZE is the first coordinate of column 1, which is empty.
    let level = probe_level();
    assert_eq!(level.check_for_collision(TILE_SIZE, 0), None);
    assert_eq!(level.check_for_collision(TILE_SIZE - 1, 0).map(|h| h.col), Some(0));
}
