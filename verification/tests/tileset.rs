use tile_core::level::{Level, TilePointer};
use tile_core::tiles::{TileAsset, TileLayer};
use tile_core::tileset::{TileImage, TilesetAsset, TilesetRegistry};
use tile_core::TILE_PIXELS;

fn tile_at(x: u32, y: u32) -> TileAsset {
    TileAsset { x, y, auto_rule: None, layer: TileLayer::Background, group: None, collision_matrix: None }
}

fn object_tile_at(x: u32, y: u32) -> TileAsset {
    TileAsset { x, y, auto_rule: None, layer: TileLayer::Object, group: None, collision_matrix: None }
}

/// An image of w x h pixels whose alpha channel is given per tile section:
/// `opaque[r][c]` paints the whole 16x16 section opaque.
fn image(width: usize, height: usize, opaque: &[(usize, usize)]) -> TileImage {
    let mut bytes = vec![0u8; width * height * 4];
    let t = TILE_PIXELS as usize;
    for &(r, c) in opaque {
        for y in r * t..(r + 1) * t {
            for x in c * t..(c + 1) * t {
                bytes[(y * width + x) * 4 + 3] = 255;
            }
        }
    }
    TileImage { bytes, width, height }
}

#[test]
fn registry_insert_and_get_round_trip() {
    let mut registry = TilesetRegistry::new();
    registry.insert(String::from("a"), TilesetAsset::new(vec![tile_at(0, 0)]));
    registry.insert(String::from("b"), TilesetAsset::new(vec![tile_at(0, 0), tile_at(16, 0)]));
    assert_eq!(registry.get(&String::from("a")).unwrap().tiles.len(), 1);
    assert_eq!(registry.get(&String::from("b")).unwrap().tiles.len(), 2);
    assert!(registry.get(&String::from("c")).is_none());
}

#[test]
fn registry_insert_replaces_an_existing_identifier() {
    let mut registry = TilesetRegistry::new();
    registry.insert(String::from("a"), TilesetAsset::new(vec![tile_at(0, 0)]));
    registry.insert(String::from("a"), TilesetAsset::new(vec![tile_at(0, 0), tile_at(16, 0)]));
    assert_eq!(registry.entries.len(), 1);
    assert_eq!(registry.get(&String::from("a")).unwrap().tiles.len(), 2);
}

#[test]
fn get_tile_at_pos_returns_the_last_match() {
    let ts = TilesetAsset::new(vec![tile_at(16, 0), tile_at(0, 0), tile_at(16, 0)]);
    assert_eq!(ts.get_tile_at_pos(16, 0), Some(2));
    assert_eq!(ts.get_tile_at_pos(0, 0), Some(1));
    assert_eq!(ts.get_tile_at_pos(32, 0), None);
}

#[test]
fn section_transparency_reads_the_alpha_channel() {
    let ts = TilesetAsset::new(vec![]);
    let img = image(32, 16, &[(0, 1)]);
    assert!(ts.is_section_transparent(&img, 0, 16, 0, 16));
    assert!(!ts.is_section_transparent(&img, 0, 16, 16, 32));
}

#[test]
fn cut_claims_opaque_unclaimed_sections() {
    // Two tile sections: the left one opaque and unclaimed, the right
    // transparent. The cutter appends exactly one object tile for the
    // left section, with a fully solid collision matrix.
    let mut ts = TilesetAsset::new(vec![]);
    let img = image(32, 16, &[(0, 0)]);
    ts.cut(&img);
    assert_eq!(ts.tiles.len(), 1);
    let t = &ts.tiles[0];
    assert_eq!((t.x, t.y), (0, 0));
    assert!(matches!(t.layer, TileLayer::Object));
    assert!(t.group.is_none());
    assert!(t.auto_rule.is_none());
    let m = t.collision_matrix.as_ref().unwrap();
    assert!(m.matrix.iter().all(|row| row.iter().all(|&b| b)));
}

#[test]
fn cut_gives_claimed_object_tiles_a_collision_matrix() {
    let mut ts = TilesetAsset::new(vec![object_tile_at(0, 0), tile_at(16, 0)]);
    let img = image(32, 16, &[]);
    ts.cut(&img);
    // The object tile at (0,0) gained a matrix; the background tile at
    // (16,0) was left alone; nothing was appended for transparent space.
    assert_eq!(ts.tiles.len(), 2);
    assert!(ts.tiles[0].collision_matrix.is_some());
    assert!(ts.tiles[1].collision_matrix.is_none());
}

#[test]
fn cut_through_the_level_keeps_pointers_valid() {
    let mut registry = TilesetRegistry::new();
    registry.insert(String::from("t"), TilesetAsset::new(vec![object_tile_at(0, 0)]));
    let mut object = vec![vec![None; 2]; 2];
    object[0][0] = Some(TilePointer(String::from("t"), 0));
    let mut level = Level::new(
        2,
        2,
        vec![vec![None; 2]; 2],
        object,
        vec![vec![None; 2]; 2],
        registry,
    )
    .unwrap();
    let img = image(32, 16, &[(0, 1)]);
    level.cut_tileset(&String::from("t"), &img);
    let ts = level.tilesets.get(&String::from("t")).unwrap();
    assert_eq!(ts.tiles.len(), 2);
    assert!(ts.tiles[0].collision_matrix.is_some());
    assert_eq!((ts.tiles[1].x, ts.tiles[1].y), (16, 0));
}
