use tile_core::body::Body;
use tile_core::object::{EnemyType, LevelObjects, Object, ObjectListing, ObjectType};
use tile_core::tiles::{cycle_rule_slot, CollisionMatrix};
use tile_core::{TILE_COLLISION_SECTIONS, TILE_PORTION, TILE_SIZE};

#[test]
fn listing_range_check_is_half_open() {
    let listing = ObjectListing { row: 3, col: 5, kind: ObjectType::Enemy(EnemyType::PurpleBlob) };
    assert!(listing.is_in_range(&(3..4), &(5..6)));
    assert!(listing.is_in_range(&(0..10), &(0..10)));
    assert!(!listing.is_in_range(&(0..3), &(0..10)));
    assert!(!listing.is_in_range(&(4..10), &(0..10)));
    assert!(!listing.is_in_range(&(0..10), &(0..5)));
    assert!(!listing.is_in_range(&(0..10), &(6..10)));
}

#[test]
fn resolve_spawns_at_the_cell_center() {
    let listing = ObjectListing { row: 1, col: 2, kind: ObjectType::Enemy(EnemyType::SeaGoblin) };
    let Object::Enemy(enemy) = listing.resolve();
    assert!(matches!(enemy.kind, EnemyType::SeaGoblin));
    // Cell center minus half the one-tile extent: the hitbox sits exactly
    // on the cell.
    assert_eq!(enemy.body.hitbox.x, 2 * TILE_SIZE);
    assert_eq!(enemy.body.hitbox.y, TILE_SIZE);
    assert_eq!(enemy.body.hitbox.w, TILE_SIZE);
    assert_eq!(enemy.body.hitbox.h, TILE_SIZE);
}

#[test]
fn level_objects_append_in_order() {
    let mut objects = LevelObjects::new();
    assert_eq!(objects.lst.len(), 0);
    objects.add_listing(&ObjectListing {
        row: 0,
        col: 0,
        kind: ObjectType::Enemy(EnemyType::CopperOrb),
    });
    objects.add_listing(&ObjectListing {
        row: 0,
        col: 1,
        kind: ObjectType::Enemy(EnemyType::DeceptiveFlower),
    });
    assert_eq!(objects.lst.len(), 2);
    let Object::Enemy(first) = &objects.lst[0];
    let Object::Enemy(second) = &objects.lst[1];
    assert!(matches!(first.kind, EnemyType::CopperOrb));
    assert!(matches!(second.kind, EnemyType::DeceptiveFlower));
}

#[test]
fn body_new_rounds_odd_extents_down() {
    let b = Body::new(0, 0, 15, 15);
    assert_eq!(b.hitbox.x, -7);
    assert_eq!(b.hitbox.y, -7);
}

#[test]
fn portion_size_derives_from_the_section_count() {
    assert_eq!(TILE_PORTION * TILE_COLLISION_SECTIONS, TILE_SIZE);
}

#[test]
fn collision_matrix_toggle_flips_one_cell() {
    let mut m = CollisionMatrix::new();
    m.toggle(1, 2);
    for r in 0..3 {
        for c in 0..3 {
            assert_eq!(m.matrix[r][c], !(r == 1 && c == 2));
        }
    }
    m.toggle(1, 2);
    assert!(m.matrix[1][2]);
}

#[test]
fn rule_slot_cycle_returns_after_three_steps() {
    let mut slot = Some(true);
    for _ in 0..3 {
        slot = cycle_rule_slot(slot);
    }
    assert_eq!(slot, Some(true));
}
