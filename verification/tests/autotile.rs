use tile_core::level::{Level, TilePointer};
use tile_core::tiles::{cycle_rule_slot, TileAsset, TileAutoRule, TileLayer};
use tile_core::tileset::{TilesetAsset, TilesetRegistry};

fn rule(slots: [Option<bool>; 8]) -> TileAutoRule {
    TileAutoRule {
        top_left: slots[0],
        top: slots[1],
        top_right: slots[2],
        right: slots[3],
        bottom_right: slots[4],
        bottom: slots[5],
        bottom_left: slots[6],
        left: slots[7],
    }
}

fn tile(group: Option<u8>, auto_rule: Option<TileAutoRule>, layer: TileLayer) -> TileAsset {
    TileAsset { x: 0, y: 0, auto_rule, layer, group, collision_matrix: None }
}

fn empty_grid(rows: usize, cols: usize) -> Vec<Vec<Option<TilePointer>>> {
    vec![vec![None; cols]; rows]
}

fn demo_level() -> Level {
    // Tile 0 matches fully empty surroundings, tile 1 is all wildcards,
    // tile 2 wants a same-group neighbor to its east.
    let tiles = vec![
        tile(Some(1), Some(TileAutoRule::from_array([false; 8])), TileLayer::Background),
        tile(Some(1), Some(rule([None; 8])), TileLayer::Background),
        tile(Some(1), Some(rule([None, None, None, Some(true), None, None, None, None])), TileLayer::Background),
    ];
    let mut registry = TilesetRegistry::new();
    registry.insert(String::from("main"), TilesetAsset::new(tiles));
    Level::new(10, 10, empty_grid(10, 10), empty_grid(10, 10), empty_grid(10, 10), registry)
        .unwrap()
}

fn background_cell(level: &Level, row: usize, col: usize) -> Option<(String, usize)> {
    level.get_layer(&TileLayer::Background)[row][col]
        .as_ref()
        .map(|p| (p.0.clone(), p.1))
}

#[test]
fn from_array_fills_all_slots_in_compass_order() {
    let r = TileAutoRule::from_array([true, false, true, false, true, false, true, false]);
    assert_eq!(r.top_left, Some(true));
    assert_eq!(r.top, Some(false));
    assert_eq!(r.top_right, Some(true));
    assert_eq!(r.right, Some(false));
    assert_eq!(r.bottom_right, Some(true));
    assert_eq!(r.bottom, Some(false));
    assert_eq!(r.bottom_left, Some(true));
    assert_eq!(r.left, Some(false));
}

#[test]
fn cmp_counts_agreeing_concrete_slots() {
    let candidate = rule([Some(true), Some(false), None, None, None, None, None, None]);
    let signature = TileAutoRule::from_array([true, false, true, true, true, true, true, true]);
    assert_eq!(candidate.cmp(&signature), Some(2));
}

#[test]
fn cmp_wildcards_score_zero_but_never_disqualify() {
    let candidate = rule([None; 8]);
    let signature = TileAutoRule::from_array([true; 8]);
    assert_eq!(candidate.cmp(&signature), Some(0));
}

#[test]
fn cmp_disqualifies_on_any_concrete_mismatch() {
    // Seven agreeing slots cannot rescue one concrete disagreement.
    let candidate = rule([
        Some(true),
        Some(true),
        Some(true),
        Some(false),
        Some(true),
        Some(true),
        Some(true),
        Some(true),
    ]);
    let signature = TileAutoRule::from_array([true; 8]);
    assert_eq!(candidate.cmp(&signature), None);
}

#[test]
fn signature_of_empty_surroundings_is_all_false() {
    let level = demo_level();
    let sig = level.get_auto_tile_for_index(5, 5, &TileLayer::Background, Some(1));
    assert_eq!(sig, TileAutoRule::from_array([false; 8]));
}

#[test]
fn resolution_is_deterministic_across_repeated_runs() {
    let level = demo_level();
    let subject = tile(
        Some(1),
        Some(TileAutoRule::from_array([false; 8])),
        TileLayer::Background,
    );
    let id = String::from("main");
    let first = level.find_best_tile_for_index(5, 5, &subject, &id);
    let second = level.find_best_tile_for_index(5, 5, &subject, &id);
    assert_eq!(first.as_ref().map(|p| p.1), Some(0));
    assert_eq!(first.map(|p| (p.0, p.1)), second.map(|p| (p.0, p.1)));
}

#[test]
fn tie_goes_to_the_last_enumerated_candidate() {
    // Two all-wildcard candidates tie at score zero: the later one wins.
    let tiles = vec![
        tile(Some(1), Some(rule([None; 8])), TileLayer::Background),
        tile(Some(1), Some(rule([None; 8])), TileLayer::Background),
    ];
    let mut registry = TilesetRegistry::new();
    registry.insert(String::from("main"), TilesetAsset::new(tiles));
    let level = Level::new(
        3,
        3,
        empty_grid(3, 3),
        empty_grid(3, 3),
        empty_grid(3, 3),
        registry,
    )
    .unwrap();
    let subject = tile(Some(1), Some(rule([None; 8])), TileLayer::Background);
    let best = level.find_best_tile_for_index(1, 1, &subject, &String::from("main"));
    assert_eq!(best.map(|p| p.1), Some(1));
}

#[test]
fn mismatched_candidate_is_never_selected() {
    // The all-false candidate would score 8 against empty surroundings,
    // but a single concrete mismatch (east wants a neighbor) disqualifies
    // candidate 2 whatever its other slots say.
    let level = demo_level();
    let subject = tile(Some(1), Some(rule([None; 8])), TileLayer::Background);
    let best = level.find_best_tile_for_index(5, 5, &subject, &String::from("main"));
    assert_eq!(best.map(|p| p.1), Some(0));
}

#[test]
fn cycle_rule_slot_walks_solid_empty_wildcard() {
    assert_eq!(cycle_rule_slot(Some(true)), Some(false));
    assert_eq!(cycle_rule_slot(Some(false)), None);
    assert_eq!(cycle_rule_slot(None), Some(true));
}

#[test]
fn placing_and_propagating_rescored_both_cells() {
    // End to end: a 10x10 level with all-empty layers. Placing a grouped,
    // rule-bearing tile at (5,5) resolves to the candidate that scores
    // highest against an all-"empty" signature; placing a second tile of
    // the same group at (5,6) and propagating re-scores (5,5).
    let mut level = demo_level();
    level.place_tile(5, 5, Some(TilePointer(String::from("main"), 0)), true);
    assert_eq!(background_cell(&level, 5, 5), Some((String::from("main"), 0)));

    level.place_tile(5, 6, Some(TilePointer(String::from("main"), 0)), true);
    // (5,6) saw a same-group neighbor to its west: the all-false candidate
    // is disqualified there, the all-wildcard candidate wins.
    assert_eq!(background_cell(&level, 5, 6), Some((String::from("main"), 1)));
    // (5,5) was re-scored with a same-group neighbor to its east: the
    // east-wanting candidate now outscores the wildcards.
    assert_eq!(background_cell(&level, 5, 5), Some((String::from("main"), 2)));
}
