//! Properties of the auto-tile resolver, the collision probe, the
//! propagation ripple and the mover, stated and proved over the same
//! specifications the executable contracts use.

use vstd::prelude::*;

use crate::body::{first_hit_y, moved_x, moved_y, Hitbox};
use crate::level::{
    candidate_qualifies, candidate_score, lemma_scan_best_props, spec_best_index, LevelModel,
    TilePointer,
};
use crate::tiles::{TileAsset, TileAutoRule, TileLayer};
use crate::TILE_SIZE;

verus! {

/// Auto-tile scoring is deterministic: an identical neighbor signature
/// held against an identical candidate list always yields the identical
/// chosen index.
pub proof fn lemma_auto_tile_deterministic(
    tiles1: Seq<TileAsset>,
    tiles2: Seq<TileAsset>,
    group: Option<u8>,
    sig1: TileAutoRule,
    sig2: TileAutoRule,
)
    requires
        tiles1 == tiles2,
        sig1 == sig2,
    ensures
        spec_best_index(tiles1, group, sig1) == spec_best_index(tiles2, group, sig2),
{
}

/// A candidate with any concrete-slot mismatch against the signature is
/// never selected, regardless of how many of its other slots match.
pub proof fn lemma_mismatch_never_selected(
    tiles: Seq<TileAsset>,
    group: Option<u8>,
    sig: TileAutoRule,
    i: int,
)
    requires
        0 <= i < tiles.len(),
        tiles[i].auto_rule matches Some(rule) && !rule.compatible(sig),
    ensures
        spec_best_index(tiles, group, sig) != Some(i),
{
    lemma_scan_best_props(tiles, group, sig, tiles.len() as int);
}

/// The selection rule in full: the chosen candidate qualifies, no
/// qualifying candidate outscores it, and any qualifying candidate that
/// ties with it comes no later in definition order; when no candidate
/// qualifies, nothing is chosen.
pub proof fn lemma_best_candidate_selection(
    tiles: Seq<TileAsset>,
    group: Option<u8>,
    sig: TileAutoRule,
)
    ensures
        ({
            match spec_best_index(tiles, group, sig) {
                Some(i) => {
                    &&& 0 <= i < tiles.len()
                    &&& candidate_qualifies(tiles[i], group, sig)
                    &&& forall|j: int|
                        0 <= j < tiles.len() && candidate_qualifies(
                            #[trigger] tiles[j],
                            group,
                            sig,
                        ) ==> candidate_score(tiles[j], sig) <= candidate_score(tiles[i], sig)
                    &&& forall|j: int|
                        i < j < tiles.len() && candidate_qualifies(
                            #[trigger] tiles[j],
                            group,
                            sig,
                        ) ==> candidate_score(tiles[j], sig) < candidate_score(tiles[i], sig)
                },
                None => forall|j: int|
                    0 <= j < tiles.len() ==> !candidate_qualifies(#[trigger] tiles[j], group, sig),
            }
        }),
{
    lemma_scan_best_props(tiles, group, sig, tiles.len() as int);
}

/// The collision probe reports no hit for a point whose object-layer cell
/// is empty or whose tile carries no collision matrix (and likewise for a
/// point outside the grid).
pub proof fn lemma_probe_misses_without_solid(m: LevelModel, x: int, y: int)
    requires
        ({
            let row = y / (TILE_SIZE as int);
            let col = x / (TILE_SIZE as int);
            0 <= row < m.rows && 0 <= col < m.cols ==> (match m.cell(TileLayer::Object, row, col) {
                None => true,
                Some(p) => m.tile_at(p).collision_matrix is None,
            })
        }),
    ensures
        m.probe(x, y) is None,
{
}

/// Is (r, c) one of the 8 immediate neighbors of (row, col)?
pub open spec fn in_ripple_ring(row: int, col: int, r: int, c: int) -> bool {
    &&& !(r == row && c == col)
    &&& row - 1 <= r <= row + 1
    &&& col - 1 <= c <= col + 1
}

/// Replacing one cell leaves every other cell, and every cell of another
/// layer, untouched; the extents never change.
proof fn lemma_with_cell_frame(
    m: LevelModel,
    sr: int,
    sc: int,
    layer: TileLayer,
    v: Option<TilePointer>,
    l2: TileLayer,
    r: int,
    c: int,
)
    requires
        m.dims_ok(),
        0 <= r < m.rows,
        0 <= c < m.cols,
        0 <= sr < m.rows,
        0 <= sc < m.cols,
        l2 != layer || !(sr == r && sc == c),
    ensures
        m.with_cell(layer, sr, sc, v).cell(l2, r, c) == m.cell(l2, r, c),
        m.with_cell(layer, sr, sc, v).dims_ok(),
        m.with_cell(layer, sr, sc, v).rows == m.rows,
        m.with_cell(layer, sr, sc, v).cols == m.cols,
{
    let m1 = m.with_cell(layer, sr, sc, v);
    let g0 = m.layer(layer);
    let g1 = m1.layer(layer);
    assert(g1 == g0.update(sr, g0[sr].update(sc, v)));
    assert forall|i: int| 0 <= i < m.rows implies (#[trigger] g1[i]).len() == m.cols by {
        assert(g0[i].len() == m.cols);
    }
    match layer {
        TileLayer::Background => {},
        TileLayer::Object => {},
        TileLayer::Overlay => {},
    }
    if l2 == layer {
        if sr != r {
            assert(g1[r] == g0[r]);
        } else {
            assert(g1[r] == g0[r].update(sc, v));
            assert(g1[r][c] == g0[r][c]);
        }
    }
}

/// One propagation step leaves every cell other than its own target, and
/// every cell of another layer, untouched; the extents never change.
proof fn lemma_ripple_step_frame(
    m: LevelModel,
    sr: int,
    sc: int,
    layer: TileLayer,
    l2: TileLayer,
    r: int,
    c: int,
)
    requires
        m.dims_ok(),
        0 <= r < m.rows,
        0 <= c < m.cols,
        l2 != layer || !(sr == r && sc == c),
    ensures
        m.ripple_step(sr, sc, layer).cell(l2, r, c) == m.cell(l2, r, c),
        m.ripple_step(sr, sc, layer).dims_ok(),
        m.ripple_step(sr, sc, layer).rows == m.rows,
        m.ripple_step(sr, sc, layer).cols == m.cols,
{
    if 0 <= sr < m.rows && 0 <= sc < m.cols {
        lemma_with_cell_frame(m, sr, sc, layer, m.resolved_cell(sr, sc, layer), l2, r, c);
    }
}

/// Placement propagation is bounded to one ring by construction: the
/// ripple around (row, col) re-resolves only the 8 immediate neighbors in
/// its own layer. The edited cell itself, every cell of a second ring or
/// farther, and every cell of the other layers keep their exact contents.
pub proof fn lemma_ripple_touches_only_ring(
    m: LevelModel,
    row: int,
    col: int,
    layer: TileLayer,
    l2: TileLayer,
    r: int,
    c: int,
)
    requires
        m.dims_ok(),
        0 <= r < m.rows,
        0 <= c < m.cols,
        l2 != layer || !in_ripple_ring(row, col, r, c),
    ensures
        m.ripple(row, col, layer).cell(l2, r, c) == m.cell(l2, r, c),
{
    let m1 = m.ripple_step(row - 1, col - 1, layer);
    let m2 = m1.ripple_step(row - 1, col, layer);
    let m3 = m2.ripple_step(row - 1, col + 1, layer);
    let m4 = m3.ripple_step(row, col + 1, layer);
    let m5 = m4.ripple_step(row + 1, col + 1, layer);
    let m6 = m5.ripple_step(row + 1, col, layer);
    let m7 = m6.ripple_step(row + 1, col - 1, layer);
    lemma_ripple_step_frame(m, row - 1, col - 1, layer, l2, r, c);
    lemma_ripple_step_frame(m1, row - 1, col, layer, l2, r, c);
    lemma_ripple_step_frame(m2, row - 1, col + 1, layer, l2, r, c);
    lemma_ripple_step_frame(m3, row, col + 1, layer, l2, r, c);
    lemma_ripple_step_frame(m4, row + 1, col + 1, layer, l2, r, c);
    lemma_ripple_step_frame(m5, row + 1, col, layer, l2, r, c);
    lemma_ripple_step_frame(m6, row + 1, col - 1, layer, l2, r, c);
    lemma_ripple_step_frame(m7, row, col - 1, layer, l2, r, c);
}

/// A placement edit at (row, col) touches at most the edited cell and its
/// 8 immediate neighbors: every other cell of every layer keeps its exact
/// contents, whether the edit places, clears, or propagates.
pub proof fn lemma_place_touches_only_ring(
    m: LevelModel,
    row: int,
    col: int,
    ptr: Option<TilePointer>,
    propagate: bool,
    l2: TileLayer,
    r: int,
    c: int,
)
    requires
        m.dims_ok(),
        0 <= row < m.rows,
        0 <= col < m.cols,
        0 <= r < m.rows,
        0 <= c < m.cols,
        !(r == row && c == col),
        !in_ripple_ring(row, col, r, c),
    ensures
        m.placed(row, col, ptr, propagate).cell(l2, r, c) == m.cell(l2, r, c),
{
    match ptr {
        Some(p) => {
            let t = m.tile_at(p);
            let chosen = if propagate {
                match spec_best_index(
                    m.find(p.0@)->Some_0.tiles@,
                    t.group,
                    m.spec_signature(t.layer, row, col, t.group),
                ) {
                    Some(i) => TilePointer(p.0, i as usize),
                    None => p,
                }
            } else {
                p
            };
            let m1 = m.with_cell(t.layer, row, col, Some(chosen));
            lemma_with_cell_frame(m, row, col, t.layer, Some(chosen), l2, r, c);
            if propagate {
                lemma_ripple_touches_only_ring(m1, row, col, t.layer, l2, r, c);
            }
        },
        None => {
            let m1 = m.with_cell(TileLayer::Background, row, col, None);
            let m2 = m1.with_cell(TileLayer::Object, row, col, None);
            let m3 = m2.with_cell(TileLayer::Overlay, row, col, None);
            lemma_with_cell_frame(m, row, col, TileLayer::Background, None, l2, r, c);
            lemma_with_cell_frame(m1, row, col, TileLayer::Object, None, l2, r, c);
            lemma_with_cell_frame(m2, row, col, TileLayer::Overlay, None, l2, r, c);
            if propagate {
                let m4 = m3.ripple(row, col, TileLayer::Background);
                let m5 = m4.ripple(row, col, TileLayer::Object);
                lemma_ripple_touches_only_ring(m3, row, col, TileLayer::Background, l2, r, c);
                lemma_ripple_dims(m3, row, col, TileLayer::Background);
                lemma_ripple_touches_only_ring(m4, row, col, TileLayer::Object, l2, r, c);
                lemma_ripple_dims(m4, row, col, TileLayer::Object);
                lemma_ripple_touches_only_ring(m5, row, col, TileLayer::Overlay, l2, r, c);
            }
        },
    }
}

/// The ripple never changes the extents.
proof fn lemma_ripple_dims(m: LevelModel, row: int, col: int, layer: TileLayer)
    requires
        m.dims_ok(),
    ensures
        m.ripple(row, col, layer).dims_ok(),
        m.ripple(row, col, layer).rows == m.rows,
        m.ripple(row, col, layer).cols == m.cols,
{
    lemma_ripple_step_dims(m, row - 1, col - 1, layer);
    lemma_ripple_step_dims(m.ripple_step(row - 1, col - 1, layer), row - 1, col, layer);
    let m2 = m.ripple_step(row - 1, col - 1, layer).ripple_step(row - 1, col, layer);
    lemma_ripple_step_dims(m2, row - 1, col + 1, layer);
    let m3 = m2.ripple_step(row - 1, col + 1, layer);
    lemma_ripple_step_dims(m3, row, col + 1, layer);
    let m4 = m3.ripple_step(row, col + 1, layer);
    lemma_ripple_step_dims(m4, row + 1, col + 1, layer);
    let m5 = m4.ripple_step(row + 1, col + 1, layer);
    lemma_ripple_step_dims(m5, row + 1, col, layer);
    let m6 = m5.ripple_step(row + 1, col, layer);
    lemma_ripple_step_dims(m6, row + 1, col - 1, layer);
    let m7 = m6.ripple_step(row + 1, col - 1, layer);
    lemma_ripple_step_dims(m7, row, col - 1, layer);
}

/// One propagation step never changes the extents.
proof fn lemma_ripple_step_dims(m: LevelModel, sr: int, sc: int, layer: TileLayer)
    requires
        m.dims_ok(),
    ensures
        m.ripple_step(sr, sc, layer).dims_ok(),
        m.ripple_step(sr, sc, layer).rows == m.rows,
        m.ripple_step(sr, sc, layer).cols == m.cols,
{
    if 0 <= sr < m.rows && 0 <= sc < m.cols {
        let m1 = m.ripple_step(sr, sc, layer);
        let g0 = m.layer(layer);
        let g1 = m1.layer(layer);
        assert(g1 == g0.update(sr, g0[sr].update(sc, m.resolved_cell(sr, sc, layer))));
        assert forall|i: int| 0 <= i < m.rows implies (#[trigger] g1[i]).len() == m.cols by {
            assert(g0[i].len() == m.cols);
        }
        match layer {
            TileLayer::Background => {},
            TileLayer::Object => {},
            TileLayer::Overlay => {},
        }
    }
}

/// A zero velocity component leaves its axis untouched: there is no
/// leading edge to test against, so no sweep runs and no clamp applies.
pub proof fn lemma_zero_delta_leaves_axis(m: LevelModel, hb: Hitbox)
    ensures
        moved_x(m, hb, 0) == hb.x,
        moved_y(m, hb, 0) == hb.y,
{
}

/// A box whose downward sweep is clear advances its full vertical delta,
/// regardless of what the horizontal phase clamped: moving diagonally
/// into a corner that is open below, the box slides along the open axis
/// instead of stopping dead.
pub proof fn lemma_slides_along_open_axis(m: LevelModel, hb: Hitbox, dy: int)
    requires
        dy > 0,
        first_hit_y(m, hb.y + dy + hb.h, hb.x as int, hb.x + hb.w) is None,
    ensures
        moved_y(m, hb, dy) == hb.y + dy,
{
}

} // verus!
