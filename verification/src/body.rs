//! The axis-separated mover: advances a box by a per-frame delta,
//! resolving collisions one axis at a time so that a box sliding into a
//! corner keeps moving along the open axis instead of stopping dead.

use vstd::prelude::*;

use crate::level::{lemma_probe_hit_wf, Level, LevelModel, TileHitInfo};
use crate::TILE_PORTION;

verus! {

/// Magnitude bound on box coordinates, extents and per-frame deltas: keeps
/// every probe coordinate inside `COORD_LIMIT` and all arithmetic exact.
pub const MOVE_LIMIT: i64 = 0x4000_0000_0000;

/// An axis-aligned box: top-left corner position, width and height, in
/// world units. Owned by the moving entity, independent of the grid.
#[derive(Clone, Copy, PartialEq, Eq, Structural, Debug)]
pub struct Hitbox {
    pub x: i64,
    pub y: i64,
    pub w: i64,
    pub h: i64,
}

impl Hitbox {
    /// Coordinates and extents are bounded and the extents non-negative.
    pub open spec fn wf(self) -> bool {
        &&& -MOVE_LIMIT <= self.x <= MOVE_LIMIT
        &&& -MOVE_LIMIT <= self.y <= MOVE_LIMIT
        &&& 0 <= self.w <= MOVE_LIMIT
        &&& 0 <= self.h <= MOVE_LIMIT
    }
}

/// First hit of a sweep down a vertical edge at fixed x: probes from `cur`
/// toward `end` in steps of `TILE_PORTION`, with the final probe landing
/// exactly on `end` even when the step does not divide the span evenly.
pub open spec fn first_hit_x(m: LevelModel, edge_x: int, cur: int, end: int) -> Option<TileHitInfo>
    decreases end + TILE_PORTION - cur,
{
    if cur >= end {
        m.probe(edge_x, end)
    } else {
        match m.probe(edge_x, cur) {
            Some(h) => Some(h),
            None => first_hit_x(m, edge_x, cur + TILE_PORTION, end),
        }
    }
}

/// First hit of a sweep across a horizontal edge at fixed y, stepping x.
pub open spec fn first_hit_y(m: LevelModel, edge_y: int, cur: int, end: int) -> Option<TileHitInfo>
    decreases end + TILE_PORTION - cur,
{
    if cur >= end {
        m.probe(end, edge_y)
    } else {
        match m.probe(cur, edge_y) {
            Some(h) => Some(h),
            None => first_hit_y(m, edge_y, cur + TILE_PORTION, end),
        }
    }
}

/// A sweep over a well-formed level only reports well-formed hits.
proof fn lemma_first_hit_x_wf(m: LevelModel, edge_x: int, cur: int, end: int)
    requires
        m.wf(),
    ensures
        first_hit_x(m, edge_x, cur, end) matches Some(h) ==> h.wf(),
    decreases end + TILE_PORTION - cur,
{
    if cur >= end {
        lemma_probe_hit_wf(m, edge_x, end);
    } else {
        lemma_probe_hit_wf(m, edge_x, cur);
        if m.probe(edge_x, cur) is None {
            lemma_first_hit_x_wf(m, edge_x, cur + TILE_PORTION, end);
        }
    }
}

/// A sweep over a well-formed level only reports well-formed hits.
proof fn lemma_first_hit_y_wf(m: LevelModel, edge_y: int, cur: int, end: int)
    requires
        m.wf(),
    ensures
        first_hit_y(m, edge_y, cur, end) matches Some(h) ==> h.wf(),
    decreases end + TILE_PORTION - cur,
{
    if cur >= end {
        lemma_probe_hit_wf(m, end, edge_y);
    } else {
        lemma_probe_hit_wf(m, cur, edge_y);
        if m.probe(cur, edge_y) is None {
            lemma_first_hit_y_wf(m, edge_y, cur + TILE_PORTION, end);
        }
    }
}

/// The x position of the box after the horizontal phase: the delta is
/// applied, then the leading vertical edge (right edge moving right, left
/// edge moving left) is swept from top to bottom; the first hit clamps x
/// so the leading edge sits at the hit's derived boundary. A zero delta
/// leaves the axis untouched.
pub open spec fn moved_x(m: LevelModel, hb: Hitbox, dx: int) -> int {
    if dx == 0 {
        hb.x as int
    } else {
        let nx = hb.x + dx;
        if dx > 0 {
            match first_hit_x(m, nx + hb.w, hb.y as int, hb.y + hb.h) {
                Some(h) => h.spec_from_left() - hb.w,
                None => nx,
            }
        } else {
            match first_hit_x(m, nx, hb.y as int, hb.y + hb.h) {
                Some(h) => h.spec_from_right(),
                None => nx,
            }
        }
    }
}

/// The y position of the box after the vertical phase, given the box with
/// its post-horizontal x: symmetric to `moved_x`, sweeping the leading
/// horizontal edge (bottom edge moving down, top edge moving up) across x.
pub open spec fn moved_y(m: LevelModel, hb: Hitbox, dy: int) -> int {
    if dy == 0 {
        hb.y as int
    } else {
        let ny = hb.y + dy;
        if dy > 0 {
            match first_hit_y(m, ny + hb.h, hb.x as int, hb.x + hb.w) {
                Some(h) => h.spec_from_top() - hb.h,
                None => ny,
            }
        } else {
            match first_hit_y(m, ny, hb.x as int, hb.x + hb.w) {
                Some(h) => h.spec_from_bottom(),
                None => ny,
            }
        }
    }
}

/// A moving entity's geometric footprint.
pub struct Body {
    pub hitbox: Hitbox,
}

impl Body {
    /// Builds a body whose box is centered on (x, y).
    pub fn new(x: i64, y: i64, w: i64, h: i64) -> (r: Self)
        requires
            -MOVE_LIMIT <= x <= MOVE_LIMIT,
            -MOVE_LIMIT <= y <= MOVE_LIMIT,
            0 <= w <= MOVE_LIMIT,
            0 <= h <= MOVE_LIMIT,
        ensures
            r.hitbox == (Hitbox { x: (x - w / 2) as i64, y: (y - h / 2) as i64, w, h }),
    {
        let half_w = ((w as u64) / 2) as i64;
        let half_h = ((h as u64) / 2) as i64;
        Body { hitbox: Hitbox { x: x - half_w, y: y - half_h, w, h } }
    }

    /// Advances the box by the per-frame delta, one axis at a time: x
    /// first with a sweep down the leading vertical edge, then y with a
    /// sweep across the leading horizontal edge. Only the first solid
    /// encountered on each sweep is honored.
    pub fn move_by(&mut self, delta_x: i64, delta_y: i64, level: &Level)
        requires
            level.wf(),
            old(self).hitbox.wf(),
            -MOVE_LIMIT <= delta_x <= MOVE_LIMIT,
            -MOVE_LIMIT <= delta_y <= MOVE_LIMIT,
        ensures
            final(self).hitbox.w == old(self).hitbox.w,
            final(self).hitbox.h == old(self).hitbox.h,
            final(self).hitbox.x as int == moved_x(
                level.model(),
                old(self).hitbox,
                delta_x as int,
            ),
            final(self).hitbox.y as int == moved_y(
                level.model(),
                (Hitbox {
                    x: final(self).hitbox.x,
                    y: old(self).hitbox.y,
                    w: old(self).hitbox.w,
                    h: old(self).hitbox.h,
                }),
                delta_y as int,
            ),
    {
        let ghost m = level.model();
        let ghost hb0 = self.hitbox;
        if delta_x != 0 {
            self.hitbox.x = self.hitbox.x + delta_x;
            let edge_x = if delta_x > 0 {
                self.hitbox.x + self.hitbox.w
            } else {
                self.hitbox.x
            };
            let top = self.hitbox.y;
            let bottom = self.hitbox.y + self.hitbox.h;
            let ghost nx = self.hitbox.x as int;
            let mut p = top;
            loop
                invariant_except_break
                    top <= p <= bottom + TILE_PORTION,
                    first_hit_x(m, edge_x as int, top as int, bottom as int) == first_hit_x(
                        m,
                        edge_x as int,
                        p as int,
                        bottom as int,
                    ),
                    self.hitbox == (Hitbox { x: nx as i64, ..hb0 }),
                    level.wf(),
                    m == level.model(),
                    hb0.wf(),
                    -MOVE_LIMIT <= delta_x <= MOVE_LIMIT,
                    delta_x != 0,
                    nx == hb0.x + delta_x,
                    edge_x == if delta_x > 0 { nx + hb0.w } else { nx },
                    top == hb0.y,
                    bottom == hb0.y + hb0.h,
                ensures
                    self.hitbox.y == hb0.y && self.hitbox.w == hb0.w && self.hitbox.h == hb0.h,
                    self.hitbox.x as int == (match first_hit_x(
                        m,
                        edge_x as int,
                        top as int,
                        bottom as int,
                    ) {
                        Some(h) => (if delta_x > 0 {
                            h.spec_from_left() - hb0.w
                        } else {
                            h.spec_from_right()
                        }),
                        None => nx,
                    }),
                decreases bottom + TILE_PORTION - p,
            {
                let probe_p = if p > bottom {
                    bottom
                } else {
                    p
                };
                match level.check_for_collision(edge_x, probe_p) {
                    Some(hit) => {
                        if delta_x > 0 {
                            self.hitbox.x = hit.from_left() - self.hitbox.w;
                        } else {
                            self.hitbox.x = hit.from_right();
                        }
                        break ;
                    },
                    None => {},
                }
                if probe_p == bottom {
                    break ;
                }
                p = p + TILE_PORTION;
            }
        }
        proof {
            if delta_x != 0 {
                let edge = if delta_x > 0 {
                    hb0.x + delta_x + hb0.w
                } else {
                    hb0.x + delta_x
                };
                lemma_first_hit_x_wf(m, edge, hb0.y as int, hb0.y + hb0.h);
            }
        }
        let ghost hb1 = self.hitbox;
        if delta_y != 0 {
            self.hitbox.y = self.hitbox.y + delta_y;
            let edge_y = if delta_y > 0 {
                self.hitbox.y + self.hitbox.h
            } else {
                self.hitbox.y
            };
            let left = self.hitbox.x;
            let right = self.hitbox.x + self.hitbox.w;
            let ghost ny = self.hitbox.y as int;
            let mut p = left;
            loop
                invariant_except_break
                    left <= p <= right + TILE_PORTION,
                    first_hit_y(m, edge_y as int, left as int, right as int) == first_hit_y(
                        m,
                        edge_y as int,
                        p as int,
                        right as int,
                    ),
                    self.hitbox == (Hitbox { y: ny as i64, ..hb1 }),
                    level.wf(),
                    m == level.model(),
                    -0x10_0000_0000_0000 <= hb1.x <= 0x10_0000_0000_0000,
                    -MOVE_LIMIT <= hb1.y <= MOVE_LIMIT,
                    0 <= hb1.w <= MOVE_LIMIT,
                    0 <= hb1.h <= MOVE_LIMIT,
                    -MOVE_LIMIT <= delta_y <= MOVE_LIMIT,
                    delta_y != 0,
                    ny == hb1.y + delta_y,
                    edge_y == if delta_y > 0 { ny + hb1.h } else { ny },
                    left == hb1.x,
                    right == hb1.x + hb1.w,
                ensures
                    self.hitbox.x == hb1.x && self.hitbox.w == hb1.w && self.hitbox.h == hb1.h,
                    self.hitbox.y as int == (match first_hit_y(
                        m,
                        edge_y as int,
                        left as int,
                        right as int,
                    ) {
                        Some(h) => (if delta_y > 0 {
                            h.spec_from_top() - hb1.h
                        } else {
                            h.spec_from_bottom()
                        }),
                        None => ny,
                    }),
                decreases right + TILE_PORTION - p,
            {
                let probe_p = if p > right {
                    right
                } else {
                    p
                };
                match level.check_for_collision(probe_p, edge_y) {
                    Some(hit) => {
                        if delta_y > 0 {
                            self.hitbox.y = hit.from_top() - self.hitbox.h;
                        } else {
                            self.hitbox.y = hit.from_bottom();
                        }
                        break ;
                    },
                    None => {},
                }
                if probe_p == right {
                    break ;
                }
                p = p + TILE_PORTION;
            }
        }
    }
}

} // verus!
