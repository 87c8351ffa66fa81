//! Tile definitions: layer tags, auto-tile rules, and collision matrices.

use vstd::prelude::*;

verus! {

/// The three layers of a level, dispatched by a closed enum.
#[derive(Clone, Copy, PartialEq, Eq, Structural, Debug)]
pub enum TileLayer {
    Background,
    Object,
    Overlay,
}

/// An 8-neighbor auto-tile rule. Each slot is tri-state: `Some(true)` means
/// the neighbor must hold a tile of the same group, `Some(false)` means it
/// must not, and `None` is a wildcard. Slots are in fixed compass order
/// NW, N, NE, E, SE, S, SW, W.
#[derive(Clone, Copy, PartialEq, Eq, Structural, Debug)]
pub struct TileAutoRule {
    pub top_left: Option<bool>,
    pub top: Option<bool>,
    pub top_right: Option<bool>,
    pub right: Option<bool>,
    pub bottom_right: Option<bool>,
    pub bottom: Option<bool>,
    pub bottom_left: Option<bool>,
    pub left: Option<bool>,
}

/// One slot of a candidate rule is compatible with the matching slot of a
/// neighbor signature unless both are concrete and disagree.
pub open spec fn slot_compatible(a: Option<bool>, b: Option<bool>) -> bool {
    !(a is Some && b is Some && a != b)
}

/// A slot scores one point when both sides are concrete and agree;
/// wildcards contribute nothing.
pub open spec fn slot_points(a: Option<bool>, b: Option<bool>) -> int {
    if a is Some && b is Some && a == b {
        1
    } else {
        0
    }
}

impl TileAutoRule {
    /// No concrete slot of `self` disagrees with the matching slot of `other`.
    pub open spec fn compatible(self, other: TileAutoRule) -> bool {
        &&& slot_compatible(self.top_left, other.top_left)
        &&& slot_compatible(self.top, other.top)
        &&& slot_compatible(self.top_right, other.top_right)
        &&& slot_compatible(self.right, other.right)
        &&& slot_compatible(self.bottom_right, other.bottom_right)
        &&& slot_compatible(self.bottom, other.bottom)
        &&& slot_compatible(self.bottom_left, other.bottom_left)
        &&& slot_compatible(self.left, other.left)
    }

    /// Number of slots where both rules are concrete and agree.
    pub open spec fn points(self, other: TileAutoRule) -> int {
        slot_points(self.top_left, other.top_left) + slot_points(self.top, other.top)
            + slot_points(self.top_right, other.top_right) + slot_points(self.right, other.right)
            + slot_points(self.bottom_right, other.bottom_right) + slot_points(
            self.bottom,
            other.bottom,
        ) + slot_points(self.bottom_left, other.bottom_left) + slot_points(self.left, other.left)
    }

    /// Score of `self` held against `other`: disqualified (`None`) on any
    /// concrete disagreement, otherwise the count of agreeing concrete slots.
    pub open spec fn spec_cmp(self, other: TileAutoRule) -> Option<usize> {
        if self.compatible(other) {
            Some(self.points(other) as usize)
        } else {
            None
        }
    }

    /// Builds a fully concrete rule from the 8 slots in compass order.
    pub fn from_array(array: [bool; 8]) -> (r: Self)
        ensures
            r == (TileAutoRule {
                top_left: Some(array[0]),
                top: Some(array[1]),
                top_right: Some(array[2]),
                right: Some(array[3]),
                bottom_right: Some(array[4]),
                bottom: Some(array[5]),
                bottom_left: Some(array[6]),
                left: Some(array[7]),
            }),
    {
        TileAutoRule {
            top_left: Some(array[0]),
            top: Some(array[1]),
            top_right: Some(array[2]),
            right: Some(array[3]),
            bottom_right: Some(array[4]),
            bottom: Some(array[5]),
            bottom_left: Some(array[6]),
            left: Some(array[7]),
        }
    }

    /// Scores this rule against `other`, per `spec_cmp`.
    pub fn cmp(&self, other: &TileAutoRule) -> (r: Option<usize>)
        ensures
            r == self.spec_cmp(*other),
    {
        let mut points: usize = 0;
        match slot_score(self.top_left, other.top_left) {
            Some(p) => points = points + p,
            None => {
                return None;
            },
        }
        match slot_score(self.top, other.top) {
            Some(p) => points = points + p,
            None => {
                return None;
            },
        }
        match slot_score(self.top_right, other.top_right) {
            Some(p) => points = points + p,
            None => {
                return None;
            },
        }
        match slot_score(self.right, other.right) {
            Some(p) => points = points + p,
            None => {
                return None;
            },
        }
        match slot_score(self.bottom_right, other.bottom_right) {
            Some(p) => points = points + p,
            None => {
                return None;
            },
        }
        match slot_score(self.bottom, other.bottom) {
            Some(p) => points = points + p,
            None => {
                return None;
            },
        }
        match slot_score(self.bottom_left, other.bottom_left) {
            Some(p) => points = points + p,
            None => {
                return None;
            },
        }
        match slot_score(self.left, other.left) {
            Some(p) => points = points + p,
            None => {
                return None;
            },
        }
        Some(points)
    }
}

/// Scores one slot pair: `None` on a concrete disagreement, otherwise the
/// point contribution of the pair.
fn slot_score(a: Option<bool>, b: Option<bool>) -> (r: Option<usize>)
    ensures
        r is Some <==> slot_compatible(a, b),
        r is Some ==> r->0 == slot_points(a, b),
{
    match (a, b) {
        (Some(x), Some(y)) => {
            if x == y {
                Some(1)
            } else {
                None
            }
        },
        _ => Some(0),
    }
}

/// Advances one rule slot through its editing cycle:
/// solid, then empty, then wildcard, then solid again.
pub fn cycle_rule_slot(slot: Option<bool>) -> (r: Option<bool>)
    ensures
        r == (match slot {
            Some(true) => Some(false),
            Some(false) => None::<bool>,
            None => Some(true),
        }),
{
    match slot {
        Some(true) => Some(false),
        Some(false) => None,
        None => Some(true),
    }
}

/// A fixed 3x3 boolean sub-grid marking the solid portions of a tile
/// (3 = `TILE_COLLISION_SECTIONS`).
#[derive(Clone, Copy, PartialEq, Eq, Debug)]
pub struct CollisionMatrix {
    pub matrix: [[bool; 3]; 3],
}

impl CollisionMatrix {
    /// A fully solid matrix, the default for object-layer tiles.
    pub fn new() -> (r: Self)
        ensures
            r == (CollisionMatrix {
                matrix: [[true, true, true], [true, true, true], [true, true, true]],
            }),
            forall|i: int, j: int| 0 <= i < 3 && 0 <= j < 3 ==> r.matrix[i][j],
    {
        Self { matrix: [[true, true, true], [true, true, true], [true, true, true]] }
    }

    /// Flips one cell of the matrix, leaving the others untouched.
    pub fn toggle(&mut self, row: usize, col: usize)
        requires
            row < 3,
            col < 3,
        ensures
            final(self).matrix[row as int][col as int] == !old(self).matrix[row as int][col as int],
            forall|i: int, j: int|
                0 <= i < 3 && 0 <= j < 3 && !(i == row && j == col) ==> final(self).matrix[i][j]
                    == old(self).matrix[i][j],
    {
        let cur = self.matrix[row][col];
        let mut line = self.matrix[row];
        line[col] = !cur;
        self.matrix[row] = line;
    }
}

/// One tile definition: source-rectangle origin in texture pixels, an
/// optional auto-tile rule, the layer the tile belongs to, an optional
/// group identifier, and an optional collision matrix.
#[derive(Clone, Copy, PartialEq, Eq, Debug)]
pub struct TileAsset {
    pub x: u32,
    pub y: u32,
    pub auto_rule: Option<TileAutoRule>,
    pub layer: TileLayer,
    pub group: Option<u8>,
    pub collision_matrix: Option<CollisionMatrix>,
}

impl TileAsset {
    /// Moves the tile to another layer. Only object-layer tiles carry a
    /// collision matrix: switching to the object layer supplies a solid one
    /// when none is present, switching away drops it.
    pub fn set_layer(&mut self, layer: TileLayer)
        ensures
            final(self).layer == layer,
            final(self).x == old(self).x,
            final(self).y == old(self).y,
            final(self).auto_rule == old(self).auto_rule,
            final(self).group == old(self).group,
            final(self).collision_matrix == (match layer {
                TileLayer::Object => (if old(self).collision_matrix is Some {
                    old(self).collision_matrix
                } else {
                    Some(CollisionMatrix { matrix: [[true, true, true], [true, true, true], [true, true, true]] })
                }),
                _ => None::<CollisionMatrix>,
            }),
    {
        self.layer = layer;
        match layer {
            TileLayer::Object => {
                if self.collision_matrix.is_none() {
                    self.collision_matrix = Some(
                        CollisionMatrix { matrix: [[true, true, true], [true, true, true], [true, true, true]] },
                    );
                }
            },
            _ => {
                self.collision_matrix = None;
            },
        }
    }
}

} // verus!
