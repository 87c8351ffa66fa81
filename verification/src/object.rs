//! Level objects: listings persisted with a level that spawn entities at
//! tile-cell centers once the cell scrolls into range.

use vstd::prelude::*;

use crate::body::{Body, Hitbox};
use crate::level::MAX_GRID_DIM;
use crate::TILE_SIZE;

use core::ops::Range;

verus! {

/// The kinds of enemies a level can spawn.
#[derive(Clone, Copy, PartialEq, Eq, Structural, Debug)]
pub enum EnemyType {
    CopperOrb,
    DeceptiveFlower,
    PurpleBlob,
    SeaGoblin,
}

/// The kinds of objects a listing can describe.
#[derive(Clone, Copy, PartialEq, Eq, Structural, Debug)]
pub enum ObjectType {
    Enemy(EnemyType),
}

/// A spawned enemy: its geometric footprint and its kind.
pub struct Enemy {
    pub body: Body,
    pub kind: EnemyType,
}

impl Enemy {
    /// Spawns an enemy of one tile's extent centered on (x, y).
    pub fn new(kind: EnemyType, x: i64, y: i64) -> (r: Self)
        requires
            -0x4000_0000_0000 <= x <= 0x4000_0000_0000,
            -0x4000_0000_0000 <= y <= 0x4000_0000_0000,
        ensures
            r.kind == kind,
            r.body.hitbox == (Hitbox {
                x: (x - TILE_SIZE / 2) as i64,
                y: (y - TILE_SIZE / 2) as i64,
                w: TILE_SIZE,
                h: TILE_SIZE,
            }),
    {
        Enemy { body: Body::new(x, y, TILE_SIZE, TILE_SIZE), kind }
    }
}

/// A spawned object.
pub enum Object {
    Enemy(Enemy),
}

/// One object listing of a level: the cell it belongs to and what it
/// spawns there.
#[derive(Clone, Copy, PartialEq, Eq, Structural, Debug)]
pub struct ObjectListing {
    pub row: usize,
    pub col: usize,
    pub kind: ObjectType,
}

impl ObjectListing {
    /// Does the listing's cell lie inside both half-open index ranges?
    pub fn is_in_range(&self, row_range: &Range<usize>, col_range: &Range<usize>) -> (b: bool)
        ensures
            b == (row_range.start <= self.row < row_range.end && col_range.start <= self.col
                < col_range.end),
    {
        row_range.start <= self.row && self.row < row_range.end && col_range.start <= self.col
            && self.col < col_range.end
    }

    /// Spawns the listed object, centered on the listing's cell.
    pub fn resolve(&self) -> (r: Object)
        requires
            self.row <= MAX_GRID_DIM,
            self.col <= MAX_GRID_DIM,
        ensures
            ({
                let x = self.col * TILE_SIZE + TILE_SIZE / 2;
                let y = self.row * TILE_SIZE + TILE_SIZE / 2;
                match r {
                    Object::Enemy(e) => {
                        &&& (match self.kind {
                            ObjectType::Enemy(et) => e.kind == et,
                        })
                        &&& e.body.hitbox == (Hitbox {
                            x: (x - TILE_SIZE / 2) as i64,
                            y: (y - TILE_SIZE / 2) as i64,
                            w: TILE_SIZE,
                            h: TILE_SIZE,
                        })
                    },
                }
            }),
    {
        let x = (self.col as i64) * TILE_SIZE + TILE_SIZE / 2;
        let y = (self.row as i64) * TILE_SIZE + TILE_SIZE / 2;
        match self.kind {
            ObjectType::Enemy(enemy_type) => Object::Enemy(Enemy::new(enemy_type, x, y)),
        }
    }
}

/// The objects a level has spawned so far.
pub struct LevelObjects {
    pub lst: Vec<Object>,
}

impl LevelObjects {
    /// An empty collection.
    pub fn new() -> (r: Self)
        ensures
            r.lst@.len() == 0,
    {
        LevelObjects { lst: Vec::new() }
    }

    /// Spawns a listing's object and appends it.
    pub fn add_listing(&mut self, listing: &ObjectListing)
        requires
            listing.row <= MAX_GRID_DIM,
            listing.col <= MAX_GRID_DIM,
        ensures
            final(self).lst@.len() == old(self).lst@.len() + 1,
            forall|i: int|
                0 <= i < old(self).lst@.len() ==> #[trigger] final(self).lst@[i] == old(
                    self,
                ).lst@[i],
            ({
                let x = listing.col * TILE_SIZE + TILE_SIZE / 2;
                let y = listing.row * TILE_SIZE + TILE_SIZE / 2;
                match final(self).lst@.last() {
                    Object::Enemy(e) => {
                        &&& (match listing.kind {
                            ObjectType::Enemy(et) => e.kind == et,
                        })
                        &&& e.body.hitbox == (Hitbox {
                            x: (x - TILE_SIZE / 2) as i64,
                            y: (y - TILE_SIZE / 2) as i64,
                            w: TILE_SIZE,
                            h: TILE_SIZE,
                        })
                    },
                }
            }),
    {
        self.lst.push(listing.resolve());
    }
}

} // verus!
