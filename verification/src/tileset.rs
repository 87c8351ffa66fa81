//! Tileset catalogue: per-tileset tile definitions and the registry that
//! maps a tileset identifier to them.

use vstd::prelude::*;

use crate::tiles::{CollisionMatrix, TileAsset, TileLayer};
use crate::TILE_PIXELS;

verus! {

/// One tileset: the ordered list of its tile definitions. Definition order
/// is part of the contract with asset authors: auto-tile tie-breaking
/// depends on it.
pub struct TilesetAsset {
    pub tiles: Vec<TileAsset>,
}

/// Does tile `t` have its source rectangle exactly at pixel position (x, y)?
pub open spec fn tile_matches_pos(t: TileAsset, x: u32, y: u32) -> bool {
    t.x == x && t.y == y
}

/// Index of the last tile whose source rectangle sits exactly at (x, y).
pub open spec fn spec_tile_at_pos(tiles: Seq<TileAsset>, x: u32, y: u32) -> Option<int>
    decreases tiles.len(),
{
    if tiles.len() == 0 {
        None
    } else if tile_matches_pos(tiles.last(), x, y) {
        Some(tiles.len() - 1)
    } else {
        spec_tile_at_pos(tiles.drop_last(), x, y)
    }
}

/// A found tile index always lies inside the tile list.
pub proof fn lemma_tile_at_pos_range(tiles: Seq<TileAsset>, x: u32, y: u32)
    ensures
        spec_tile_at_pos(tiles, x, y) matches Some(j) ==> 0 <= j < tiles.len(),
    decreases tiles.len(),
{
    if tiles.len() > 0 && !tile_matches_pos(tiles.last(), x, y) {
        lemma_tile_at_pos_range(tiles.drop_last(), x, y);
    }
}

impl TilesetAsset {
    /// Creates a tileset from its tile definitions.
    pub fn new(tiles: Vec<TileAsset>) -> (r: Self)
        ensures
            r.tiles@ == tiles@,
    {
        TilesetAsset { tiles }
    }

    /// Finds the last tile whose source rectangle sits exactly at pixel
    /// position (x, y), if any.
    pub fn get_tile_at_pos(&self, x: u32, y: u32) -> (r: Option<usize>)
        ensures
            r == (match spec_tile_at_pos(self.tiles@, x, y) {
                Some(i) => Some(i as usize),
                None => None::<usize>,
            }),
            r matches Some(i) ==> i < self.tiles@.len(),
    {
        let mut found: Option<usize> = None;
        let mut i: usize = 0;
        while i < self.tiles.len()
            invariant
                i <= self.tiles@.len(),
                found matches Some(j) ==> j < i,
                found == (match spec_tile_at_pos(self.tiles@.take(i as int), x, y) {
                    Some(j) => Some(j as usize),
                    None => None::<usize>,
                }),
            decreases self.tiles@.len() - i,
        {
            let t = &self.tiles[i];
            proof {
                assert(self.tiles@.take(i + 1).drop_last() =~= self.tiles@.take(i as int));
                assert(self.tiles@.take(i + 1).last() == self.tiles@[i as int]);
            }
            if t.x == x && t.y == y {
                found = Some(i);
            }
            i = i + 1;
        }
        proof {
            assert(self.tiles@.take(self.tiles@.len() as int) =~= self.tiles@);
        }
        found
    }

    /// Tests whether a pixel section of the texture is fully transparent.
    pub fn is_section_transparent(
        &self,
        img: &TileImage,
        start_y: usize,
        end_y: usize,
        start_x: usize,
        end_x: usize,
    ) -> (b: bool)
        requires
            img.wf(),
            start_y <= end_y <= img.height,
            start_x <= end_x <= img.width,
        ensures
            b == section_transparent(
                *img,
                start_y as int,
                end_y as int,
                start_x as int,
                end_x as int,
            ),
    {
        let mut y = start_y;
        while y < end_y
            invariant
                start_y <= y <= end_y,
                img.wf(),
                start_y <= end_y <= img.height,
                start_x <= end_x <= img.width,
                forall|yy: int, xx: int|
                    start_y <= yy < y && start_x <= xx < end_x ==> #[trigger] img.alpha(xx, yy)
                        == 0,
            decreases end_y - y,
        {
            let mut x = start_x;
            while x < end_x
                invariant
                    start_x <= x <= end_x,
                    start_y <= y < end_y,
                    img.wf(),
                    end_y <= img.height,
                    end_x <= img.width,
                    forall|xx: int|
                        start_x <= xx < x ==> #[trigger] img.alpha(xx, y as int) == 0,
                decreases end_x - x,
            {
                proof {
                    assert(0 <= y * img.width && y * img.width + x < img.width * img.height
                        && 0 <= img.width * img.height)
                        by (nonlinear_arith)
                        requires
                            0 <= y < img.height,
                            0 <= x < img.width,
                    ;
                }
                let total = img.bytes.len();
                proof {
                    assert(total == img.width * img.height * 4);
                }
                let idx = (y * img.width + x) * 4;
                if img.bytes[idx + 3] > 0 {
                    proof {
                        assert(img.alpha(x as int, y as int) != 0);
                    }
                    return false;
                }
                x = x + 1;
            }
            y = y + 1;
        }
        true
    }

    /// Walks the texture tile by tile: ensures every claimed object-layer
    /// tile has a collision matrix, and claims every unclaimed,
    /// not-fully-transparent section as a fresh object-layer tile. Existing
    /// tile indices are never removed or reordered.
    pub fn cut(&mut self, img: &TileImage)
        requires
            img.wf(),
        ensures
            final(self).tiles@ == cut_grid(
                old(self).tiles@,
                *img,
                (img.height as int) / (TILE_PIXELS as int),
                (img.width as int) / (TILE_PIXELS as int),
            ),
    {
        let tile_px = TILE_PIXELS as usize;
        let rows = img.height / tile_px;
        let cols = img.width / tile_px;
        let ghost t0 = self.tiles@;
        let mut row: usize = 0;
        while row < rows
            invariant
                row <= rows,
                img.wf(),
                tile_px == TILE_PIXELS as usize,
                rows == (img.height as int) / (TILE_PIXELS as int),
                cols == (img.width as int) / (TILE_PIXELS as int),
                self.tiles@ == cut_grid(t0, *img, row as int, cols as int),
            decreases rows - row,
        {
            let ghost base = self.tiles@;
            let mut col: usize = 0;
            while col < cols
                invariant
                    col <= cols,
                    row < rows,
                    img.wf(),
                    tile_px == TILE_PIXELS as usize,
                    rows == (img.height as int) / (TILE_PIXELS as int),
                    cols == (img.width as int) / (TILE_PIXELS as int),
                    self.tiles@ == cut_row(base, *img, row as int, col as int),
                decreases cols - col,
            {
                proof {
                    assert(col * (TILE_PIXELS as int) + TILE_PIXELS <= img.width)
                        by (nonlinear_arith)
                        requires
                            0 <= col < (img.width as int) / (TILE_PIXELS as int),
                            TILE_PIXELS == 16,
                    ;
                    assert(row * (TILE_PIXELS as int) + TILE_PIXELS <= img.height)
                        by (nonlinear_arith)
                        requires
                            0 <= row < (img.height as int) / (TILE_PIXELS as int),
                            TILE_PIXELS == 16,
                    ;
                }
                let x = col * tile_px;
                let y = row * tile_px;
                let ghost prev = self.tiles@;
                let count = self.tiles.len();
                proof {
                    assert(prev.len() == count as int);
                    assert((x as u32) == ((col * (TILE_PIXELS as int)) as u32));
                    assert((y as u32) == ((row * (TILE_PIXELS as int)) as u32));
                }
                match self.get_tile_at_pos(x as u32, y as u32) {
                    Some(i) => {
                        proof {
                            lemma_tile_at_pos_range(prev, x as u32, y as u32);
                            assert(spec_tile_at_pos(prev, x as u32, y as u32) == Some(i as int));
                        }
                        let t = self.tiles[i];
                        let needs_matrix = match t.layer {
                            TileLayer::Object => t.collision_matrix.is_none(),
                            _ => false,
                        };
                        if needs_matrix {
                            self.tiles[i] = TileAsset {
                                collision_matrix: Some(CollisionMatrix::new()),
                                ..t
                            };
                            proof {
                                assert(self.tiles@ == prev.update(
                                    i as int,
                                    TileAsset {
                                        collision_matrix: Some(solid_matrix()),
                                        ..prev[i as int]
                                    },
                                ));
                            }
                        }
                    },
                    None => {
                        if !self.is_section_transparent(img, y, y + tile_px, x, x + tile_px) {
                            self.tiles.push(
                                TileAsset {
                                    x: x as u32,
                                    y: y as u32,
                                    auto_rule: None,
                                    layer: TileLayer::Object,
                                    group: None,
                                    collision_matrix: Some(CollisionMatrix::new()),
                                },
                            );
                        }
                    },
                }
                proof {
                    assert(self.tiles@ == cut_step(prev, *img, row as int, col as int));
                }
                col = col + 1;
            }
            row = row + 1;
        }
    }
}

/// Raw pixel data of a tileset texture: RGBA bytes in row-major order.
pub struct TileImage {
    pub bytes: Vec<u8>,
    pub width: usize,
    pub height: usize,
}

impl TileImage {
    /// The byte buffer holds exactly width x height RGBA pixels, with both
    /// dimensions inside `u32` so pixel coordinates fit tile origins.
    pub open spec fn wf(self) -> bool {
        &&& self.bytes@.len() == self.width * self.height * 4
        &&& self.width <= 0xffff_ffff
        &&& self.height <= 0xffff_ffff
    }

    /// The alpha byte of pixel (x, y).
    pub open spec fn alpha(self, x: int, y: int) -> u8 {
        self.bytes@[(y * self.width + x) * 4 + 3]
    }
}

/// Every pixel of the section (rows start_y..end_y, columns
/// start_x..end_x) is fully transparent.
pub open spec fn section_transparent(
    img: TileImage,
    start_y: int,
    end_y: int,
    start_x: int,
    end_x: int,
) -> bool {
    forall|y: int, x: int|
        start_y <= y < end_y && start_x <= x < end_x ==> #[trigger] img.alpha(x, y) == 0
}

/// The fully solid collision matrix the cutter assigns to new tiles.
pub open spec fn solid_matrix() -> CollisionMatrix {
    CollisionMatrix { matrix: [[true, true, true], [true, true, true], [true, true, true]] }
}

/// One step of the cutter at tile position (row, col): an existing
/// object-layer tile at that pixel origin gains a solid collision matrix
/// if it has none; an unclaimed, not fully transparent section becomes a
/// fresh object-layer tile. Everything else is left alone.
pub open spec fn cut_step(tiles: Seq<TileAsset>, img: TileImage, row: int, col: int) -> Seq<
    TileAsset,
> {
    let x = col * (TILE_PIXELS as int);
    let y = row * (TILE_PIXELS as int);
    match spec_tile_at_pos(tiles, x as u32, y as u32) {
        Some(i) => {
            if tiles[i].layer is Object && tiles[i].collision_matrix is None {
                tiles.update(i, TileAsset { collision_matrix: Some(solid_matrix()), ..tiles[i] })
            } else {
                tiles
            }
        },
        None => {
            if !section_transparent(
                img,
                y,
                y + TILE_PIXELS,
                x,
                x + TILE_PIXELS,
            ) {
                tiles.push(
                    TileAsset {
                        x: x as u32,
                        y: y as u32,
                        auto_rule: None,
                        layer: TileLayer::Object,
                        group: None,
                        collision_matrix: Some(solid_matrix()),
                    },
                )
            } else {
                tiles
            }
        },
    }
}

/// The cutter's state after the first `ncols` positions of row `row`.
pub open spec fn cut_row(tiles: Seq<TileAsset>, img: TileImage, row: int, ncols: int) -> Seq<
    TileAsset,
>
    decreases ncols,
{
    if ncols <= 0 {
        tiles
    } else {
        cut_step(cut_row(tiles, img, row, ncols - 1), img, row, ncols - 1)
    }
}

/// The cutter's state after the first `nrows` whole rows, each of `ncols`
/// positions, in row-major order.
pub open spec fn cut_grid(tiles: Seq<TileAsset>, img: TileImage, nrows: int, ncols: int) -> Seq<
    TileAsset,
>
    decreases nrows,
{
    if nrows <= 0 {
        tiles
    } else {
        cut_row(cut_grid(tiles, img, nrows - 1, ncols), img, nrows - 1, ncols)
    }
}

/// One cutter step never removes tiles.
proof fn lemma_cut_step_len(tiles: Seq<TileAsset>, img: TileImage, row: int, col: int)
    ensures
        cut_step(tiles, img, row, col).len() >= tiles.len(),
{
    let x = col * (TILE_PIXELS as int);
    let y = row * (TILE_PIXELS as int);
    lemma_tile_at_pos_range(tiles, x as u32, y as u32);
}

/// A cutter row never removes tiles.
proof fn lemma_cut_row_len(tiles: Seq<TileAsset>, img: TileImage, row: int, ncols: int)
    ensures
        cut_row(tiles, img, row, ncols).len() >= tiles.len(),
    decreases ncols,
{
    if ncols > 0 {
        lemma_cut_row_len(tiles, img, row, ncols - 1);
        lemma_cut_step_len(cut_row(tiles, img, row, ncols - 1), img, row, ncols - 1);
    }
}

/// The cutter only ever appends or fills in collision matrices: no
/// existing tile index is removed.
pub proof fn lemma_cut_grid_len(tiles: Seq<TileAsset>, img: TileImage, nrows: int, ncols: int)
    ensures
        cut_grid(tiles, img, nrows, ncols).len() >= tiles.len(),
    decreases nrows,
{
    if nrows > 0 {
        lemma_cut_grid_len(tiles, img, nrows - 1, ncols);
        lemma_cut_row_len(cut_grid(tiles, img, nrows - 1, ncols), img, nrows - 1, ncols);
    }
}

/// One registry entry: a tileset under its identifier.
pub struct TilesetEntry {
    pub id: String,
    pub tileset: TilesetAsset,
}

/// First entry whose identifier equals `id`, scanning in insertion order.
pub open spec fn spec_find_tileset(entries: Seq<TilesetEntry>, id: Seq<char>) -> Option<
    TilesetAsset,
>
    decreases entries.len(),
{
    if entries.len() == 0 {
        None
    } else if entries.first().id@ == id {
        Some(entries.first().tileset)
    } else {
        spec_find_tileset(entries.drop_first(), id)
    }
}

/// Skipping entries that do not match leaves the lookup unchanged.
pub proof fn lemma_find_skip(entries: Seq<TilesetEntry>, id: Seq<char>, k: int)
    requires
        0 <= k <= entries.len(),
        forall|j: int| 0 <= j < k ==> (#[trigger] entries[j].id)@ != id,
    ensures
        spec_find_tileset(entries, id) == spec_find_tileset(entries.skip(k), id),
    decreases k,
{
    if k > 0 {
        assert(entries.skip(1).skip(k - 1) =~= entries.skip(k));
        lemma_find_skip(entries.skip(1), id, k - 1);
        assert(entries.drop_first() =~= entries.skip(1));
    } else {
        assert(entries.skip(0) =~= entries);
    }
}

/// The per-level catalogue of tilesets, looked up by identifier.
/// Identifiers are unique; entries keep their insertion order.
pub struct TilesetRegistry {
    pub entries: Vec<TilesetEntry>,
}

impl TilesetRegistry {
    /// Identifiers are pairwise distinct.
    pub open spec fn wf(&self) -> bool {
        forall|i: int, j: int|
            0 <= i < j < self.entries@.len() ==> (#[trigger] self.entries@[i].id)@ != (
            #[trigger] self.entries@[j].id)@
    }

    /// Lookup by identifier, as a mathematical function of the entries.
    pub open spec fn spec_get(&self, id: Seq<char>) -> Option<TilesetAsset> {
        spec_find_tileset(self.entries@, id)
    }

    /// An empty registry.
    pub fn new() -> (r: Self)
        ensures
            r.entries@.len() == 0,
            r.wf(),
    {
        TilesetRegistry { entries: Vec::new() }
    }

    /// Looks a tileset up by its identifier.
    pub fn get(&self, id: &String) -> (r: Option<&TilesetAsset>)
        ensures
            r matches Some(ts) ==> self.spec_get(id@) == Some(*ts),
            r is None ==> self.spec_get(id@) is None,
    {
        let mut i: usize = 0;
        while i < self.entries.len()
            invariant
                i <= self.entries@.len(),
                forall|j: int| 0 <= j < i ==> (#[trigger] self.entries@[j].id)@ != id@,
            decreases self.entries@.len() - i,
        {
            if self.entries[i].id.eq(id) {
                proof {
                    lemma_find_skip(self.entries@, id@, i as int);
                }
                return Some(&self.entries[i].tileset);
            }
            i = i + 1;
        }
        proof {
            lemma_find_skip(self.entries@, id@, self.entries@.len() as int);
        }
        None
    }

    /// Inserts a tileset under an identifier: replaces the entry when the
    /// identifier is already present, appends a new entry otherwise. Every
    /// other identifier keeps its binding.
    pub fn insert(&mut self, id: String, tileset: TilesetAsset)
        requires
            old(self).wf(),
        ensures
            final(self).wf(),
            final(self).spec_get(id@) == Some(tileset),
            forall|other: Seq<char>|
                other != id@ ==> final(self).spec_get(other) == old(self).spec_get(other),
    {
        let ghost e0 = self.entries@;
        let mut i: usize = 0;
        while i < self.entries.len()
            invariant
                i <= e0.len(),
                e0 == self.entries@,
                e0 == old(self).entries@,
                old(self).wf(),
                forall|j: int| 0 <= j < i ==> (#[trigger] e0[j].id)@ != id@,
            decreases e0.len() - i,
        {
            if self.entries[i].id.eq(&id) {
                let entry = TilesetEntry { id, tileset };
                self.entries[i] = entry;
                proof {
                    let e1 = self.entries@;
                    assert(e1 == e0.update(i as int, TilesetEntry { id, tileset }));
                    lemma_find_skip(e1, id@, i as int);
                    assert(e1.skip(i as int).first() == e1[i as int]);
                    assert(spec_find_tileset(e1, id@) == Some(tileset));
                    assert forall|other: Seq<char>| other != id@ implies spec_find_tileset(
                        e1,
                        other,
                    ) == spec_find_tileset(e0, other) by {
                        lemma_find_elementwise(e0, e1, other);
                    }
                    assert forall|k: int, l: int| 0 <= k < l < e1.len() implies (
                    #[trigger] e1[k].id)@ != (#[trigger] e1[l].id)@ by {
                        assert(old(self).entries@[k].id@ != old(self).entries@[l].id@);
                        assert(e1[k].id@ == e0[k].id@);
                        assert(e1[l].id@ == e0[l].id@);
                    }
                }
                return ;
            }
            i = i + 1;
        }
        let entry = TilesetEntry { id, tileset };
        self.entries.push(entry);
        proof {
            let e1 = self.entries@;
            lemma_find_skip(e1, id@, e0.len() as int);
            assert(e1.skip(e0.len() as int).first() == e1[e0.len() as int]);
            assert(spec_find_tileset(e1, id@) == Some(tileset));
            assert forall|other: Seq<char>| other != id@ implies spec_find_tileset(e1, other)
                == spec_find_tileset(e0, other) by {
                lemma_find_prefix_extended(e0, e1, other);
            }
            assert forall|k: int, l: int| 0 <= k < l < e1.len() implies (#[trigger] e1[k].id)@
                != (#[trigger] e1[l].id)@ by {
                if l == e0.len() {
                    assert(e1[k].id@ == e0[k].id@);
                    assert(e1[l].id@ == id@);
                } else {
                    assert(old(self).entries@[k].id@ != old(self).entries@[l].id@);
                    assert(e1[k].id@ == e0[k].id@);
                    assert(e1[l].id@ == e0[l].id@);
                }
            }
        }
    }
}

/// Two entry lists that agree everywhere except at positions whose
/// identifier differs from `id` in both lists give `id` the same binding.
pub proof fn lemma_find_elementwise(e1: Seq<TilesetEntry>, e2: Seq<TilesetEntry>, id: Seq<char>)
    requires
        e1.len() == e2.len(),
        forall|j: int|
            0 <= j < e1.len() ==> (#[trigger] e1[j]) == e2[j] || (e1[j].id@ == e2[j].id@
                && e1[j].id@ != id),
    ensures
        spec_find_tileset(e1, id) == spec_find_tileset(e2, id),
    decreases e1.len(),
{
    if e1.len() > 0 {
        assert(e1[0] == e2[0] || (e1[0].id@ == e2[0].id@ && e1[0].id@ != id));
        if e1.first().id@ == id {
        } else {
            assert(e1.drop_first() =~= e1.skip(1));
            assert(e2.drop_first() =~= e2.skip(1));
            assert forall|j: int|
                0 <= j < e1.drop_first().len() implies (#[trigger] e1.drop_first()[j])
                == e2.drop_first()[j] || (e1.drop_first()[j].id@ == e2.drop_first()[j].id@
                && e1.drop_first()[j].id@ != id) by {
                assert(e1.drop_first()[j] == e1[j + 1]);
                assert(e2.drop_first()[j] == e2[j + 1]);
            }
            lemma_find_elementwise(e1.drop_first(), e2.drop_first(), id);
        }
    }
}

/// Extending an entry list at the end does not change the binding of an
/// identifier it already resolves, nor of one the new entry does not
/// carry.
proof fn lemma_find_prefix_extended(e0: Seq<TilesetEntry>, e1: Seq<TilesetEntry>, id: Seq<char>)
    requires
        e1.len() == e0.len() + 1,
        forall|j: int| 0 <= j < e0.len() ==> (#[trigger] e1[j]) == e0[j],
        e1.last().id@ != id,
    ensures
        spec_find_tileset(e1, id) == spec_find_tileset(e0, id),
    decreases e0.len(),
{
    if e0.len() == 0 {
        assert(e1.first().id@ != id);
        assert(e1.drop_first().len() == 0);
    } else {
        assert(e1.first() == e0.first());
        if e0.first().id@ == id {
        } else {
            assert forall|j: int|
                0 <= j < e0.drop_first().len() implies (#[trigger] e1.drop_first()[j])
                == e0.drop_first()[j] by {
                assert(e1.drop_first()[j] == e1[j + 1]);
                assert(e0.drop_first()[j] == e0[j + 1]);
            }
            assert(e1.drop_first().last() == e1.last());
            lemma_find_prefix_extended(e0.drop_first(), e1.drop_first(), id);
        }
    }
}


} // verus!
