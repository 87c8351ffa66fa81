//! The layered grid level: three parallel layers of optional tile
//! references over one tileset registry, with edit, auto-tile and
//! collision-probe operations.

use vstd::prelude::*;

use crate::tiles::{TileAsset, TileAutoRule, TileLayer};
use crate::num::floor_div;
use crate::tileset::{cut_grid, lemma_cut_grid_len, spec_find_tileset, TileImage, TilesetAsset, TilesetEntry, TilesetRegistry};
use crate::{TILE_COLLISION_SECTIONS, TILE_PORTION, TILE_SIZE};

use vstd::pervasive::unreached;

verus! {

/// Upper bound on row and column counts, so that grid coordinates and the
/// world coordinates derived from them always fit in `i64` arithmetic.
pub const MAX_GRID_DIM: usize = 0x7fff_ffff;

/// A reference into the tileset registry: tileset identifier and tile index.
pub struct TilePointer(pub String, pub usize);

impl Clone for TilePointer {
    /// Cloning keeps both the identifier and the index.
    fn clone(&self) -> (r: Self)
        ensures
            r == *self,
    {
        TilePointer(self.0.clone(), self.1)
    }
}

/// Bias subtracted from the facing boundary of a collision hit, so that a
/// box clamped to it does not re-trigger exactly on the boundary. One
/// coordinate unit: the smallest representable bias.
pub const SMALL: i64 = 1;

/// Magnitude bound on the world coordinates the collision probe accepts,
/// comfortably inside `i64` so that boundary arithmetic cannot overflow.
pub const COORD_LIMIT: i64 = 0x1000_0000_0000_0000;

/// A collision hit: the tile cell and the sub-cell of its collision
/// matrix that the probed point landed in. The four directional boundary
/// coordinates of the solid sub-cell derive from these.
#[derive(Clone, Copy, PartialEq, Eq, Structural, Debug)]
pub struct TileHitInfo {
    pub row: i64,
    pub col: i64,
    pub sub_row: i64,
    pub sub_col: i64,
}

impl TileHitInfo {
    /// The hit lies inside a well-formed grid: cell within `MAX_GRID_DIM`
    /// and sub-cell within the collision sections.
    pub open spec fn wf(self) -> bool {
        &&& 0 <= self.row <= MAX_GRID_DIM
        &&& 0 <= self.col <= MAX_GRID_DIM
        &&& 0 <= self.sub_row < TILE_COLLISION_SECTIONS
        &&& 0 <= self.sub_col < TILE_COLLISION_SECTIONS
    }

    /// World x of the solid sub-cell's left boundary, biased outward.
    pub open spec fn spec_from_left(self) -> int {
        self.col * TILE_SIZE + self.sub_col * TILE_PORTION - SMALL
    }

    /// World x of the solid sub-cell's right boundary: snapped to the
    /// sub-cell's own width, not the caller's entry depth.
    pub open spec fn spec_from_right(self) -> int {
        self.col * TILE_SIZE + self.sub_col * TILE_PORTION + TILE_PORTION
    }

    /// World y of the solid sub-cell's top boundary, biased outward.
    pub open spec fn spec_from_top(self) -> int {
        self.row * TILE_SIZE + self.sub_row * TILE_PORTION - SMALL
    }

    /// World y of the solid sub-cell's bottom boundary.
    pub open spec fn spec_from_bottom(self) -> int {
        self.row * TILE_SIZE + self.sub_row * TILE_PORTION + TILE_PORTION
    }

    /// World x of the solid sub-cell's left boundary, biased outward.
    pub fn from_left(&self) -> (x: i64)
        requires
            self.wf(),
        ensures
            x == self.spec_from_left(),
    {
        self.col * TILE_SIZE + self.sub_col * TILE_PORTION - SMALL
    }

    /// World x of the solid sub-cell's right boundary: snapped to the
    /// sub-cell's own width, not the caller's entry depth.
    pub fn from_right(&self) -> (x: i64)
        requires
            self.wf(),
        ensures
            x == self.spec_from_right(),
    {
        self.col * TILE_SIZE + self.sub_col * TILE_PORTION + TILE_PORTION
    }

    /// World y of the solid sub-cell's top boundary, biased outward.
    pub fn from_top(&self) -> (y: i64)
        requires
            self.wf(),
        ensures
            y == self.spec_from_top(),
    {
        self.row * TILE_SIZE + self.sub_row * TILE_PORTION - SMALL
    }

    /// World y of the solid sub-cell's bottom boundary.
    pub fn from_bottom(&self) -> (y: i64)
        requires
            self.wf(),
        ensures
            y == self.spec_from_bottom(),
    {
        self.row * TILE_SIZE + self.sub_row * TILE_PORTION + TILE_PORTION
    }
}

/// One layer of a level: rows of optional tile references.
pub type TileVec = Vec<Vec<Option<TilePointer>>>;

/// The mathematical content of one layer.
pub type GridModel = Seq<Seq<Option<TilePointer>>>;

/// The mathematical content of a `TileVec`.
pub open spec fn grid_view(g: TileVec) -> GridModel {
    g@.map_values(|row: Vec<Option<TilePointer>>| row@)
}

/// The grid has exactly `rows` rows of exactly `cols` cells each.
pub open spec fn grid_dims_ok(g: GridModel, rows: int, cols: int) -> bool {
    g.len() == rows && forall|r: int| 0 <= r < rows ==> (#[trigger] g[r]).len() == cols
}

/// One optional cell either is empty or holds a pointer that resolves
/// against the given registry entries.
pub open spec fn cell_ptr_ok(entries: Seq<TilesetEntry>, cell: Option<TilePointer>) -> bool {
    cell matches Some(p) ==> (match spec_find_tileset(entries, p.0@) {
        Some(ts) => p.1 < ts.tiles@.len(),
        None => false,
    })
}

/// Every cell of the grid satisfies `cell_ptr_ok`.
pub open spec fn grid_cells_ok(entries: Seq<TilesetEntry>, g: GridModel) -> bool {
    forall|r: int, c: int|
        0 <= r < g.len() && 0 <= c < g[r].len() ==> cell_ptr_ok(entries, #[trigger] g[r][c])
}

/// The mathematical content of a whole level.
#[verifier::ext_equal]
pub ghost struct LevelModel {
    pub rows: int,
    pub cols: int,
    pub background: GridModel,
    pub object: GridModel,
    pub overlay: GridModel,
    pub tilesets: Seq<TilesetEntry>,
}

impl LevelModel {
    /// The layer grid selected by `layer`.
    pub open spec fn layer(self, layer: TileLayer) -> GridModel {
        match layer {
            TileLayer::Background => self.background,
            TileLayer::Object => self.object,
            TileLayer::Overlay => self.overlay,
        }
    }

    /// The cell at (r, c) of the selected layer.
    pub open spec fn cell(self, layer: TileLayer, r: int, c: int) -> Option<TilePointer> {
        self.layer(layer)[r][c]
    }

    /// Registry lookup by tileset identifier.
    pub open spec fn find(self, id: Seq<char>) -> Option<TilesetAsset> {
        spec_find_tileset(self.tilesets, id)
    }

    /// The pointer names a tileset of the registry and a tile it holds.
    pub open spec fn ptr_valid(self, p: TilePointer) -> bool {
        match self.find(p.0@) {
            Some(ts) => p.1 < ts.tiles@.len(),
            None => false,
        }
    }

    /// The tile definition a valid pointer refers to.
    pub open spec fn tile_at(self, p: TilePointer) -> TileAsset
        recommends
            self.ptr_valid(p),
    {
        self.find(p.0@)->Some_0.tiles@[p.1 as int]
    }

    /// The three layers share the r x c extent, and the extent is small
    /// enough for exact `i64` coordinate arithmetic.
    pub open spec fn dims_ok(self) -> bool {
        &&& 0 <= self.rows <= MAX_GRID_DIM
        &&& 0 <= self.cols <= MAX_GRID_DIM
        &&& grid_dims_ok(self.background, self.rows, self.cols)
        &&& grid_dims_ok(self.object, self.rows, self.cols)
        &&& grid_dims_ok(self.overlay, self.rows, self.cols)
    }

    /// Well-formedness: consistent extents and every stored pointer
    /// resolving against the registry.
    pub open spec fn wf(self) -> bool {
        &&& self.dims_ok()
        &&& grid_cells_ok(self.tilesets, self.background)
        &&& grid_cells_ok(self.tilesets, self.object)
        &&& grid_cells_ok(self.tilesets, self.overlay)
    }

    /// Is the neighbor cell at (r, c) of the given layer present for the
    /// purposes of auto-tiling: in bounds, occupied, and holding a tile of
    /// the given group? An absent group matches an absent group.
    pub open spec fn neighbor_present(
        self,
        layer: TileLayer,
        r: int,
        c: int,
        group: Option<u8>,
    ) -> bool {
        &&& 0 <= r < self.rows
        &&& 0 <= c < self.cols
        &&& match self.cell(layer, r, c) {
            Some(p) => self.tile_at(p).group == group,
            None => false,
        }
    }

    /// The fully concrete neighbor-presence signature of cell (r, c):
    /// one slot per compass direction, in the fixed order
    /// NW, N, NE, E, SE, S, SW, W.
    pub open spec fn spec_signature(
        self,
        layer: TileLayer,
        r: int,
        c: int,
        group: Option<u8>,
    ) -> TileAutoRule {
        TileAutoRule {
            top_left: Some(self.neighbor_present(layer, r - 1, c - 1, group)),
            top: Some(self.neighbor_present(layer, r - 1, c, group)),
            top_right: Some(self.neighbor_present(layer, r - 1, c + 1, group)),
            right: Some(self.neighbor_present(layer, r, c + 1, group)),
            bottom_right: Some(self.neighbor_present(layer, r + 1, c + 1, group)),
            bottom: Some(self.neighbor_present(layer, r + 1, c, group)),
            bottom_left: Some(self.neighbor_present(layer, r + 1, c - 1, group)),
            left: Some(self.neighbor_present(layer, r, c - 1, group)),
        }
    }

    /// The model with one cell of one layer replaced.
    pub open spec fn with_cell(self, layer: TileLayer, r: int, c: int, v: Option<TilePointer>) -> LevelModel {
        let g = self.layer(layer).update(r, self.layer(layer)[r].update(c, v));
        match layer {
            TileLayer::Background => LevelModel { background: g, ..self },
            TileLayer::Object => LevelModel { object: g, ..self },
            TileLayer::Overlay => LevelModel { overlay: g, ..self },
        }
    }

    /// The value the cell at (r, c) of the given layer takes when it is
    /// re-resolved: an empty cell stays empty; an occupied cell is
    /// re-scored over its own tileset and keeps its pointer when no
    /// candidate qualifies.
    pub open spec fn resolved_cell(self, r: int, c: int, layer: TileLayer) -> Option<TilePointer> {
        match self.cell(layer, r, c) {
            None => None,
            Some(ptr) => {
                let t = self.tile_at(ptr);
                let tiles = self.find(ptr.0@)->Some_0.tiles@;
                match spec_best_index(tiles, t.group, self.spec_signature(t.layer, r, c, t.group)) {
                    Some(i) => Some(TilePointer(ptr.0, i as usize)),
                    None => Some(ptr),
                }
            },
        }
    }

    /// One propagation step: re-resolves the cell at (r, c) of the given
    /// layer if it lies inside the grid, and otherwise changes nothing.
    pub open spec fn ripple_step(self, r: int, c: int, layer: TileLayer) -> LevelModel {
        if 0 <= r < self.rows && 0 <= c < self.cols {
            self.with_cell(layer, r, c, self.resolved_cell(r, c, layer))
        } else {
            self
        }
    }

    /// The propagation ripple after an edit at (row, col): exactly the 8
    /// immediate neighbors are re-resolved, one after the other in compass
    /// order NW, N, NE, E, SE, S, SW, W — never the edited cell itself and
    /// never a second ring.
    pub open spec fn ripple(self, row: int, col: int, layer: TileLayer) -> LevelModel {
        self.ripple_step(row - 1, col - 1, layer).ripple_step(row - 1, col, layer).ripple_step(
            row - 1,
            col + 1,
            layer,
        ).ripple_step(row, col + 1, layer).ripple_step(row + 1, col + 1, layer).ripple_step(
            row + 1,
            col,
            layer,
        ).ripple_step(row + 1, col - 1, layer).ripple_step(row, col - 1, layer)
    }

    /// The collision probe at world point (x, y), against the object
    /// layer only: the point maps to a tile cell and a sub-cell of its
    /// collision matrix; the probe reports a hit exactly when the cell
    /// holds a tile whose matrix marks that sub-cell solid.
    pub open spec fn probe(self, x: int, y: int) -> Option<TileHitInfo> {
        let row = y / (TILE_SIZE as int);
        let col = x / (TILE_SIZE as int);
        if !(0 <= row < self.rows && 0 <= col < self.cols) {
            None
        } else {
            match self.cell(TileLayer::Object, row, col) {
                None => None,
                Some(ptr) => {
                    let t = self.tile_at(ptr);
                    match t.collision_matrix {
                        None => None,
                        Some(cm) => {
                            let sub_row = (y - row * (TILE_SIZE as int)) / (TILE_PORTION as int);
                            let sub_col = (x - col * (TILE_SIZE as int)) / (TILE_PORTION as int);
                            if cm.matrix[sub_row][sub_col] {
                                Some(TileHitInfo {
                                    row: row as i64,
                                    col: col as i64,
                                    sub_row: sub_row as i64,
                                    sub_col: sub_col as i64,
                                })
                            } else {
                                None
                            }
                        },
                    }
                },
            }
        }
    }

    /// The level after a placement edit at (row, col).
    ///
    /// With a concrete pointer, the cell mutated is the one of that tile's
    /// own declared layer; with `propagate` the pointer is first
    /// re-resolved against its tileset (keeping the chosen tile when no
    /// candidate qualifies) and the 8 neighbors ripple afterwards.
    ///
    /// With no pointer, all three layers at (row, col) are cleared
    /// simultaneously — this asymmetry (clear affects every layer, place
    /// affects one) is intentional editor behavior — and with `propagate`
    /// each layer then ripples in turn.
    pub open spec fn placed(
        self,
        row: int,
        col: int,
        ptr: Option<TilePointer>,
        propagate: bool,
    ) -> LevelModel {
        match ptr {
            Some(p) => {
                let t = self.tile_at(p);
                let chosen = if propagate {
                    match spec_best_index(
                        self.find(p.0@)->Some_0.tiles@,
                        t.group,
                        self.spec_signature(t.layer, row, col, t.group),
                    ) {
                        Some(i) => TilePointer(p.0, i as usize),
                        None => p,
                    }
                } else {
                    p
                };
                let m1 = self.with_cell(t.layer, row, col, Some(chosen));
                if propagate {
                    m1.ripple(row, col, t.layer)
                } else {
                    m1
                }
            },
            None => {
                let m1 = self.with_cell(TileLayer::Background, row, col, None).with_cell(
                    TileLayer::Object,
                    row,
                    col,
                    None,
                ).with_cell(TileLayer::Overlay, row, col, None);
                if propagate {
                    m1.ripple(row, col, TileLayer::Background).ripple(
                        row,
                        col,
                        TileLayer::Object,
                    ).ripple(row, col, TileLayer::Overlay)
                } else {
                    m1
                }
            },
        }
    }
}

/// A level: three parallel layers of tile references plus the registry
/// their pointers resolve against. All operations keep `wf()`.
pub struct Level {
    pub rows: usize,
    pub cols: usize,
    pub background: TileVec,
    pub object: TileVec,
    pub overlay: TileVec,
    pub tilesets: TilesetRegistry,
}

impl Level {
    /// The mathematical content of this level.
    pub open spec fn model(&self) -> LevelModel {
        LevelModel {
            rows: self.rows as int,
            cols: self.cols as int,
            background: grid_view(self.background),
            object: grid_view(self.object),
            overlay: grid_view(self.overlay),
            tilesets: self.tilesets.entries@,
        }
    }

    /// Well-formedness of the stored data, including registry uniqueness.
    pub open spec fn wf(&self) -> bool {
        self.model().wf() && self.tilesets.wf()
    }

    /// Builds a level from externally supplied, already decoded grid data.
    /// Returns `None` exactly when the data is inconsistent: extents that
    /// disagree or exceed `MAX_GRID_DIM`, or a stored pointer that does not
    /// resolve against the registry.
    pub fn new(
        rows: usize,
        cols: usize,
        background: TileVec,
        object: TileVec,
        overlay: TileVec,
        tilesets: TilesetRegistry,
    ) -> (r: Option<Level>)
        requires
            tilesets.wf(),
        ensures
            r matches Some(l) ==> {
                &&& l.wf()
                &&& l.rows == rows
                &&& l.cols == cols
                &&& l.background@ == background@
                &&& l.object@ == object@
                &&& l.overlay@ == overlay@
                &&& l.tilesets.entries@ == tilesets.entries@
            },
            r is Some <==> (LevelModel {
                rows: rows as int,
                cols: cols as int,
                background: grid_view(background),
                object: grid_view(object),
                overlay: grid_view(overlay),
                tilesets: tilesets.entries@,
            }).wf(),
    {
        if rows > MAX_GRID_DIM || cols > MAX_GRID_DIM {
            return None;
        }
        if !grid_ok(&background, rows, cols, &tilesets) {
            return None;
        }
        if !grid_ok(&object, rows, cols, &tilesets) {
            return None;
        }
        if !grid_ok(&overlay, rows, cols, &tilesets) {
            return None;
        }
        Some(Level { rows, cols, background, object, overlay, tilesets })
    }

    /// Read-only access to one of the three layers, dispatched by the
    /// closed layer enum.
    pub fn get_layer(&self, layer: &TileLayer) -> (r: &TileVec)
        ensures
            *r == (match *layer {
                TileLayer::Background => self.background,
                TileLayer::Object => self.object,
                TileLayer::Overlay => self.overlay,
            }),
            grid_view(*r) == self.model().layer(*layer),
    {
        match layer {
            TileLayer::Background => &self.background,
            TileLayer::Object => &self.object,
            TileLayer::Overlay => &self.overlay,
        }
    }

    /// Grows or shrinks all three layers to the new extent atomically. The
    /// top-left overlap with the previous extent is preserved verbatim and
    /// every newly created cell is empty.
    pub fn resize(&mut self, rows: usize, cols: usize)
        requires
            old(self).wf(),
            rows <= MAX_GRID_DIM,
            cols <= MAX_GRID_DIM,
        ensures
            final(self).wf(),
            final(self).rows == rows,
            final(self).cols == cols,
            final(self).tilesets == old(self).tilesets,
            forall|layer: TileLayer, r: int, c: int|
                0 <= r < rows && 0 <= c < cols ==> #[trigger] final(self).model().cell(layer, r, c)
                    == (if r < old(self).rows && c < old(self).cols {
                    old(self).model().cell(layer, r, c)
                } else {
                    None::<TilePointer>
                }),
    {
        let ghost m0 = self.model();
        resize_grid(&mut self.background, rows, cols);
        resize_grid(&mut self.object, rows, cols);
        resize_grid(&mut self.overlay, rows, cols);
        self.rows = rows;
        self.cols = cols;
        proof {
            lemma_resized_cells_ok(
                self.tilesets.entries@,
                m0.background,
                grid_view(self.background),
                m0.rows,
                m0.cols,
                rows as int,
                cols as int,
            );
            lemma_resized_cells_ok(
                self.tilesets.entries@,
                m0.object,
                grid_view(self.object),
                m0.rows,
                m0.cols,
                rows as int,
                cols as int,
            );
            lemma_resized_cells_ok(
                self.tilesets.entries@,
                m0.overlay,
                grid_view(self.overlay),
                m0.rows,
                m0.cols,
                rows as int,
                cols as int,
            );
            assert forall|layer: TileLayer, r: int, c: int|
                0 <= r < rows && 0 <= c < cols implies #[trigger] self.model().cell(layer, r, c)
                == (if r < m0.rows && c < m0.cols {
                m0.cell(layer, r, c)
            } else {
                None::<TilePointer>
            }) by {
                match layer {
                    TileLayer::Background => {},
                    TileLayer::Object => {},
                    TileLayer::Overlay => {},
                }
            }
        }
    }

    /// Resolves a valid pointer to its tile definition.
    pub fn get_tile(&self, ptr: &TilePointer) -> (t: &TileAsset)
        requires
            self.wf(),
            self.model().ptr_valid(*ptr),
        ensures
            *t == self.model().tile_at(*ptr),
    {
        match self.tilesets.get(&ptr.0) {
            Some(ts) => &ts.tiles[ptr.1],
            None => unreached(),
        }
    }

    /// Does the cell at the (possibly out-of-bounds) coordinates hold a
    /// tile of the given group?
    fn neighbor_matches(&self, layer: &TileLayer, row: i64, col: i64, group: Option<u8>) -> (b:
        bool)
        requires
            self.wf(),
        ensures
            b == self.model().neighbor_present(*layer, row as int, col as int, group),
    {
        if row < 0 || col < 0 {
            return false;
        }
        if (row as u64) >= (self.rows as u64) || (col as u64) >= (self.cols as u64) {
            return false;
        }
        let r = row as usize;
        let c = col as usize;
        let layer_vec = self.get_layer(layer);
        proof {
            assert(grid_view(*layer_vec).len() == self.rows);
            assert(grid_view(*layer_vec)[r as int] == layer_vec@[r as int]@);
        }
        match &layer_vec[r][c] {
            Some(ptr) => {
                let t = self.get_tile(ptr);
                option_u8_eq(t.group, group)
            },
            None => false,
        }
    }

    /// Builds the neighbor-presence signature of cell (row, col): for each
    /// of the 8 compass offsets, whether that neighbor holds a tile of the
    /// given group in the same layer.
    pub fn get_auto_tile_for_index(
        &self,
        row: usize,
        col: usize,
        layer: &TileLayer,
        group: Option<u8>,
    ) -> (r: TileAutoRule)
        requires
            self.wf(),
            row < self.rows,
            col < self.cols,
        ensures
            r == self.model().spec_signature(*layer, row as int, col as int, group),
    {
        let i_row = row as i64;
        let i_col = col as i64;
        TileAutoRule {
            top_left: Some(self.neighbor_matches(layer, i_row - 1, i_col - 1, group)),
            top: Some(self.neighbor_matches(layer, i_row - 1, i_col, group)),
            top_right: Some(self.neighbor_matches(layer, i_row - 1, i_col + 1, group)),
            right: Some(self.neighbor_matches(layer, i_row, i_col + 1, group)),
            bottom_right: Some(self.neighbor_matches(layer, i_row + 1, i_col + 1, group)),
            bottom: Some(self.neighbor_matches(layer, i_row + 1, i_col, group)),
            bottom_left: Some(self.neighbor_matches(layer, i_row + 1, i_col - 1, group)),
            left: Some(self.neighbor_matches(layer, i_row, i_col - 1, group)),
        }
    }

    /// Scores every tile of the tileset that shares the subject's group and
    /// declares a rule against the signature of cell (row, col), and picks
    /// the best candidate: on ties the last-enumerated candidate wins.
    /// Returns `None` when no candidate qualifies.
    pub fn find_best_tile_for_index(
        &self,
        row: usize,
        col: usize,
        tile: &TileAsset,
        tileset_id: &String,
    ) -> (r: Option<TilePointer>)
        requires
            self.wf(),
            row < self.rows,
            col < self.cols,
            self.model().find(tileset_id@) is Some,
        ensures
            ({
                let tiles = self.model().find(tileset_id@)->Some_0.tiles@;
                let sig = self.model().spec_signature(
                    tile.layer,
                    row as int,
                    col as int,
                    tile.group,
                );
                match spec_best_index(tiles, tile.group, sig) {
                    Some(i) => r matches Some(p) && p.0 == *tileset_id && p.1 == i,
                    None => r is None,
                }
            }),
    {
        let auto_rule = self.get_auto_tile_for_index(row, col, &tile.layer, tile.group);
        let ts = match self.tilesets.get(tileset_id) {
            Some(ts) => ts,
            None => unreached(),
        };
        let ghost tiles = ts.tiles@;
        let ghost sig = self.model().spec_signature(tile.layer, row as int, col as int, tile.group);
        let mut max_pts: usize = 0;
        let mut best: Option<TilePointer> = None;
        let mut idx: usize = 0;
        while idx < ts.tiles.len()
            invariant
                idx <= tiles.len(),
                tiles == ts.tiles@,
                sig == auto_rule,
                max_pts == scan_best(tiles, tile.group, sig, idx as int).0,
                (match scan_best(tiles, tile.group, sig, idx as int).1 {
                    Some(i) => best matches Some(p) && p.0 == *tileset_id && p.1 == i,
                    None => best is None,
                }),
            decreases tiles.len() - idx,
        {
            let possible = &ts.tiles[idx];
            if option_u8_eq(possible.group, tile.group) {
                match &possible.auto_rule {
                    Some(rule) => {
                        match rule.cmp(&auto_rule) {
                            Some(pts) => {
                                if pts >= max_pts {
                                    max_pts = pts;
                                    best = Some(TilePointer(tileset_id.clone(), idx));
                                }
                            },
                            None => {},
                        }
                    },
                    None => {},
                }
            }
            idx = idx + 1;
        }
        best
    }

    /// Overwrites one cell of one layer with an already validated value.
    fn set_cell(&mut self, layer: TileLayer, r: usize, c: usize, v: Option<TilePointer>)
        requires
            old(self).wf(),
            r < old(self).rows,
            c < old(self).cols,
            cell_ptr_ok(old(self).tilesets.entries@, v),
        ensures
            final(self).wf(),
            final(self).rows == old(self).rows,
            final(self).cols == old(self).cols,
            final(self).tilesets == old(self).tilesets,
            final(self).model() == old(self).model().with_cell(layer, r as int, c as int, v),
    {
        let ghost m0 = self.model();
        proof {
            assert(grid_view(self.background)[r as int] == self.background@[r as int]@);
            assert(grid_view(self.object)[r as int] == self.object@[r as int]@);
            assert(grid_view(self.overlay)[r as int] == self.overlay@[r as int]@);
        }
        match layer {
            TileLayer::Background => {
                self.background[r][c] = v;
            },
            TileLayer::Object => {
                self.object[r][c] = v;
            },
            TileLayer::Overlay => {
                self.overlay[r][c] = v;
            },
        }
        proof {
            let m1 = self.model();
            let mt = m0.with_cell(layer, r as int, c as int, v);
            match layer {
                TileLayer::Background => {
                    assert(m1.background =~~= mt.background);
                },
                TileLayer::Object => {
                    assert(m1.object =~~= mt.object);
                },
                TileLayer::Overlay => {
                    assert(m1.overlay =~~= mt.overlay);
                },
            }
            assert(m1 =~~= mt);
            lemma_with_cell_wf(m0, layer, r as int, c as int, v);
        }
    }

    /// Re-resolves the cell at the (possibly out-of-bounds) coordinates of
    /// the given layer, per `LevelModel::ripple_step`: an occupied cell is
    /// re-scored over its own tileset and replaced only when a candidate
    /// qualifies.
    fn resolve_neighbor(&mut self, r: i64, c: i64, layer_id: &TileLayer)
        requires
            old(self).wf(),
        ensures
            final(self).wf(),
            final(self).rows == old(self).rows,
            final(self).cols == old(self).cols,
            final(self).tilesets == old(self).tilesets,
            final(self).model() == old(self).model().ripple_step(r as int, c as int, *layer_id),
    {
        let ghost m0 = self.model();
        if r < 0 || c < 0 {
            return ;
        }
        if (r as u64) >= (self.rows as u64) || (c as u64) >= (self.cols as u64) {
            return ;
        }
        let rr = r as usize;
        let cc = c as usize;
        let layer_vec = self.get_layer(layer_id);
        proof {
            assert(grid_view(*layer_vec)[rr as int] == layer_vec@[rr as int]@);
        }
        let cur: Option<TilePointer> = match &layer_vec[rr][cc] {
            Some(p) => Some(p.clone()),
            None => None,
        };
        match cur {
            None => {
                proof {
                    lemma_with_cell_same(m0, *layer_id, rr as int, cc as int);
                }
            },
            Some(ptr) => {
                proof {
                    assert(cell_ptr_ok(
                        self.tilesets.entries@,
                        m0.cell(*layer_id, rr as int, cc as int),
                    ));
                }
                let t = *self.get_tile(&ptr);
                let best = self.find_best_tile_for_index(rr, cc, &t, &ptr.0);
                let ghost tiles = m0.find(ptr.0@)->Some_0.tiles@;
                let ghost sig = m0.spec_signature(t.layer, rr as int, cc as int, t.group);
                match best {
                    Some(new_ptr) => {
                        proof {
                            lemma_scan_best_props(tiles, t.group, sig, tiles.len() as int);
                            assert(cell_ptr_ok(self.tilesets.entries@, Some(new_ptr)));
                        }
                        self.set_cell(*layer_id, rr, cc, Some(new_ptr));
                        proof {
                            assert(Some(new_ptr) == m0.resolved_cell(rr as int, cc as int, *layer_id));
                        }
                    },
                    None => {
                        proof {
                            assert(m0.resolved_cell(rr as int, cc as int, *layer_id) == Some(ptr));
                            assert(m0.cell(*layer_id, rr as int, cc as int) == Some(ptr));
                            lemma_with_cell_same(m0, *layer_id, rr as int, cc as int);
                        }
                    },
                }
            },
        }
    }

    /// Re-resolves exactly the 8 immediate neighbors of (row, col) in the
    /// given layer, in compass order; no other cell changes.
    pub fn set_surrounding_tiles(&mut self, row: usize, col: usize, layer_id: &TileLayer)
        requires
            old(self).wf(),
            row < old(self).rows,
            col < old(self).cols,
        ensures
            final(self).wf(),
            final(self).rows == old(self).rows,
            final(self).cols == old(self).cols,
            final(self).tilesets == old(self).tilesets,
            final(self).model() == old(self).model().ripple(row as int, col as int, *layer_id),
    {
        let i_row = row as i64;
        let i_col = col as i64;
        self.resolve_neighbor(i_row - 1, i_col - 1, layer_id);
        self.resolve_neighbor(i_row - 1, i_col, layer_id);
        self.resolve_neighbor(i_row - 1, i_col + 1, layer_id);
        self.resolve_neighbor(i_row, i_col + 1, layer_id);
        self.resolve_neighbor(i_row + 1, i_col + 1, layer_id);
        self.resolve_neighbor(i_row + 1, i_col, layer_id);
        self.resolve_neighbor(i_row + 1, i_col - 1, layer_id);
        self.resolve_neighbor(i_row, i_col - 1, layer_id);
    }

    /// Applies one placement edit at (row, col), per `LevelModel::placed`:
    /// a concrete pointer goes to its tile's own declared layer (after
    /// re-resolution when `propagate` is set), an absent pointer clears
    /// all three layers; with `propagate` the 8 neighbors of the affected
    /// layer(s) are re-resolved afterwards.
    pub fn place_tile(&mut self, row: usize, col: usize, ptr: Option<TilePointer>, propagate: bool)
        requires
            old(self).wf(),
            row < old(self).rows,
            col < old(self).cols,
            ptr matches Some(p) ==> old(self).model().ptr_valid(p),
        ensures
            final(self).wf(),
            final(self).rows == old(self).rows,
            final(self).cols == old(self).cols,
            final(self).tilesets == old(self).tilesets,
            final(self).model() == old(self).model().placed(
                row as int,
                col as int,
                ptr,
                propagate,
            ),
    {
        let ghost m0 = self.model();
        match ptr {
            Some(p) => {
                let t = *self.get_tile(&p);
                let ghost tiles = m0.find(p.0@)->Some_0.tiles@;
                let ghost sig = m0.spec_signature(t.layer, row as int, col as int, t.group);
                let chosen: TilePointer = if propagate {
                    match self.find_best_tile_for_index(row, col, &t, &p.0) {
                        Some(np) => {
                            proof {
                                lemma_scan_best_props(tiles, t.group, sig, tiles.len() as int);
                            }
                            np
                        },
                        None => p,
                    }
                } else {
                    p
                };
                proof {
                    assert(cell_ptr_ok(self.tilesets.entries@, Some(chosen)));
                }
                let layer = t.layer;
                self.set_cell(layer, row, col, Some(chosen));
                if propagate {
                    self.set_surrounding_tiles(row, col, &layer);
                }
            },
            None => {
                self.set_cell(TileLayer::Background, row, col, None);
                self.set_cell(TileLayer::Object, row, col, None);
                self.set_cell(TileLayer::Overlay, row, col, None);
                if propagate {
                    self.set_surrounding_tiles(row, col, &TileLayer::Background);
                    self.set_surrounding_tiles(row, col, &TileLayer::Object);
                    self.set_surrounding_tiles(row, col, &TileLayer::Overlay);
                }
            },
        }
    }

    /// Registers a tileset under a fresh identifier. Existing identifiers
    /// keep their bindings, so every stored pointer stays valid.
    pub fn add_tileset(&mut self, id: String, tileset: TilesetAsset)
        requires
            old(self).wf(),
            old(self).model().find(id@) is None,
        ensures
            final(self).wf(),
            final(self).rows == old(self).rows,
            final(self).cols == old(self).cols,
            final(self).background@ == old(self).background@,
            final(self).object@ == old(self).object@,
            final(self).overlay@ == old(self).overlay@,
            final(self).model().find(id@) == Some(tileset),
            forall|other: Seq<char>|
                other != id@ ==> final(self).model().find(other) == old(self).model().find(other),
    {
        let ghost e0 = self.tilesets.entries@;
        self.tilesets.insert(id, tileset);
        proof {
            let e1 = self.tilesets.entries@;
            assert forall|g: GridModel|
                #![trigger grid_cells_ok(e1, g)]
                grid_cells_ok(e0, g) implies grid_cells_ok(e1, g) by {
                assert forall|r: int, c: int|
                    0 <= r < g.len() && 0 <= c < g[r].len() implies cell_ptr_ok(
                    e1,
                    #[trigger] g[r][c],
                ) by {
                    assert(cell_ptr_ok(e0, g[r][c]));
                    match g[r][c] {
                        Some(p) => {
                            assert(spec_find_tileset(e0, p.0@) is Some);
                            assert(p.0@ != id@) by {
                                assert(spec_find_tileset(e0, id@) is None);
                            }
                            assert(self.tilesets.spec_get(p.0@) == spec_find_tileset(
                                e0,
                                p.0@,
                            ));
                        },
                        None => {},
                    }
                }
            }
            assert(grid_cells_ok(e1, self.model().background));
            assert(grid_cells_ok(e1, self.model().object));
            assert(grid_cells_ok(e1, self.model().overlay));
            assert forall|other: Seq<char>| other != id@ implies self.model().find(other) == old(
                self,
            ).model().find(other) by {
                assert(self.tilesets.spec_get(other) == spec_find_tileset(e0, other));
            }
        }
    }

    /// Runs the tile cutter over the named tileset's texture pixels. The
    /// cutter only appends tiles or fills in collision matrices, so every
    /// stored pointer stays valid.
    pub fn cut_tileset(&mut self, id: &String, img: &TileImage)
        requires
            old(self).wf(),
            img.wf(),
            old(self).model().find(id@) is Some,
        ensures
            final(self).wf(),
            final(self).rows == old(self).rows,
            final(self).cols == old(self).cols,
            final(self).background@ == old(self).background@,
            final(self).object@ == old(self).object@,
            final(self).overlay@ == old(self).overlay@,
            final(self).model().find(id@) matches Some(ts) && ts.tiles@ == cut_grid(
                old(self).model().find(id@)->Some_0.tiles@,
                *img,
                (img.height as int) / (crate::TILE_PIXELS as int),
                (img.width as int) / (crate::TILE_PIXELS as int),
            ),
            forall|other: Seq<char>|
                other != id@ ==> final(self).model().find(other) == old(self).model().find(other),
    {
        let ghost e0 = self.tilesets.entries@;
        let mut i: usize = 0;
        while i < self.tilesets.entries.len()
            invariant
                i <= e0.len(),
                e0 == self.tilesets.entries@,
                e0 == old(self).tilesets.entries@,
                old(self).wf(),
                img.wf(),
                self.rows == old(self).rows,
                self.cols == old(self).cols,
                self.background@ == old(self).background@,
                self.object@ == old(self).object@,
                self.overlay@ == old(self).overlay@,
                spec_find_tileset(e0, id@) is Some,
                forall|j: int| 0 <= j < i ==> (#[trigger] e0[j].id)@ != id@,
            decreases e0.len() - i,
        {
            if self.tilesets.entries[i].id.eq(id) {
                proof {
                    crate::tileset::lemma_find_skip(e0, id@, i as int);
                    assert(e0.skip(i as int).first() == e0[i as int]);
                }
                let ghost old_tiles = e0[i as int].tileset.tiles@;
                self.tilesets.entries[i].tileset.cut(img);
                proof {
                    let e1 = self.tilesets.entries@;
                    let nrows = (img.height as int) / (crate::TILE_PIXELS as int);
                    let ncols = (img.width as int) / (crate::TILE_PIXELS as int);
                    assert(e1 == e0.update(i as int, e1[i as int]));
                    assert(e1[i as int].id == e0[i as int].id);
                    assert(e1[i as int].tileset.tiles@ == cut_grid(old_tiles, *img, nrows, ncols));
                    lemma_cut_grid_len(old_tiles, *img, nrows, ncols);
                    crate::tileset::lemma_find_skip(e1, id@, i as int);
                    assert(e1.skip(i as int).first() == e1[i as int]);
                    assert(spec_find_tileset(e1, id@) == Some(e1[i as int].tileset));
                    assert forall|other: Seq<char>| other != id@ implies spec_find_tileset(
                        e1,
                        other,
                    ) == spec_find_tileset(e0, other) by {
                        crate::tileset::lemma_find_elementwise(e0, e1, other);
                    }
                    assert forall|k: int, l: int| 0 <= k < l < e1.len() implies (
                    #[trigger] e1[k].id)@ != (#[trigger] e1[l].id)@ by {
                        assert(old(self).tilesets.entries@[k].id@ != old(
                            self,
                        ).tilesets.entries@[l].id@);
                        assert(e1[k].id@ == e0[k].id@);
                        assert(e1[l].id@ == e0[l].id@);
                    }
                    assert forall|g: GridModel|
                        #![trigger grid_cells_ok(e1, g)]
                        grid_cells_ok(e0, g) implies grid_cells_ok(e1, g) by {
                        assert forall|r: int, c: int|
                            0 <= r < g.len() && 0 <= c < g[r].len() implies cell_ptr_ok(
                            e1,
                            #[trigger] g[r][c],
                        ) by {
                            assert(cell_ptr_ok(e0, g[r][c]));
                            match g[r][c] {
                                Some(p) => {
                                    if p.0@ == id@ {
                                        assert(spec_find_tileset(e0, id@) == Some(
                                            e0[i as int].tileset,
                                        ));
                                    } else {
                                        assert(spec_find_tileset(e1, p.0@) == spec_find_tileset(
                                            e0,
                                            p.0@,
                                        ));
                                    }
                                },
                                None => {},
                            }
                        }
                    }
                    assert(grid_cells_ok(e1, self.model().background));
                    assert(grid_cells_ok(e1, self.model().object));
                    assert(grid_cells_ok(e1, self.model().overlay));
                }
                return ;
            }
            i = i + 1;
        }
        proof {
            crate::tileset::lemma_find_skip(e0, id@, e0.len() as int);
            assert(e0.skip(e0.len() as int).len() == 0);
            assert(false);
        }
    }

    /// Answers whether the world point (x, y) lies in solid geometry, at
    /// sub-tile precision, per `LevelModel::probe`.
    pub fn check_for_collision(&self, x: i64, y: i64) -> (r: Option<TileHitInfo>)
        requires
            self.wf(),
            -COORD_LIMIT <= x <= COORD_LIMIT,
            -COORD_LIMIT <= y <= COORD_LIMIT,
        ensures
            r == self.model().probe(x as int, y as int),
            r matches Some(h) ==> h.wf(),
    {
        let row = floor_div(y, TILE_SIZE);
        let col = floor_div(x, TILE_SIZE);
        if row < 0 || col < 0 {
            return None;
        }
        if (row as u64) >= (self.rows as u64) || (col as u64) >= (self.cols as u64) {
            return None;
        }
        let rr = row as usize;
        let cc = col as usize;
        proof {
            assert(grid_view(self.object)[rr as int] == self.object@[rr as int]@);
        }
        match &self.object[rr][cc] {
            None => None,
            Some(ptr) => {
                let t = self.get_tile(ptr);
                match &t.collision_matrix {
                    None => None,
                    Some(cm) => {
                        let local_y = y - row * TILE_SIZE;
                        let local_x = x - col * TILE_SIZE;
                        let sub_row = floor_div(local_y, TILE_PORTION);
                        let sub_col = floor_div(local_x, TILE_PORTION);
                        if cm.matrix[sub_row as usize][sub_col as usize] {
                            Some(TileHitInfo { row, col, sub_row, sub_col })
                        } else {
                            None
                        }
                    },
                }
            },
        }
    }
}

/// Checks that a grid has the given extent and that all its pointers
/// resolve against the registry.
fn grid_ok(g: &TileVec, rows: usize, cols: usize, reg: &TilesetRegistry) -> (b: bool)
    ensures
        b == (grid_dims_ok(grid_view(*g), rows as int, cols as int) && grid_cells_ok(
            reg.entries@,
            grid_view(*g),
        )),
{
    if g.len() != rows {
        return false;
    }
    let ghost gm = grid_view(*g);
    let mut r: usize = 0;
    while r < rows
        invariant
            r <= rows,
            g@.len() == rows,
            gm == grid_view(*g),
            forall|i: int| 0 <= i < r ==> (#[trigger] gm[i]).len() == cols,
            forall|i: int, j: int|
                0 <= i < r && 0 <= j < gm[i].len() ==> cell_ptr_ok(
                    reg.entries@,
                    #[trigger] gm[i][j],
                ),
        decreases rows - r,
    {
        let row = &g[r];
        if row.len() != cols {
            proof {
                assert(gm[r as int] == g@[r as int]@);
            }
            return false;
        }
        let mut c: usize = 0;
        while c < cols
            invariant
                c <= cols,
                g@.len() == rows,
                r < rows,
                gm == grid_view(*g),
                *row == g@[r as int],
                row@.len() == cols,
                forall|j: int|
                    0 <= j < c ==> cell_ptr_ok(reg.entries@, #[trigger] gm[r as int][j]),
            decreases cols - c,
        {
            proof {
                assert(gm[r as int] == g@[r as int]@);
            }
            match &row[c] {
                Some(ptr) => {
                    match reg.get(&ptr.0) {
                        Some(ts) => {
                            if ptr.1 >= ts.tiles.len() {
                                proof {
                                    assert(!cell_ptr_ok(reg.entries@, gm[r as int][c as int]));
                                }
                                return false;
                            }
                        },
                        None => {
                            proof {
                                assert(!cell_ptr_ok(reg.entries@, gm[r as int][c as int]));
                            }
                            return false;
                        },
                    }
                },
                None => {},
            }
            c = c + 1;
        }
        proof {
            assert(gm[r as int] == g@[r as int]@);
        }
        r = r + 1;
    }
    true
}

/// Brings one layer grid to the given extent: rows and cells beyond the
/// new extent are dropped, new rows and cells are empty, and the top-left
/// overlap is kept verbatim.
fn resize_grid(g: &mut TileVec, rows: usize, cols: usize)
    ensures
        grid_dims_ok(grid_view(*final(g)), rows as int, cols as int),
        forall|r: int, c: int|
            0 <= r < rows && 0 <= c < cols ==> #[trigger] grid_view(*final(g))[r][c] == (if r
                < old(g)@.len() && c < old(g)@[r]@.len() {
                old(g)@[r]@[c]
            } else {
                None::<TilePointer>
            }),
{
    let mut out: TileVec = Vec::new();
    let mut r: usize = 0;
    while r < rows
        invariant
            out@.len() == r,
            r <= rows,
            g@ == old(g)@,
            forall|i: int| 0 <= i < r ==> (#[trigger] out@[i])@.len() == cols,
            forall|i: int, j: int|
                0 <= i < r && 0 <= j < cols ==> #[trigger] out@[i]@[j] == (if i < g@.len() && j
                    < g@[i]@.len() {
                    g@[i]@[j]
                } else {
                    None::<TilePointer>
                }),
        decreases rows - r,
    {
        let mut fresh: Vec<Option<TilePointer>> = Vec::new();
        let mut c: usize = 0;
        while c < cols
            invariant
                fresh@.len() == c,
                c <= cols,
                r < rows,
                g@ == old(g)@,
                forall|j: int|
                    0 <= j < c ==> #[trigger] fresh@[j] == (if (r as int) < g@.len() && j < g@[r as int]@.len() {
                        g@[r as int]@[j]
                    } else {
                        None::<TilePointer>
                    }),
            decreases cols - c,
        {
            if r < g.len() {
                let row = &g[r];
                if c < row.len() {
                    match &row[c] {
                        Some(p) => fresh.push(Some(p.clone())),
                        None => fresh.push(None),
                    }
                } else {
                    fresh.push(None);
                }
            } else {
                fresh.push(None);
            }
            c = c + 1;
        }
        out.push(fresh);
        r = r + 1;
    }
    *g = out;
    proof {
        assert forall|i: int, j: int|
            0 <= i < rows && 0 <= j < cols implies #[trigger] grid_view(*g)[i][j] == (if i < old(
            g,
        )@.len() && j < old(g)@[i]@.len() {
            old(g)@[i]@[j]
        } else {
            None::<TilePointer>
        }) by {
            assert(grid_view(*g)[i] == g@[i]@);
        }
    }
}

/// A tile qualifies as an auto-tile candidate for a subject of the given
/// group and signature: same group, a declared rule, and no concrete-slot
/// disagreement with the signature.
pub open spec fn candidate_qualifies(t: TileAsset, group: Option<u8>, sig: TileAutoRule) -> bool {
    &&& t.group == group
    &&& t.auto_rule matches Some(rule) && rule.spec_cmp(sig) is Some
}

/// The score of a qualifying candidate: its count of agreeing concrete
/// slots against the signature.
pub open spec fn candidate_score(t: TileAsset, sig: TileAutoRule) -> int
    recommends
        t.auto_rule is Some,
{
    t.auto_rule->Some_0.points(sig)
}

/// State of the candidate scan after the first `n` tiles: the running
/// maximum score and the index of the current best candidate. A candidate
/// replaces the best when its score is greater than or equal to the
/// running maximum, so on ties the last-enumerated candidate wins.
pub open spec fn scan_best(
    tiles: Seq<TileAsset>,
    group: Option<u8>,
    sig: TileAutoRule,
    n: int,
) -> (int, Option<int>)
    decreases n,
{
    if n <= 0 {
        (0, None)
    } else {
        let prev = scan_best(tiles, group, sig, n - 1);
        if candidate_qualifies(tiles[n - 1], group, sig) && candidate_score(tiles[n - 1], sig)
            >= prev.0 {
            (candidate_score(tiles[n - 1], sig), Some(n - 1))
        } else {
            prev
        }
    }
}

/// The candidate the scan of the whole tileset selects, if any.
pub open spec fn spec_best_index(tiles: Seq<TileAsset>, group: Option<u8>, sig: TileAutoRule) -> Option<int> {
    scan_best(tiles, group, sig, tiles.len() as int).1
}

/// Compares two optional group identifiers.
fn option_u8_eq(a: Option<u8>, b: Option<u8>) -> (r: bool)
    ensures
        r == (a == b),
{
    match (a, b) {
        (Some(x), Some(y)) => x == y,
        (None, None) => true,
        _ => false,
    }
}

/// Replacing one in-range cell with a valid value keeps the model
/// well-formed.
proof fn lemma_with_cell_wf(
    m: LevelModel,
    layer: TileLayer,
    r: int,
    c: int,
    v: Option<TilePointer>,
)
    requires
        m.wf(),
        0 <= r < m.rows,
        0 <= c < m.cols,
        cell_ptr_ok(m.tilesets, v),
    ensures
        m.with_cell(layer, r, c, v).wf(),
{
    let m1 = m.with_cell(layer, r, c, v);
    let g0 = m.layer(layer);
    let g1 = m1.layer(layer);
    assert(g1 == g0.update(r, g0[r].update(c, v)));
    assert forall|i: int| 0 <= i < m.rows implies (#[trigger] g1[i]).len() == m.cols by {
        assert(g0[i].len() == m.cols);
    }
    assert forall|i: int, j: int|
        0 <= i < g1.len() && 0 <= j < g1[i].len() implies cell_ptr_ok(
        m.tilesets,
        #[trigger] g1[i][j],
    ) by {
        if i == r && j == c {
        } else {
            assert(g1[i][j] == g0[i][j]);
            assert(cell_ptr_ok(m.tilesets, g0[i][j]));
        }
    }
    match layer {
        TileLayer::Background => {},
        TileLayer::Object => {},
        TileLayer::Overlay => {},
    }
}

/// Replacing a cell with its own value changes nothing.
proof fn lemma_with_cell_same(m: LevelModel, layer: TileLayer, r: int, c: int)
    requires
        m.wf(),
        0 <= r < m.rows,
        0 <= c < m.cols,
    ensures
        m.with_cell(layer, r, c, m.cell(layer, r, c)) == m,
{
    let g0 = m.layer(layer);
    assert(g0[r].update(c, g0[r][c]) =~= g0[r]);
    assert(g0.update(r, g0[r]) =~= g0);
    assert(m.with_cell(layer, r, c, m.cell(layer, r, c)) =~~= m);
}

/// The scan that picks the best candidate never selects a disqualified
/// tile, always selects a qualifying one when any exists, and on ties
/// keeps the last-enumerated winner.
pub proof fn lemma_scan_best_props(tiles: Seq<TileAsset>, group: Option<u8>, sig: TileAutoRule, n: int)
    requires
        0 <= n <= tiles.len(),
    ensures
        ({
            let sb = scan_best(tiles, group, sig, n);
            &&& sb.0 >= 0
            &&& match sb.1 {
                Some(i) => {
                    &&& 0 <= i < n
                    &&& candidate_qualifies(tiles[i], group, sig)
                    &&& sb.0 == candidate_score(tiles[i], sig)
                    &&& forall|j: int|
                        0 <= j < n && candidate_qualifies(#[trigger] tiles[j], group, sig)
                            ==> candidate_score(tiles[j], sig) <= sb.0
                    &&& forall|j: int|
                        i < j < n && candidate_qualifies(#[trigger] tiles[j], group, sig)
                            ==> candidate_score(tiles[j], sig) < sb.0
                },
                None => {
                    &&& sb.0 == 0
                    &&& forall|j: int|
                        0 <= j < n ==> !candidate_qualifies(#[trigger] tiles[j], group, sig)
                },
            }
        }),
    decreases n,
{
    if n > 0 {
        lemma_scan_best_props(tiles, group, sig, n - 1);
        assert(candidate_score(tiles[n - 1], sig) >= 0);
    }
}

/// A grid whose cells each equal an in-range cell of a valid grid, or are
/// empty, is itself valid.
proof fn lemma_resized_cells_ok(
    entries: Seq<TilesetEntry>,
    g0: GridModel,
    g1: GridModel,
    rows0: int,
    cols0: int,
    rows1: int,
    cols1: int,
)
    requires
        grid_dims_ok(g0, rows0, cols0),
        grid_dims_ok(g1, rows1, cols1),
        grid_cells_ok(entries, g0),
        forall|r: int, c: int|
            0 <= r < rows1 && 0 <= c < cols1 ==> #[trigger] g1[r][c] == (if r < rows0 && c < cols0 {
                g0[r][c]
            } else {
                None::<TilePointer>
            }),
    ensures
        grid_cells_ok(entries, g1),
{
    assert forall|r: int, c: int|
        0 <= r < g1.len() && 0 <= c < g1[r].len() implies cell_ptr_ok(
        entries,
        #[trigger] g1[r][c],
    ) by {
        if r < rows0 && c < cols0 {
            assert(cell_ptr_ok(entries, g0[r][c]));
        }
    }
}

/// A probe against a well-formed level only ever reports hits inside the
/// grid, with sub-cell indices inside the collision sections.
pub proof fn lemma_probe_hit_wf(m: LevelModel, x: int, y: int)
    requires
        m.wf(),
    ensures
        m.probe(x, y) matches Some(h) ==> h.wf(),
{
    let row = y / (TILE_SIZE as int);
    let col = x / (TILE_SIZE as int);
    if m.probe(x, y) is Some {
        assert(y - row * (TILE_SIZE as int) == y % (TILE_SIZE as int));
        assert(x - col * (TILE_SIZE as int) == x % (TILE_SIZE as int));
    }
}

} // verus!
