//! Glyph atlas: a square grid of tile slots in one texture, filled on demand
//! and reused least-recently-used first.
//!
//! Every operation of `SdfAtlas` is specified as a function on `AtlasModel`.
//! The rasterizer is a value the atlas owns and calls on a miss; nothing is
//! assumed of the tiles it returns.

use vstd::prelude::*;
use vstd::arithmetic::div_mod::{lemma_fundamental_div_mod, lemma_fundamental_div_mod_converse};
use crate::atlas_laws::{
    lemma_empty, lemma_occupancy_bound, lemma_occupancy_update, lemma_place, lemma_slot_of,
    lemma_tick, lemma_touch, lemma_victim,
};
use crate::atlas_model::{
    blit, glyph_code, is_first_empty, is_least_recent, is_victim, occupancy, AtlasModel,
};
use crate::tile::{SdfTile, GLYPH_SDF_SIZE};

verus! {

/// Maximum atlas grid dimension (tiles per side).
pub const MAX_ATLAS_DIM: usize = 16;

/// One cached glyph: where its tile lies and what the layout needs of it.
#[derive(Debug, Clone, Copy, PartialEq, Eq, Structural)]
pub struct AtlasEntry {
    /// Character stored.
    pub codepoint: char,
    /// Tile column (0-based).
    pub tile_x: u16,
    /// Tile row (0-based).
    pub tile_y: u16,
    /// Advance width, as the bits of a single-precision number.
    pub advance: u32,
    /// Left side bearing, as the bits of a single-precision number.
    pub lsb: u32,
    /// Value of the atlas clock when the entry was last used.
    pub last_used: u32,
}

impl AtlasEntry {
    /// The entry with its time of last use replaced.
    pub open spec fn used_at(self, time: nat) -> AtlasEntry {
        AtlasEntry { last_used: time as u32, ..self }
    }

    /// Whether two entries describe the same glyph in the same place,
    /// whatever their times of last use.
    pub open spec fn same_glyph(self, other: AtlasEntry) -> bool {
        self.used_at(0) == other.used_at(0)
    }

    /// Column of the tile's first sample in the texture.
    pub fn texel_x(&self) -> (x: usize)
        ensures
            x == self.tile_x * 32,
    {
        self.tile_x as usize * GLYPH_SDF_SIZE
    }

    /// Row of the tile's first sample in the texture.
    pub fn texel_y(&self) -> (y: usize)
        ensures
            y == self.tile_y * 32,
    {
        self.tile_y as usize * GLYPH_SDF_SIZE
    }
}

/// The texture while a tile is being copied into the square at tile column
/// `tx` and tile row `ty`: the first `done` samples of the tile, row by row,
/// are in place.
spec fn blit_partial(
    pixels: Seq<u32>,
    width: int,
    tx: int,
    ty: int,
    data: Seq<u32>,
    done: int,
) -> Seq<u32> {
    Seq::new(
        pixels.len(),
        |k: int|
            {
                let x = k % width;
                let y = k / width;
                if x / 32 == tx && y / 32 == ty && (y % 32) * 32 + x % 32 < done {
                    data[(y % 32) * 32 + x % 32]
                } else {
                    pixels[k]
                }
            },
    )
}

/// Copying sample `row * 32 + col` of the tile to its place in the texture
/// puts one more sample in place.
proof fn lemma_blit_step(
    pixels: Seq<u32>,
    width: int,
    tx: int,
    ty: int,
    data: Seq<u32>,
    row: int,
    col: int,
)
    requires
        0 <= tx,
        0 <= ty,
        (tx + 1) * 32 <= width,
        (ty + 1) * 32 <= width,
        pixels.len() == width * width,
        0 <= row < 32,
        0 <= col < 32,
    ensures
        0 <= (ty * 32 + row) * width + (tx * 32 + col) < pixels.len(),
        blit_partial(pixels, width, tx, ty, data, row * 32 + col).update(
            (ty * 32 + row) * width + (tx * 32 + col),
            data[row * 32 + col],
        ) == blit_partial(pixels, width, tx, ty, data, row * 32 + col + 1),
{
    let x0 = tx * 32 + col;
    let y0 = ty * 32 + row;
    let dst = y0 * width + x0;
    let done = row * 32 + col;
    assert(0 <= dst < width * width) by (nonlinear_arith)
        requires
            0 <= x0 < width,
            0 <= y0 < width,
            dst == y0 * width + x0,
    ;
    lemma_fundamental_div_mod_converse(dst, width, y0, x0);
    let before = blit_partial(pixels, width, tx, ty, data, done);
    let after = blit_partial(pixels, width, tx, ty, data, done + 1);
    assert forall|k: int| 0 <= k < pixels.len() implies before.update(dst, data[done])[k]
        == after[k] by {
        let x = k % width;
        let y = k / width;
        if k != dst {
            if x / 32 == tx && y / 32 == ty && (y % 32) * 32 + x % 32 == done {
                lemma_fundamental_div_mod(k, width);
                assert(x == x0 && y == y0);
                assert(k == width * y0 + x0);
                assert(width * y0 == y0 * width) by (nonlinear_arith);
            }
        }
    }
    assert(before.update(dst, data[done]) =~= after);
}

/// The slot in column `tx` of row `ty` of a grid of `dim` columns.
proof fn lemma_slot_coordinates(slot: int, dim: int)
    requires
        0 < dim,
        0 <= slot < dim * dim,
    ensures
        0 <= slot % dim < dim,
        0 <= slot / dim < dim,
{
    lemma_fundamental_div_mod(slot, dim);
    assert(0 <= slot / dim < dim) by (nonlinear_arith)
        requires
            0 <= slot < dim * dim,
            0 < dim,
            slot == dim * (slot / dim) + slot % dim,
            0 <= slot % dim < dim,
    ;
}

/// Whether a rasterizer may be called with every glyph code.
pub open spec fn accepts_every_code<G: Fn(u8) -> SdfTile>(generator: G) -> bool {
    forall|code: u8| call_requires(generator, (code,))
}

/// SDF texture atlas with LRU eviction. `G` is the rasterizer: it is called
/// with a glyph code and returns the tile of that glyph.
pub struct SdfAtlas<G> {
    /// Tiles per side.
    dim: usize,
    /// The texture, row by row.
    pixels: Vec<u32>,
    /// One entry per tile slot, row by row.
    entries: Vec<Option<AtlasEntry>>,
    /// The rasterizer.
    generator: G,
    /// The logical clock.
    clock: u32,
    /// Number of occupied slots.
    occupied: usize,
}

impl<G> View for SdfAtlas<G> {
    type V = AtlasModel;

    closed spec fn view(&self) -> AtlasModel {
        AtlasModel {
            dim: self.dim as nat,
            slots: self.entries@,
            pixels: self.pixels@,
            clock: self.clock as nat,
        }
    }
}

impl<G: Fn(u8) -> SdfTile> SdfAtlas<G> {
    /// The rasterizer the atlas calls on a miss.
    pub closed spec fn generator(&self) -> G {
        self.generator
    }

    /// The slot counter agrees with the slots.
    pub closed spec fn counted(&self) -> bool {
        self.occupied == occupancy(self.entries@)
    }

    /// The atlas is well formed: its model meets the invariant, its slot
    /// counter is right, and its rasterizer accepts every glyph code.
    pub open spec fn wf(&self) -> bool {
        &&& self@.inv()
        &&& self.counted()
        &&& accepts_every_code(self.generator())
    }

    /// `tiles[j]` is a tile the rasterizer may return for `chars[j]`,
    /// wherever fetching `chars` one after the other finds `chars[j]` not
    /// cached; elsewhere the rasterizer is not called and `tiles[j]` is of
    /// no account.
    pub open spec fn rasterized(&self, chars: Seq<char>, tiles: Seq<SdfTile>) -> bool {
        &&& tiles.len() == chars.len()
        &&& forall|j: int|
            0 <= j < chars.len() && !self@.fetch_all(chars.take(j), tiles.take(j)).contains(
                chars[j],
            ) ==> call_ensures(self.generator(), (glyph_code(chars[j]),), #[trigger] tiles[j])
    }

    /// Creates an empty atlas of `dim` by `dim` slots, at most 16 by 16.
    pub fn new(dim: usize, generator: G) -> (atlas: Self)
        requires
            accepts_every_code(generator),
        ensures
            atlas.wf(),
            atlas@ == AtlasModel::empty(if dim > 16 { 16nat } else { dim as nat }),
            atlas.generator() == generator,
    {
        let dim: usize = if dim > MAX_ATLAS_DIM { MAX_ATLAS_DIM } else { dim };
        let tex_size: usize = dim * GLYPH_SDF_SIZE;
        assert(tex_size * tex_size <= 512 * 512) by (nonlinear_arith)
            requires tex_size <= 512;
        assert(dim * dim <= 256) by (nonlinear_arith)
            requires dim <= 16;
        let pixels: Vec<u32> = vec![0u32; tex_size * tex_size];
        let entries: Vec<Option<AtlasEntry>> = vec![None; dim * dim];
        let atlas = SdfAtlas { dim, pixels, entries, generator, clock: 0, occupied: 0 };
        proof {
            assert(atlas@.slots =~= AtlasModel::empty(dim as nat).slots);
            assert(atlas@.pixels =~= AtlasModel::empty(dim as nat).pixels);
            lemma_empty(dim as nat);
        }
        atlas
    }

    /// Width and height of the texture in samples.
    pub fn texture_size(&self) -> (size: usize)
        requires
            self.wf(),
        ensures
            size == self@.texture_size(),
    {
        self.dim * GLYPH_SDF_SIZE
    }

    /// Number of tile slots.
    pub fn capacity(&self) -> (n: usize)
        requires
            self.wf(),
        ensures
            n == self@.capacity(),
    {
        assert(self.dim * self.dim <= 256) by (nonlinear_arith)
            requires self.dim <= 16;
        self.dim * self.dim
    }

    /// Number of occupied tile slots.
    pub fn occupied(&self) -> (n: usize)
        requires
            self.wf(),
        ensures
            n == self@.occupied(),
    {
        self.occupied
    }

    /// Current value of the logical clock.
    pub fn clock(&self) -> (now: u32)
        ensures
            now == self@.clock,
    {
        self.clock
    }

    /// The texture, row by row.
    pub fn pixels(&self) -> (pixels: &[u32])
        ensures
            pixels@ == self@.pixels,
    {
        self.pixels.as_slice()
    }

    /// The first slot that holds the glyph of `ch`.
    fn position(&self, ch: char) -> (found: Option<usize>)
        ensures
            match found {
                Some(i) => self@.holds(i as int, ch),
                None => !self@.contains(ch),
            },
    {
        let mut i: usize = 0;
        while i < self.entries.len()
            invariant
                i <= self.entries@.len(),
                forall|j: int| 0 <= j < i ==> !self@.holds(j, ch),
            decreases self.entries@.len() - i,
        {
            match self.entries[i] {
                Some(e) => {
                    if e.codepoint == ch {
                        return Some(i);
                    }
                },
                None => {},
            }
            i = i + 1;
        }
        None
    }

    /// Replaces the rasterizer and drops every cached glyph: tiles made by
    /// the old rasterizer are not tiles of the new typeface.
    pub fn set_params(&mut self, generator: G)
        requires
            old(self).wf(),
            accepts_every_code(generator),
        ensures
            final(self).wf(),
            final(self)@ == AtlasModel::empty(old(self)@.dim),
            final(self)@.occupied() == 0,
            final(self).generator() == generator,
    {
        self.generator = generator;
        self.clear();
    }

    /// Drops every cached glyph: all slots empty, all samples zero, clock
    /// and count back at zero.
    pub fn clear(&mut self)
        requires
            old(self).wf(),
        ensures
            final(self).wf(),
            final(self)@ == AtlasModel::empty(old(self)@.dim),
            final(self)@.occupied() == 0,
            final(self).generator() == old(self).generator(),
    {
        let mut i: usize = 0;
        while i < self.entries.len()
            invariant
                old(self).wf(),
                i <= self.entries@.len(),
                self.entries@.len() == old(self).entries@.len(),
                forall|j: int| 0 <= j < i ==> (#[trigger] self.entries@[j]) is None,
                self.dim == old(self).dim,
                self.pixels == old(self).pixels,
                self.generator == old(self).generator,
            decreases self.entries@.len() - i,
        {
            self.entries[i] = None;
            i = i + 1;
        }
        let mut k: usize = 0;
        while k < self.pixels.len()
            invariant
                old(self).wf(),
                k <= self.pixels@.len(),
                self.pixels@.len() == old(self).pixels@.len(),
                forall|j: int| 0 <= j < k ==> (#[trigger] self.pixels@[j]) == 0,
                forall|j: int| 0 <= j < self.entries@.len() ==> (#[trigger] self.entries@[j]) is None,
                self.entries@.len() == old(self).entries@.len(),
                self.dim == old(self).dim,
                self.generator == old(self).generator,
            decreases self.pixels@.len() - k,
        {
            self.pixels[k] = 0;
            k = k + 1;
        }
        self.occupied = 0;
        self.clock = 0;
        proof {
            let empty = AtlasModel::empty(self.dim as nat);
            assert(self@.slots =~= empty.slots);
            assert(self@.pixels =~= empty.pixels);
            lemma_empty(self.dim as nat);
        }
    }

    /// Looks a character up and marks its glyph as used. The clock moves
    /// whether or not the glyph is cached; nothing else changes on a miss.
    pub fn lookup(&mut self, ch: char) -> (found: Option<AtlasEntry>)
        requires
            old(self).wf(),
            old(self)@.clock < u32::MAX,
        ensures
            final(self).wf(),
            final(self).generator() == old(self).generator(),
            old(self)@.contains(ch) ==> final(self)@ == old(self)@.touch(ch),
            !old(self)@.contains(ch) ==> final(self)@ == old(self)@.tick(),
            found == final(self)@.entry(ch),
            found is Some <==> old(self)@.contains(ch),
    {
        match self.position(ch) {
            Some(i) => {
                proof {
                    lemma_slot_of(self@, i as int, ch);
                }
                Some(self.touch_slot(i, ch))
            },
            None => {
                let ghost before = self@;
                self.clock = self.clock + 1;
                proof {
                    lemma_tick(before);
                    assert(self@ == before.tick());
                    assert(!self@.contains(ch)) by {
                        if self@.contains(ch) {
                            assert(before.holds(self@.slot_of(ch), ch));
                        }
                    }
                }
                None
            },
        }
    }

    /// The slot the next new glyph goes to: the first empty slot, or, if
    /// none is empty, the least recently used one, the lowest index among
    /// equals. Zero for an atlas without slots.
    pub fn find_slot(&self) -> (slot: usize)
        ensures
            self@.slots.len() > 0 ==> is_victim(self@.slots, slot as int),
            self@.slots.len() > 0 ==> slot == self@.victim(),
            self@.slots.len() == 0 ==> slot == 0,
    {
        let mut i: usize = 0;
        while i < self.entries.len()
            invariant
                i <= self.entries@.len(),
                forall|j: int| 0 <= j < i ==> (#[trigger] self.entries@[j]) is Some,
            decreases self.entries@.len() - i,
        {
            if self.entries[i].is_none() {
                proof {
                    assert(is_first_empty(self@.slots, i as int));
                    lemma_victim(self@);
                }
                return i;
            }
            i = i + 1;
        }
        let mut lru_idx: usize = 0;
        let mut lru_time: u32 = u32::MAX;
        let mut k: usize = 0;
        while k < self.entries.len()
            invariant
                k <= self.entries@.len(),
                forall|j: int| 0 <= j < self.entries@.len() ==> (#[trigger] self.entries@[j]) is Some,
                k == 0 ==> lru_idx == 0 && lru_time == u32::MAX,
                k > 0 ==> lru_idx < k,
                k > 0 ==> lru_time == self.entries@[lru_idx as int].unwrap().last_used || (lru_idx == 0
                    && lru_time == u32::MAX),
                forall|j: int| 0 <= j < k ==> lru_time <= (#[trigger] self.entries@[j]).unwrap().last_used,
                forall|j: int|
                    0 <= j < lru_idx ==> lru_time < (#[trigger] self.entries@[j]).unwrap().last_used,
            decreases self.entries@.len() - k,
        {
            match self.entries[k] {
                Some(e) => {
                    if e.last_used < lru_time {
                        lru_time = e.last_used;
                        lru_idx = k;
                    }
                },
                None => {},
            }
            k = k + 1;
        }
        proof {
            if self@.slots.len() > 0 {
                assert(is_least_recent(self@.slots, lru_idx as int));
                lemma_victim(self@);
            }
        }
        lru_idx
    }

    /// Copies a tile into the square of the texture at tile column
    /// `tile_x` and tile row `tile_y`.
    fn blit_tile(&mut self, tile_x: usize, tile_y: usize, tile: &SdfTile)
        requires
            old(self).dim <= 16,
            old(self).pixels@.len() == (old(self).dim * 32) * (old(self).dim * 32),
            tile_x < old(self).dim,
            tile_y < old(self).dim,
        ensures
            final(self).pixels@ == blit(
                old(self).pixels@,
                old(self).dim as nat,
                tile_y * old(self).dim + tile_x,
                tile.data@,
            ),
            final(self).dim == old(self).dim,
            final(self).entries == old(self).entries,
            final(self).generator == old(self).generator,
            final(self).clock == old(self).clock,
            final(self).occupied == old(self).occupied,
    {
        let tex_w: usize = self.dim * GLYPH_SDF_SIZE;
        let base_x: usize = tile_x * GLYPH_SDF_SIZE;
        let base_y: usize = tile_y * GLYPH_SDF_SIZE;
        let ghost start = self.pixels@;
        let ghost width = tex_w as int;
        let ghost tx = tile_x as int;
        let ghost ty = tile_y as int;
        proof {
            assert(start =~= blit_partial(start, width, tx, ty, tile.data@, 0));
        }
        let mut row: usize = 0;
        while row < GLYPH_SDF_SIZE
            invariant
                row <= 32,
                tex_w == self.dim * 32,
                width == tex_w,
                self.dim <= 16,
                tx == tile_x < self.dim,
                ty == tile_y < self.dim,
                base_x == tile_x * 32,
                base_y == tile_y * 32,
                start.len() == width * width,
                self.pixels@ == blit_partial(start, width, tx, ty, tile.data@, row * 32),
                self.dim == old(self).dim,
                self.entries == old(self).entries,
                self.generator == old(self).generator,
                self.clock == old(self).clock,
                self.occupied == old(self).occupied,
            decreases 32 - row,
        {
            let mut col: usize = 0;
            while col < GLYPH_SDF_SIZE
                invariant
                    row < 32,
                    col <= 32,
                    tex_w == self.dim * 32,
                    width == tex_w,
                    self.dim <= 16,
                    tx == tile_x < self.dim,
                    ty == tile_y < self.dim,
                    base_x == tile_x * 32,
                    base_y == tile_y * 32,
                    start.len() == width * width,
                    self.pixels@ == blit_partial(start, width, tx, ty, tile.data@, row * 32 + col),
                    self.dim == old(self).dim,
                    self.entries == old(self).entries,
                    self.generator == old(self).generator,
                    self.clock == old(self).clock,
                    self.occupied == old(self).occupied,
                decreases 32 - col,
            {
                proof {
                    lemma_blit_step(start, width, tx, ty, tile.data@, row as int, col as int);
                    assert(width * width <= 512 * 512) by (nonlinear_arith)
                        requires
                            0 <= width <= 512,
                    ;
                    assert((base_y + row) * tex_w <= 512 * 512) by (nonlinear_arith)
                        requires
                            base_y + row < 512,
                            tex_w <= 512,
                    ;
                }
                let src: usize = row * GLYPH_SDF_SIZE + col;
                let dst: usize = (base_y + row) * tex_w + (base_x + col);
                self.pixels[dst] = tile.data[src];
                col = col + 1;
            }
            row = row + 1;
        }
        proof {
            let slot = tile_y * self.dim + tile_x;
            lemma_fundamental_div_mod_converse(slot, self.dim as int, ty, tx);
            assert(self.pixels@ =~= blit(start, self.dim as nat, slot, tile.data@));
        }
    }

    /// Marks the glyph in slot `i` as used now.
    fn touch_slot(&mut self, i: usize, ch: char) -> (entry: AtlasEntry)
        requires
            old(self).wf(),
            old(self)@.clock < u32::MAX,
            old(self)@.holds(i as int, ch),
        ensures
            final(self).wf(),
            final(self).generator() == old(self).generator(),
            final(self)@ == old(self)@.touch(ch),
            final(self)@.entry(ch) == Some(entry),
    {
        let ghost before = self@;
        self.clock = self.clock + 1;
        let entry = self.entries[i].unwrap();
        let used = AtlasEntry { last_used: self.clock, ..entry };
        proof {
            lemma_slot_of(before, i as int, ch);
            lemma_touch(before, ch);
            lemma_occupancy_update(before.slots, i as int, Some(used));
        }
        self.entries[i] = Some(used);
        assert(self@.slots =~= before.touch(ch).slots);
        used
    }

    /// Stores the tile of a character whose glyph is not cached: the clock
    /// moves, the tile is copied into the victim slot, and the slot's entry
    /// describes the new glyph. Whatever the slot held before is gone. An
    /// atlas without slots keeps nothing: its clock moves, and the entry
    /// that is returned describes the glyph without being cached.
    pub fn insert_tile(&mut self, ch: char, tile: &SdfTile) -> (entry: AtlasEntry)
        requires
            old(self).wf(),
            !old(self)@.contains(ch),
            old(self)@.clock < u32::MAX,
        ensures
            final(self).wf(),
            final(self).generator() == old(self).generator(),
            final(self)@ == old(self)@.place(ch, *tile),
            entry == old(self)@.stored_entry(ch, *tile),
            old(self)@.capacity() > 0 ==> final(self)@.entry(ch) == Some(entry),
            old(self)@.capacity() == 0 ==> final(self)@.entry(ch) is None,
    {
        let ghost before = self@;
        if self.dim == 0 {
            proof {
                lemma_tick(before);
                assert(before.capacity() == 0);
            }
            self.clock = self.clock + 1;
            proof {
                assert(self@ == before.tick());
                assert(!self@.contains(ch)) by {
                    if self@.contains(ch) {
                        assert(self@.holds(self@.slot_of(ch), ch));
                    }
                }
            }
            return AtlasEntry {
                codepoint: ch,
                tile_x: 0,
                tile_y: 0,
                advance: tile.advance,
                lsb: tile.lsb,
                last_used: self.clock,
            };
        }
        proof {
            assert(before.capacity() > 0) by (nonlinear_arith)
                requires
                    before.capacity() == before.dim * before.dim,
                    before.dim > 0,
            ;
            lemma_place(before, ch, *tile);
            lemma_victim(before);
            lemma_occupancy_bound(before.slots);
            assert(before.capacity() <= 256) by (nonlinear_arith)
                requires
                    before.capacity() == before.dim * before.dim,
                    before.dim <= 16,
            ;
        }
        self.clock = self.clock + 1;
        let slot: usize = self.find_slot();
        proof {
            lemma_slot_coordinates(slot as int, self.dim as int);
            lemma_fundamental_div_mod(slot as int, self.dim as int);
            assert(self.dim * (slot / self.dim) == (slot / self.dim) * self.dim)
                by (nonlinear_arith);
        }
        let tile_x: usize = slot % self.dim;
        let tile_y: usize = slot / self.dim;
        self.blit_tile(tile_x, tile_y, tile);
        let entry = AtlasEntry {
            codepoint: ch,
            tile_x: tile_x as u16,
            tile_y: tile_y as u16,
            advance: tile.advance,
            lsb: tile.lsb,
            last_used: self.clock,
        };
        proof {
            lemma_occupancy_update(before.slots, slot as int, Some(entry));
        }
        if self.entries[slot].is_none() {
            self.occupied = self.occupied + 1;
        }
        self.entries[slot] = Some(entry);
        proof {
            assert(entry == before.new_entry(ch, slot as int, *tile, before.clock + 1));
            assert(self@.slots =~= before.place(ch, *tile).slots);
            assert(self@.pixels == before.place(ch, *tile).pixels);
        }
        entry
    }

    /// The code the rasterizer is asked for.
    fn fallback_code(ch: char) -> (code: u8)
        ensures
            code == glyph_code(ch),
    {
        let scalar: u32 = ch as u32;
        if scalar < 128 {
            scalar as u8
        } else {
            63
        }
    }

    /// The entry of a character, rasterizing and storing its glyph first if
    /// it is not cached. The clock moves once. On a hit nothing is
    /// rasterized and only the entry's time of last use changes. On a miss
    /// the rasterizer is called with the character's glyph code, and the
    /// tile it returns goes to the first empty slot, or, if the atlas is
    /// full, replaces the least recently used glyph. In an atlas without
    /// slots every call is a miss that caches nothing: the glyph is
    /// rasterized and described, and only the clock moves.
    pub fn get_or_insert(&mut self, ch: char) -> (entry: AtlasEntry)
        requires
            old(self).wf(),
            old(self)@.clock < u32::MAX,
        ensures
            final(self).wf(),
            final(self).generator() == old(self).generator(),
            old(self)@.contains(ch) ==> final(self)@ == old(self)@.touch(ch),
            !old(self)@.contains(ch) ==> exists|tile: SdfTile|
                call_ensures(old(self).generator(), (glyph_code(ch),), tile) && final(self)@ == old(
                    self,
                )@.place(ch, tile) && entry == old(self)@.stored_entry(ch, tile),
            old(self)@.capacity() > 0 ==> final(self)@.entry(ch) == Some(entry),
            old(self)@.capacity() == 0 ==> final(self)@.entry(ch) is None,
    {
        match self.position(ch) {
            Some(i) => {
                proof {
                    lemma_slot_of(self@, i as int, ch);
                    assert(self@.capacity() == self@.slots.len());
                }
                self.touch_slot(i, ch)
            },
            None => {
                let code = Self::fallback_code(ch);
                let tile = (self.generator)(code);
                let entry = self.insert_tile(ch, &tile);
                assert(call_ensures(old(self).generator(), (glyph_code(ch),), tile) && self@ == old(
                    self,
                )@.place(ch, tile) && entry == old(self)@.stored_entry(ch, tile));
                entry
            },
        }
    }

    /// Fetches the glyphs of `chars` one after the other.
    pub fn preload(&mut self, chars: &[char])
        requires
            old(self).wf(),
            old(self)@.clock + chars@.len() <= u32::MAX,
        ensures
            final(self).wf(),
            final(self).generator() == old(self).generator(),
            exists|tiles: Seq<SdfTile>|
                old(self).rasterized(chars@, tiles) && final(self)@ == old(self)@.fetch_all(
                    chars@,
                    tiles,
                ),
    {
        let ghost mut tiles: Seq<SdfTile> = Seq::empty();
        let mut i: usize = 0;
        proof {
            assert(chars@.take(0) =~= Seq::<char>::empty());
        }
        while i < chars.len()
            invariant
                i <= chars@.len(),
                old(self).wf(),
                self.wf(),
                self.generator() == old(self).generator(),
                self@.clock == old(self)@.clock + i,
                old(self)@.clock + chars@.len() <= u32::MAX,
                old(self).rasterized(chars@.take(i as int), tiles),
                self@ == old(self)@.fetch_all(chars@.take(i as int), tiles),
            decreases chars@.len() - i,
        {
            let ghost before = self@;
            let ghost done = chars@.take(i as int);
            let ghost cached = before.contains(chars@[i as int]);
            let ch = chars[i];
            self.get_or_insert(ch);
            proof {
                let tile = if cached {
                    arbitrary()
                } else {
                    choose|tile: SdfTile|
                        call_ensures(old(self).generator(), (glyph_code(ch),), tile) && self@
                            == before.place(ch, tile)
                };
                let next = chars@.take(i + 1);
                let grown = tiles.push(tile);
                assert(next.drop_last() =~= done);
                assert(grown.drop_last() =~= tiles);
                assert(self@ == before.fetch(ch, tile));
                assert(self@ == old(self)@.fetch_all(next, grown));
                assert forall|j: int|
                    0 <= j < next.len() && !old(self)@.fetch_all(
                        next.take(j),
                        grown.take(j),
                    ).contains(next[j]) implies call_ensures(
                    old(self).generator(),
                    (glyph_code(next[j]),),
                    #[trigger] grown[j],
                ) by {
                    assert(next.take(j) =~= done.take(j));
                    assert(grown.take(j) =~= tiles.take(j));
                    if j < i {
                        assert(grown[j] == tiles[j]);
                    } else {
                        assert(done.take(j) =~= done);
                        assert(tiles.take(j) =~= tiles);
                    }
                }
                tiles = grown;
            }
            i = i + 1;
        }
        proof {
            assert(chars@.take(i as int) =~= chars@);
        }
    }

    /// The entry of `ch`, if its glyph is cached. The clock and the times of
    /// last use stay as they are.
    pub fn peek(&self, ch: char) -> (found: Option<&AtlasEntry>)
        requires
            self.wf(),
        ensures
            match found {
                Some(entry) => self@.entry(ch) == Some(*entry),
                None => self@.entry(ch) is None,
            },
            found is Some <==> self@.contains(ch),
    {
        match self.position(ch) {
            Some(i) => {
                proof {
                    lemma_slot_of(self@, i as int, ch);
                }
                self.entries[i].as_ref()
            },
            None => None,
        }
    }

    /// Whether the glyph of `ch` is cached.
    pub fn contains(&self, ch: char) -> (cached: bool)
        ensures
            cached == self@.contains(ch),
    {
        self.position(ch).is_some()
    }

    /// The sample at column `tex_x` of row `tex_y`; zero outside the
    /// texture.
    pub fn sample(&self, tex_x: usize, tex_y: usize) -> (bits: u32)
        requires
            self.wf(),
        ensures
            bits == self@.sample(tex_x as int, tex_y as int),
    {
        let tex_w: usize = self.texture_size();
        if tex_x >= tex_w || tex_y >= tex_w {
            return 0;
        }
        assert(tex_y * tex_w + tex_x < tex_w * tex_w <= 512 * 512) by (nonlinear_arith)
            requires
                tex_x < tex_w,
                tex_y < tex_w,
                tex_w <= 512,
        ;
        self.pixels[tex_y * tex_w + tex_x]
    }
}

} // verus!
