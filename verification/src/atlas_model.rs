//! The mathematical model of the atlas: what it holds, its invariant, and
//! each operation as a function from one state to the next.

use vstd::prelude::*;
use crate::atlas::AtlasEntry;
use crate::tile::SdfTile;

verus! {

/// The code the rasterizer is asked for: the character itself if it is
/// ASCII, the question mark otherwise.
pub open spec fn glyph_code(ch: char) -> u8 {
    if (ch as u32) < 128 {
        ch as u8
    } else {
        63
    }
}

/// Number of occupied slots.
pub open spec fn occupancy(slots: Seq<Option<AtlasEntry>>) -> nat
    decreases slots.len(),
{
    if slots.len() == 0 {
        0
    } else {
        occupancy(slots.drop_last()) + if slots.last() is Some {
            1nat
        } else {
            0nat
        }
    }
}

/// `v` is an empty slot and no slot before it is empty.
pub open spec fn is_first_empty(slots: Seq<Option<AtlasEntry>>, v: int) -> bool {
    &&& 0 <= v < slots.len()
    &&& slots[v] is None
    &&& forall|j: int| 0 <= j < v ==> (#[trigger] slots[j]) is Some
}

/// Every slot is occupied, no entry was used before the one in slot `v`, and
/// every entry in a slot before `v` was used after it.
pub open spec fn is_least_recent(slots: Seq<Option<AtlasEntry>>, v: int) -> bool {
    &&& 0 <= v < slots.len()
    &&& forall|j: int| 0 <= j < slots.len() ==> (#[trigger] slots[j]) is Some
    &&& forall|j: int|
        0 <= j < slots.len() ==> slots[v].unwrap().last_used <= (#[trigger] slots[j]).unwrap().last_used
    &&& forall|j: int|
        0 <= j < v ==> slots[v].unwrap().last_used < (#[trigger] slots[j]).unwrap().last_used
}

/// `v` is the slot the next new glyph goes to: the first empty slot, or, if
/// none is empty, the least recently used one, the lowest index among equals.
pub open spec fn is_victim(slots: Seq<Option<AtlasEntry>>, v: int) -> bool {
    is_first_empty(slots, v) || is_least_recent(slots, v)
}

/// The texture after the tile `data` was copied into slot `slot` of a grid
/// of `dim` by `dim` tiles: the samples of that tile's square are the
/// tile's, all others keep their value.
pub open spec fn blit(pixels: Seq<u32>, dim: nat, slot: int, data: Seq<u32>) -> Seq<u32> {
    Seq::new(
        pixels.len(),
        |k: int|
            {
                let x = k % (dim * 32) as int;
                let y = k / (dim * 32) as int;
                if x / 32 == slot % (dim as int) && y / 32 == slot / (dim as int) {
                    data[(y % 32) * 32 + x % 32]
                } else {
                    pixels[k]
                }
            },
    )
}

/// What an atlas holds.
pub struct AtlasModel {
    /// Tiles per side.
    pub dim: nat,
    /// The slots, row by row.
    pub slots: Seq<Option<AtlasEntry>>,
    /// The texture, row by row.
    pub pixels: Seq<u32>,
    /// The logical clock.
    pub clock: nat,
}

impl AtlasModel {
    /// Number of tile slots.
    pub open spec fn capacity(self) -> nat {
        self.dim * self.dim
    }

    /// Width and height of the texture in samples.
    pub open spec fn texture_size(self) -> nat {
        self.dim * 32
    }

    /// Number of occupied slots.
    pub open spec fn occupied(self) -> nat {
        occupancy(self.slots)
    }

    /// Slot `i` holds the glyph of `ch`.
    pub open spec fn holds(self, i: int, ch: char) -> bool {
        &&& 0 <= i < self.slots.len()
        &&& self.slots[i] is Some
        &&& self.slots[i].unwrap().codepoint == ch
    }

    /// Some slot holds the glyph of `ch`.
    pub open spec fn contains(self, ch: char) -> bool {
        exists|i: int| self.holds(i, ch)
    }

    /// The slot that holds the glyph of `ch`.
    pub open spec fn slot_of(self, ch: char) -> int {
        choose|i: int| self.holds(i, ch)
    }

    /// The entry of `ch`, if its glyph is cached.
    pub open spec fn entry(self, ch: char) -> Option<AtlasEntry> {
        if self.contains(ch) {
            self.slots[self.slot_of(ch)]
        } else {
            None
        }
    }

    /// The slot the next new glyph goes to.
    pub open spec fn victim(self) -> int {
        choose|v: int| is_victim(self.slots, v)
    }

    /// The sample at column `x` of row `y`; zero outside the texture.
    pub open spec fn sample(self, x: int, y: int) -> u32 {
        if 0 <= x < self.texture_size() && 0 <= y < self.texture_size() {
            self.pixels[y * self.texture_size() + x]
        } else {
            0
        }
    }

    /// The invariant of every atlas: the grid is at most 16 by 16, slots and
    /// texture have the sizes the grid calls for, every entry lies in the
    /// slot its tile position names and was last used no later than now, no
    /// character is cached twice, and no two entries were last used at the
    /// same time.
    pub open spec fn inv(self) -> bool {
        &&& self.dim <= 16
        &&& self.slots.len() == self.dim * self.dim
        &&& self.pixels.len() == (self.dim * 32) * (self.dim * 32)
        &&& self.clock <= u32::MAX
        &&& forall|i: int|
            0 <= i < self.slots.len() && (#[trigger] self.slots[i]) is Some ==> {
                &&& self.slots[i].unwrap().tile_x == i % (self.dim as int)
                &&& self.slots[i].unwrap().tile_y == i / (self.dim as int)
                &&& self.slots[i].unwrap().last_used <= self.clock
            }
        &&& forall|i: int, j: int, ch: char|
            #![trigger self.holds(i, ch), self.holds(j, ch)]
            self.holds(i, ch) && self.holds(j, ch) ==> i == j
        &&& forall|i: int, j: int|
            #![trigger self.slots[i], self.slots[j]]
            0 <= i < self.slots.len() && 0 <= j < self.slots.len() && i != j && self.slots[i] is Some
                && self.slots[j] is Some ==> self.slots[i].unwrap().last_used
                != self.slots[j].unwrap().last_used
    }

    /// An atlas of `dim` by `dim` slots with nothing cached: every slot
    /// empty, every sample zero, the clock at zero.
    pub open spec fn empty(dim: nat) -> AtlasModel {
        AtlasModel {
            dim,
            slots: Seq::new(dim * dim, |i: int| None),
            pixels: Seq::new((dim * 32) * (dim * 32), |k: int| 0u32),
            clock: 0,
        }
    }

    /// The atlas after a lookup that found nothing: only the clock moved.
    pub open spec fn tick(self) -> AtlasModel {
        AtlasModel { clock: self.clock + 1, ..self }
    }

    /// The atlas after the cached glyph of `ch` was used: the clock moved,
    /// and the entry carries the new time.
    pub open spec fn touch(self, ch: char) -> AtlasModel {
        let i = self.slot_of(ch);
        AtlasModel {
            clock: self.clock + 1,
            slots: self.slots.update(i, Some(self.slots[i].unwrap().used_at(self.clock + 1))),
            ..self
        }
    }

    /// The entry a new glyph of `ch` gets in slot `slot` at time `time`.
    pub open spec fn new_entry(self, ch: char, slot: int, tile: SdfTile, time: nat) -> AtlasEntry {
        AtlasEntry {
            codepoint: ch,
            tile_x: (slot % (self.dim as int)) as u16,
            tile_y: (slot / (self.dim as int)) as u16,
            advance: tile.advance,
            lsb: tile.lsb,
            last_used: time as u32,
        }
    }

    /// The entry that describes the glyph of `ch`, not cached before, once
    /// it was rasterized as `tile`: the character, the tile's metrics, the
    /// time after the next tick, and the position of the victim slot. In an
    /// atlas without slots there is no such slot, and the position is the
    /// first column of the first row.
    pub open spec fn stored_entry(self, ch: char, tile: SdfTile) -> AtlasEntry {
        if self.capacity() == 0 {
            AtlasEntry {
                codepoint: ch,
                tile_x: 0,
                tile_y: 0,
                advance: tile.advance,
                lsb: tile.lsb,
                last_used: (self.clock + 1) as u32,
            }
        } else {
            self.new_entry(ch, self.victim(), tile, self.clock + 1)
        }
    }

    /// The atlas after the glyph of `ch`, not cached before, was stored: the
    /// clock moved, the tile was copied into the victim slot, and that slot
    /// describes the new glyph. An atlas without slots has nowhere to keep
    /// the glyph: only its clock moves.
    pub open spec fn place(self, ch: char, tile: SdfTile) -> AtlasModel {
        if self.capacity() == 0 {
            self.tick()
        } else {
            let v = self.victim();
            AtlasModel {
                dim: self.dim,
                slots: self.slots.update(v, Some(self.new_entry(ch, v, tile, self.clock + 1))),
                pixels: blit(self.pixels, self.dim, v, tile.data@),
                clock: self.clock + 1,
            }
        }
    }

    /// The atlas after the glyph of `ch` was asked for, where `tile` is what
    /// the rasterizer gives for it: a use if it was cached, a store if not.
    pub open spec fn fetch(self, ch: char, tile: SdfTile) -> AtlasModel {
        if self.contains(ch) {
            self.touch(ch)
        } else {
            self.place(ch, tile)
        }
    }

    /// The atlas after the glyphs of `chars` were asked for one after the
    /// other, where `tiles[i]` is what the rasterizer gives for `chars[i]`.
    pub open spec fn fetch_all(self, chars: Seq<char>, tiles: Seq<SdfTile>) -> AtlasModel
        decreases chars.len(),
    {
        if chars.len() == 0 {
            self
        } else {
            self.fetch_all(chars.drop_last(), tiles.drop_last()).fetch(
                chars.last(),
                tiles[chars.len() - 1],
            )
        }
    }
}

} // verus!
