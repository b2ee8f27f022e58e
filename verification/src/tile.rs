//! Rasterized glyph tiles as the atlas receives them.
//!
//! A distance sample or a metric is an IEEE-754 single-precision number held
//! as its 32 bits. The atlas stores and moves these values and never
//! computes with them, so the bits are all it needs.

use vstd::prelude::*;

verus! {

/// Width and height of a glyph tile in samples.
pub const GLYPH_SDF_SIZE: usize = 32;

/// Number of samples in a glyph tile.
pub const TILE_SAMPLES: usize = 1024;

/// The bits of `1.0`: a sample one em outside the glyph.
pub const OUTSIDE_BITS: u32 = 0x3F80_0000;

/// The bits of `0.5`: the advance of a glyph without strokes.
pub const DEFAULT_ADVANCE_BITS: u32 = 0x3F00_0000;

/// One rasterized glyph: a 32 by 32 grid of signed distances, row by row,
/// with the metrics the layout needs.
#[derive(Debug, Clone, Copy, PartialEq, Eq)]
pub struct SdfTile {
    /// Signed distances, row-major; negative inside the glyph.
    pub data: [u32; 1024],
    /// Advance width in em units.
    pub advance: u32,
    /// Left side bearing in em units.
    pub lsb: u32,
}

impl SdfTile {
    /// The sample at column `x` of row `y`.
    pub open spec fn at(self, x: int, y: int) -> u32 {
        self.data@[y * 32 + x]
    }

    /// A tile that lies outside the glyph everywhere, with the default
    /// advance and no bearing.
    pub fn empty() -> (tile: Self)
        ensures
            forall|i: int| 0 <= i < 1024 ==> tile.data@[i] == OUTSIDE_BITS,
            tile.advance == DEFAULT_ADVANCE_BITS,
            tile.lsb == 0,
    {
        SdfTile { data: [OUTSIDE_BITS; 1024], advance: DEFAULT_ADVANCE_BITS, lsb: 0 }
    }

    /// The sample at column `x` of row `y`; coordinates past the last column
    /// or row read the last one.
    pub fn sample_at(&self, x: usize, y: usize) -> (bits: u32)
        ensures
            bits == self.at(
                if x >= 32 { 31 } else { x as int },
                if y >= 32 { 31 } else { y as int },
            ),
    {
        let x: usize = if x >= GLYPH_SDF_SIZE { GLYPH_SDF_SIZE - 1 } else { x };
        let y: usize = if y >= GLYPH_SDF_SIZE { GLYPH_SDF_SIZE - 1 } else { y };
        self.data[y * GLYPH_SDF_SIZE + x]
    }
}

} // verus!
