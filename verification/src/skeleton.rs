//! Glyph skeletons: the bounded list of strokes a glyph is drawn from.
//!
//! Coordinates and the advance are single-precision numbers held as their
//! bits; the list stores them and never computes with them.

use vstd::prelude::*;
use crate::tile::DEFAULT_ADVANCE_BITS;

verus! {

/// Maximum strokes per glyph.
pub const MAX_GLYPH_STROKES: usize = 16;

/// The four control points of a cubic stroke, each as the bits of its `x`
/// and `y`.
#[derive(Debug, Clone, Copy, PartialEq, Eq)]
pub struct StrokeBits {
    /// Start point.
    pub start: (u32, u32),
    /// First control point.
    pub control_a: (u32, u32),
    /// Second control point.
    pub control_b: (u32, u32),
    /// End point.
    pub end: (u32, u32),
}

impl StrokeBits {
    /// The stroke that starts, bends and ends at the origin.
    pub open spec fn blank() -> StrokeBits {
        StrokeBits { start: (0, 0), control_a: (0, 0), control_b: (0, 0), end: (0, 0) }
    }
}

/// The strokes that compose a character, at most sixteen, and its advance.
#[derive(Debug, Clone, Copy)]
pub struct GlyphSkeleton {
    /// Storage for the strokes; the first `stroke_count` are in use.
    pub strokes: [StrokeBits; 16],
    /// Number of strokes in use.
    pub stroke_count: usize,
    /// Advance width in em units.
    pub advance: u32,
}

impl View for GlyphSkeleton {
    type V = Seq<StrokeBits>;

    /// The strokes in use, in the order they were added.
    open spec fn view(&self) -> Seq<StrokeBits> {
        self.strokes@.take(self.stroke_count as int)
    }
}

impl GlyphSkeleton {
    /// A skeleton without strokes and with the default advance.
    pub fn empty() -> (skeleton: Self)
        ensures
            skeleton.stroke_count == 0,
            skeleton@ == Seq::<StrokeBits>::empty(),
            skeleton.advance == DEFAULT_ADVANCE_BITS,
            forall|i: int| 0 <= i < 16 ==> skeleton.strokes@[i] == StrokeBits::blank(),
    {
        let blank = StrokeBits { start: (0, 0), control_a: (0, 0), control_b: (0, 0), end: (0, 0) };
        let skeleton = GlyphSkeleton {
            strokes: [blank; 16],
            stroke_count: 0,
            advance: DEFAULT_ADVANCE_BITS,
        };
        assert(skeleton@ =~= Seq::<StrokeBits>::empty());
        skeleton
    }

    /// Adds a stroke at the end of the list. A skeleton that already has
    /// sixteen strokes stays as it is: the stroke is dropped.
    pub fn add_stroke(&mut self, stroke: StrokeBits)
        ensures
            final(self).advance == old(self).advance,
            old(self).stroke_count < 16 ==> {
                &&& final(self).stroke_count == old(self).stroke_count + 1
                &&& final(self).strokes@ == old(self).strokes@.update(
                    old(self).stroke_count as int,
                    stroke,
                )
                &&& final(self)@ == old(self)@.push(stroke)
            },
            old(self).stroke_count >= 16 ==> *final(self) == *old(self),
    {
        if self.stroke_count < MAX_GLYPH_STROKES {
            self.strokes[self.stroke_count] = stroke;
            self.stroke_count = self.stroke_count + 1;
            assert(self@ =~= old(self)@.push(stroke));
        }
    }
}

} // verus!
