use alice_font::rsqrt::{rsqrt_seed, RSQRT_MAGIC};
use alice_font::skeleton::{GlyphSkeleton, StrokeBits, MAX_GLYPH_STROKES};
use alice_font::tile::{SdfTile, DEFAULT_ADVANCE_BITS};

/// A straight line as a degenerate cubic: control points at one and two
/// thirds of the way.
fn line(start: (f32, f32), end: (f32, f32)) -> StrokeBits {
    let lerp = |t: f32| (start.0 + (end.0 - start.0) * t, start.1 + (end.1 - start.1) * t);
    let bits = |p: (f32, f32)| (p.0.to_bits(), p.1.to_bits());
    StrokeBits { start: bits(start), control_a: bits(lerp(1.0 / 3.0)), control_b: bits(lerp(2.0 / 3.0)), end: bits(end) }
}

#[test]
fn glyph_test_glyph_sdf_empty() {
    let sdf = SdfTile::empty();
    let x = (0.5 * (32 - 1) as f32) as usize;
    let y = (0.5 * (32 - 1) as f32) as usize;
    assert!(f32::from_bits(sdf.sample_at(x, y)) > 0.0);
}

#[test]
fn mod_test_glyph_sdf_empty() {
    let sdf = SdfTile::empty();
    let x = (0.5 * (32 - 1) as f32) as usize;
    let y = (0.5 * (32 - 1) as f32) as usize;
    assert!(f32::from_bits(sdf.sample_at(x, y)) > 0.0);
}

#[test]
fn glyph_test_glyph_skeleton_add_stroke() {
    let mut skel = GlyphSkeleton::empty();
    assert_eq!(skel.stroke_count, 0);
    skel.add_stroke(line((0.0, 0.0), (1.0, 0.0)));
    assert_eq!(skel.stroke_count, 1);
}

#[test]
fn mod_test_glyph_skeleton_add_stroke() {
    let mut skel = GlyphSkeleton::empty();
    assert_eq!(skel.stroke_count, 0);
    skel.add_stroke(line((0.0, 0.0), (1.0, 0.0)));
    assert_eq!(skel.stroke_count, 1);
}

#[test]
fn test_max_glyph_strokes_increased() {
    assert_eq!(MAX_GLYPH_STROKES, 16);
    let skel = GlyphSkeleton::empty();
    assert_eq!(skel.strokes.len(), 16);
}

#[test]
fn test_empty_skeleton() {
    let skel = GlyphSkeleton::empty();
    assert_eq!(skel.stroke_count, 0);
    assert_eq!(skel.advance, DEFAULT_ADVANCE_BITS);
    assert_eq!(f32::from_bits(skel.advance), 0.5);
    let blank = line((0.0, 0.0), (0.0, 0.0));
    assert_eq!(blank, StrokeBits { start: (0, 0), control_a: (0, 0), control_b: (0, 0), end: (0, 0) });
    assert!(skel.strokes.iter().all(|s| *s == blank));
}

#[test]
fn test_strokes_keep_their_order() {
    let mut skel = GlyphSkeleton::empty();
    skel.advance = 0.3f32.to_bits();
    let strokes: Vec<StrokeBits> =
        (0..5).map(|i| line((i as f32, 0.0), (i as f32, 1.0))).collect();
    for s in &strokes {
        skel.add_stroke(*s);
    }
    assert_eq!(skel.stroke_count, 5);
    assert_eq!(&skel.strokes[..5], &strokes[..]);
    assert_eq!(skel.advance, 0.3f32.to_bits());
}

#[test]
fn test_seventeenth_stroke_is_dropped() {
    let mut skel = GlyphSkeleton::empty();
    for i in 0..16 {
        skel.add_stroke(line((i as f32, 0.0), (i as f32, 1.0)));
        assert_eq!(skel.stroke_count, i + 1);
    }
    let full = skel;
    skel.add_stroke(line((99.0, 0.0), (99.0, 1.0)));
    assert_eq!(skel.stroke_count, 16);
    assert_eq!(skel.strokes, full.strokes);
    assert_eq!(skel.advance, full.advance);
    assert_eq!(skel.strokes[15], line((15.0, 0.0), (15.0, 1.0)));
}

#[test]
fn test_rsqrt_seed_values() {
    assert_eq!(rsqrt_seed(0), RSQRT_MAGIC);
    assert_eq!(rsqrt_seed(1.0f32.to_bits()), 0x3f77_59df);
    assert_eq!(rsqrt_seed(0x7FFF_FFFF), 0x1f37_59e0);
    assert_eq!(rsqrt_seed(4.0f32.to_bits()), 0x5f37_59df - 0x2040_0000);
}

#[test]
fn test_rsqrt_seed_refines_to_the_square_root() {
    for x in [0.25f32, 1.0, 2.0, 9.0, 1.0e-6, 12345.0] {
        let half = 0.5 * x;
        let y = f32::from_bits(rsqrt_seed(x.to_bits()));
        let y = y * (1.5 - half * y * y);
        let y = y * (1.5 - half * y * y);
        let root = x * y;
        assert!((root - x.sqrt()).abs() <= 1.0e-5 * x.sqrt());
    }
}
