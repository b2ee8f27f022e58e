use alice_font::atlas::{AtlasEntry, SdfAtlas, MAX_ATLAS_DIM};
use alice_font::tile::{SdfTile, DEFAULT_ADVANCE_BITS, GLYPH_SDF_SIZE, OUTSIDE_BITS, TILE_SAMPLES};
use std::cell::Cell;

/// A stand-in rasterizer: every sample and metric of the tile tells which
/// glyph code it was made for.
fn regular(code: u8) -> SdfTile {
    let mut data = [0u32; TILE_SAMPLES];
    for (i, d) in data.iter_mut().enumerate() {
        *d = (code as f32 + i as f32 / 1024.0 - 0.5).to_bits();
    }
    SdfTile { data, advance: (0.25 + code as f32 / 256.0).to_bits(), lsb: (code as f32 / 1024.0).to_bits() }
}

/// A second stand-in, for a heavier typeface: wider advances.
fn bold(code: u8) -> SdfTile {
    let mut tile = regular(code);
    tile.advance = (0.5 + code as f32 / 256.0).to_bits();
    tile
}

fn new_atlas(dim: usize) -> SdfAtlas<fn(u8) -> SdfTile> {
    SdfAtlas::new(dim, regular as fn(u8) -> SdfTile)
}

fn advance_of(entry: &AtlasEntry) -> f32 {
    f32::from_bits(entry.advance)
}

fn sample_of(atlas: &SdfAtlas<fn(u8) -> SdfTile>, x: usize, y: usize) -> f32 {
    f32::from_bits(atlas.sample(x, y))
}

#[test]
fn test_atlas_creation() {
    let atlas = new_atlas(4);
    assert_eq!(atlas.texture_size(), 4 * GLYPH_SDF_SIZE);
    assert_eq!(atlas.capacity(), 16);
    assert_eq!(atlas.occupied(), 0);
}

#[test]
fn test_atlas_max_dim() {
    let atlas = new_atlas(999);
    assert_eq!(atlas.texture_size() / GLYPH_SDF_SIZE, MAX_ATLAS_DIM);
    assert_eq!(atlas.capacity(), MAX_ATLAS_DIM * MAX_ATLAS_DIM);
}

#[test]
fn test_atlas_insert_and_lookup() {
    let mut atlas = new_atlas(4);
    let entry = atlas.get_or_insert('A');
    assert_eq!(entry.codepoint, 'A');
    assert!(advance_of(&entry) > 0.0);
    assert_eq!(atlas.occupied(), 1);

    let found = atlas.lookup('A');
    assert!(found.is_some());
    assert_eq!(found.unwrap().codepoint, 'A');
}

#[test]
fn test_atlas_uv_coordinates() {
    let mut atlas = new_atlas(4);
    let entry = atlas.get_or_insert('A');
    let inv_tex = 1.0 / atlas.texture_size() as f32;
    let uv_x = entry.texel_x() as f32 * inv_tex;
    let uv_y = entry.texel_y() as f32 * inv_tex;
    let uv_w = GLYPH_SDF_SIZE as f32 * inv_tex;
    assert!((uv_x).abs() < 0.001);
    assert!((uv_y).abs() < 0.001);
    assert!((uv_w - 1.0 / 4.0).abs() < 0.001);
}

#[test]
fn test_atlas_multiple_glyphs() {
    let mut atlas = new_atlas(4);
    atlas.preload(&['A', 'B', 'H', 'I']);
    assert_eq!(atlas.occupied(), 4);
    assert!(atlas.contains('A'));
    assert!(atlas.contains('B'));
    assert!(atlas.contains('H'));
    assert!(atlas.contains('I'));
    assert!(!atlas.contains('Z'));
}

#[test]
fn test_atlas_duplicate_insert() {
    let mut atlas = new_atlas(4);
    atlas.get_or_insert('A');
    atlas.get_or_insert('A');
    assert_eq!(atlas.occupied(), 1);
}

#[test]
fn test_atlas_lru_eviction() {
    let mut atlas = new_atlas(2);
    assert_eq!(atlas.capacity(), 4);

    atlas.get_or_insert('A');
    atlas.get_or_insert('B');
    atlas.get_or_insert('H');
    atlas.get_or_insert('I');
    assert_eq!(atlas.occupied(), 4);

    atlas.lookup('B');
    atlas.lookup('H');
    atlas.lookup('I');

    atlas.get_or_insert('T');
    assert_eq!(atlas.occupied(), 4);
    assert!(atlas.contains('T'));
    assert!(!atlas.contains('A'));
    assert!(atlas.contains('B'));
}

#[test]
fn test_atlas_clear() {
    let mut atlas = new_atlas(4);
    atlas.preload(&['A', 'B', 'H']);
    assert_eq!(atlas.occupied(), 3);

    atlas.clear();
    assert_eq!(atlas.occupied(), 0);
    assert!(!atlas.contains('A'));
}

#[test]
fn test_atlas_set_params() {
    let mut atlas = new_atlas(4);
    atlas.preload(&['A', 'B']);
    assert_eq!(atlas.occupied(), 2);

    atlas.set_params(bold as fn(u8) -> SdfTile);
    assert_eq!(atlas.occupied(), 0);
}

#[test]
fn test_atlas_sample() {
    let mut atlas = new_atlas(4);
    atlas.get_or_insert('A');

    let mut has_nonzero = false;
    for y in 0..GLYPH_SDF_SIZE {
        for x in 0..GLYPH_SDF_SIZE {
            if sample_of(&atlas, x, y).abs() > 0.001 {
                has_nonzero = true;
                break;
            }
        }
    }
    assert!(has_nonzero);
}

#[test]
fn test_atlas_sample_out_of_bounds() {
    let atlas = new_atlas(4);
    assert!((sample_of(&atlas, 9999, 9999)).abs() < 0.001);
}

#[test]
fn test_atlas_pixel_data_size() {
    let atlas = new_atlas(4);
    let tex = atlas.texture_size();
    assert_eq!(atlas.pixels().len(), tex * tex);
}

#[test]
fn test_scenario_four_slots_evict_the_untouched_glyph() {
    let mut atlas = new_atlas(2);
    assert_eq!(atlas.capacity(), 4);
    assert_eq!(atlas.texture_size(), 64);
    for ch in ['A', 'B', 'H', 'I'] {
        atlas.get_or_insert(ch);
    }
    assert_eq!(atlas.occupied(), 4);
    for ch in ['B', 'H', 'I'] {
        assert!(atlas.lookup(ch).is_some());
    }
    atlas.get_or_insert('T');
    assert!(atlas.contains('T'));
    assert!(!atlas.contains('A'));
    assert_eq!(atlas.occupied(), 4);
}

#[test]
fn test_entries_fill_slots_in_order() {
    let mut atlas = new_atlas(3);
    let chars = ['a', 'b', 'c', 'd', 'e', 'f', 'g', 'h', 'i'];
    for (slot, ch) in chars.iter().enumerate() {
        assert_eq!(atlas.find_slot(), slot);
        let entry = atlas.get_or_insert(*ch);
        assert_eq!(entry.tile_x as usize, slot % 3);
        assert_eq!(entry.tile_y as usize, slot / 3);
        assert_eq!(entry.texel_x(), (slot % 3) * 32);
        assert_eq!(entry.texel_y(), (slot / 3) * 32);
        assert_eq!(entry.last_used as usize, slot + 1);
        assert_eq!(atlas.occupied(), slot + 1);
    }
    assert_eq!(atlas.occupied(), atlas.capacity());
}

#[test]
fn test_entry_carries_the_metrics_of_the_tile() {
    let mut atlas = new_atlas(2);
    let entry = atlas.get_or_insert('Q');
    let tile = regular(b'Q');
    assert_eq!(
        entry,
        AtlasEntry {
            codepoint: 'Q',
            tile_x: 0,
            tile_y: 0,
            advance: tile.advance,
            lsb: tile.lsb,
            last_used: 1,
        }
    );
}

#[test]
fn test_non_ascii_gets_the_placeholder_glyph() {
    let mut atlas = new_atlas(2);
    let entry = atlas.get_or_insert('\u{00e9}');
    assert_eq!(entry.codepoint, '\u{00e9}');
    assert_eq!(entry.advance, regular(b'?').advance);
    assert_eq!(atlas.sample(0, 0), regular(b'?').data[0]);
    let last_ascii = atlas.get_or_insert('\u{7f}');
    assert_eq!(last_ascii.advance, regular(0x7f).advance);
    let first_beyond = atlas.get_or_insert('\u{80}');
    assert_eq!(first_beyond.advance, regular(b'?').advance);
    // The placeholder is cached once per character, not once for all.
    assert_eq!(atlas.occupied(), 3);
}

#[test]
fn test_rasterizer_runs_on_a_miss_only() {
    let calls = Cell::new(0u32);
    let asked = Cell::new(0u8);
    let mut atlas = SdfAtlas::new(2, |code: u8| {
        calls.set(calls.get() + 1);
        asked.set(code);
        regular(code)
    });
    atlas.get_or_insert('A');
    assert_eq!((calls.get(), asked.get()), (1, b'A'));
    atlas.get_or_insert('A');
    atlas.lookup('A');
    atlas.lookup('B');
    atlas.peek('B');
    atlas.contains('B');
    assert_eq!(calls.get(), 1);
    atlas.get_or_insert('B');
    assert_eq!((calls.get(), asked.get()), (2, b'B'));
    atlas.preload(&['A', 'B', 'C', 'A']);
    assert_eq!((calls.get(), asked.get()), (3, b'C'));
}

#[test]
fn test_second_fetch_returns_the_same_metrics() {
    let mut atlas = new_atlas(2);
    atlas.get_or_insert('x');
    let first = atlas.get_or_insert('k');
    let occupied = atlas.occupied();
    let pixels = atlas.pixels().to_vec();
    let second = atlas.get_or_insert('k');
    assert_eq!(atlas.occupied(), occupied);
    assert_eq!(atlas.pixels(), &pixels[..]);
    assert_eq!(second.codepoint, first.codepoint);
    assert_eq!(second.tile_x, first.tile_x);
    assert_eq!(second.tile_y, first.tile_y);
    assert_eq!(second.advance, first.advance);
    assert_eq!(second.lsb, first.lsb);
    assert_eq!(second.last_used, first.last_used + 1);
}

#[test]
fn test_clock_moves_once_per_fetch_and_lookup() {
    let mut atlas = new_atlas(2);
    assert_eq!(atlas.clock(), 0);
    atlas.get_or_insert('A');
    assert_eq!(atlas.clock(), 1);
    atlas.get_or_insert('A');
    assert_eq!(atlas.clock(), 2);
    assert_eq!(atlas.lookup('A').unwrap().last_used, 3);
    assert_eq!(atlas.clock(), 3);
    assert_eq!(atlas.lookup('Z'), None);
    assert_eq!(atlas.clock(), 4);
    assert_eq!(atlas.peek('A').unwrap().last_used, 3);
    assert!(atlas.contains('A'));
    assert_eq!(atlas.peek('Z'), None);
    assert_eq!(atlas.clock(), 4);
    atlas.preload(&['A', 'B', 'A']);
    assert_eq!(atlas.clock(), 7);
    assert_eq!(atlas.peek('A').unwrap().last_used, 7);
    assert_eq!(atlas.peek('B').unwrap().last_used, 6);
}

#[test]
fn test_failed_lookup_changes_nothing_but_the_clock() {
    let mut atlas = new_atlas(2);
    atlas.preload(&['A', 'B']);
    let a = *atlas.peek('A').unwrap();
    let b = *atlas.peek('B').unwrap();
    let pixels = atlas.pixels().to_vec();
    assert_eq!(atlas.lookup('C'), None);
    assert_eq!(atlas.peek('A'), Some(&a));
    assert_eq!(atlas.peek('B'), Some(&b));
    assert_eq!(atlas.occupied(), 2);
    assert_eq!(atlas.pixels(), &pixels[..]);
    assert!(!atlas.contains('C'));
}

#[test]
fn test_eviction_takes_the_smallest_time_of_last_use() {
    let mut atlas = new_atlas(2);
    atlas.preload(&['A', 'B', 'C', 'D']);
    // Times of last use: A 5, B 2, C 6, D 4.
    atlas.lookup('A');
    atlas.lookup('C');
    assert_eq!(atlas.find_slot(), 1);
    let e = atlas.get_or_insert('E');
    assert_eq!((e.tile_x, e.tile_y), (1, 0));
    assert!(!atlas.contains('B'));
    // Now D (4) is the oldest, in slot 3.
    assert_eq!(atlas.find_slot(), 3);
    let f = atlas.get_or_insert('F');
    assert_eq!((f.tile_x, f.tile_y), (1, 1));
    assert!(!atlas.contains('D'));
    for ch in ['A', 'C', 'E', 'F'] {
        assert!(atlas.contains(ch));
    }
    assert_eq!(atlas.occupied(), 4);
}

#[test]
fn test_eviction_never_happens_while_a_slot_is_empty() {
    let mut atlas = new_atlas(2);
    atlas.preload(&['A', 'B', 'C']);
    atlas.lookup('B');
    atlas.lookup('C');
    // A is the least recently used, but slot 3 is empty.
    assert_eq!(atlas.find_slot(), 3);
    atlas.get_or_insert('D');
    for ch in ['A', 'B', 'C', 'D'] {
        assert!(atlas.contains(ch));
    }
}

#[test]
fn test_one_slot_atlas_keeps_the_last_glyph() {
    let mut atlas = new_atlas(1);
    assert_eq!(atlas.capacity(), 1);
    atlas.get_or_insert('A');
    atlas.get_or_insert('B');
    assert!(!atlas.contains('A'));
    assert!(atlas.contains('B'));
    assert_eq!(atlas.occupied(), 1);
    assert_eq!(atlas.find_slot(), 0);
}

#[test]
fn test_atlas_without_slots() {
    let mut atlas = new_atlas(0);
    assert_eq!(atlas.capacity(), 0);
    assert_eq!(atlas.texture_size(), 0);
    assert_eq!(atlas.pixels().len(), 0);
    assert_eq!(atlas.occupied(), 0);
    assert_eq!(atlas.find_slot(), 0);
    assert_eq!(atlas.sample(0, 0), 0);
    assert!(!atlas.contains('A'));
    assert_eq!(atlas.peek('A'), None);
    assert_eq!(atlas.lookup('A'), None);
    assert_eq!(atlas.clock(), 1);
    atlas.clear();
    assert_eq!(atlas.clock(), 0);
}

#[test]
fn test_fetch_on_an_atlas_without_slots_caches_nothing() {
    let calls = Cell::new(0u32);
    let mut atlas = SdfAtlas::new(0, |code: u8| {
        calls.set(calls.get() + 1);
        regular(code)
    });
    let tile = regular(b'A');
    let entry = atlas.get_or_insert('A');
    assert_eq!(
        entry,
        AtlasEntry {
            codepoint: 'A',
            tile_x: 0,
            tile_y: 0,
            advance: tile.advance,
            lsb: tile.lsb,
            last_used: 1,
        }
    );
    assert_eq!(calls.get(), 1);
    assert_eq!(atlas.clock(), 1);
    assert_eq!(atlas.occupied(), 0);
    assert!(!atlas.contains('A'));
    assert_eq!(atlas.peek('A'), None);
    assert_eq!(atlas.pixels().len(), 0);
    // Nothing was kept, so the next call rasterizes again.
    let again = atlas.get_or_insert('A');
    assert_eq!(again.last_used, 2);
    assert_eq!(again.advance, tile.advance);
    assert_eq!(calls.get(), 2);
    assert_eq!(atlas.occupied(), 0);
}

#[test]
fn test_preload_and_insert_tile_on_an_atlas_without_slots() {
    let mut atlas = new_atlas(0);
    atlas.preload(&['A', 'B', 'A']);
    assert_eq!(atlas.clock(), 3);
    assert_eq!(atlas.occupied(), 0);
    assert!(!atlas.contains('A'));
    assert!(!atlas.contains('B'));
    let tile = bold(b'W');
    let entry = atlas.insert_tile('W', &tile);
    assert_eq!(entry.codepoint, 'W');
    assert_eq!((entry.tile_x, entry.tile_y), (0, 0));
    assert_eq!(entry.advance, tile.advance);
    assert_eq!(entry.lsb, tile.lsb);
    assert_eq!(entry.last_used, 4);
    assert_eq!(atlas.clock(), 4);
    assert!(!atlas.contains('W'));
    assert_eq!(atlas.occupied(), 0);
}

#[test]
fn test_preload_of_nothing_changes_nothing() {
    for dim in [0, 1, 2] {
        let mut atlas = new_atlas(dim);
        atlas.preload(&[]);
        assert_eq!(atlas.clock(), 0);
        assert_eq!(atlas.occupied(), 0);
    }
}

#[test]
fn test_times_of_last_use_are_all_different() {
    let mut atlas = new_atlas(3);
    let chars = ['a', 'b', 'c', 'd', 'e', 'f', 'g', 'h', 'i', 'j', 'k'];
    atlas.preload(&chars);
    atlas.lookup('d');
    atlas.get_or_insert('e');
    atlas.lookup('z');
    atlas.get_or_insert('x');
    atlas.get_or_insert('d');
    let mut times: Vec<u32> =
        chars.iter().chain(['x', 'z'].iter()).filter_map(|c| atlas.peek(*c)).map(|e| e.last_used).collect();
    assert_eq!(times.len(), atlas.occupied());
    assert_eq!(times.len(), 9);
    assert!(times.iter().all(|t| *t <= atlas.clock()));
    times.sort();
    times.dedup();
    assert_eq!(times.len(), 9);
}

#[test]
fn test_filling_an_empty_atlas_keeps_every_glyph() {
    let mut atlas = new_atlas(3);
    atlas.preload(&['q', 'x']);
    atlas.clear();
    let chars = ['a', 'b', 'c', 'd', 'e', 'f', 'g', 'h', 'i'];
    atlas.preload(&chars);
    assert_eq!(atlas.occupied(), 9);
    assert_eq!(atlas.occupied(), atlas.capacity());
    for (slot, ch) in chars.iter().enumerate() {
        let entry = atlas.peek(*ch).unwrap();
        assert_eq!((entry.tile_x as usize, entry.tile_y as usize), (slot % 3, slot / 3));
    }
    assert!(!atlas.contains('q'));
}

#[test]
fn test_new_glyph_takes_the_tile_of_the_evicted_one() {
    let mut atlas = new_atlas(2);
    atlas.preload(&['A', 'B', 'C', 'D']);
    atlas.lookup('A');
    let b = *atlas.peek('B').unwrap();
    let others: Vec<AtlasEntry> =
        ['A', 'C', 'D'].iter().map(|c| *atlas.peek(*c).unwrap()).collect();
    let e = atlas.get_or_insert('E');
    assert_eq!((e.tile_x, e.tile_y), (b.tile_x, b.tile_y));
    assert_eq!(atlas.peek('B'), None);
    assert!(!atlas.contains('B'));
    assert!(atlas.contains('E'));
    for (ch, before) in ['A', 'C', 'D'].iter().zip(others.iter()) {
        assert_eq!(atlas.peek(*ch), Some(before));
    }
    assert_eq!(atlas.occupied(), 4);
}

#[test]
fn test_tile_is_copied_into_its_square() {
    let mut atlas = new_atlas(2);
    atlas.preload(&['A', 'B', 'C']);
    let tile = regular(b'C');
    // 'C' lies in slot 2: tile column 0, tile row 1.
    for row in 0..32 {
        for col in 0..32 {
            assert_eq!(atlas.sample(col, 32 + row), tile.data[row * 32 + col]);
        }
    }
    let a = regular(b'A');
    let b = regular(b'B');
    assert_eq!(atlas.sample(0, 0), a.data[0]);
    assert_eq!(atlas.sample(31, 31), a.data[1023]);
    assert_eq!(atlas.sample(32, 0), b.data[0]);
    assert_eq!(atlas.sample(63, 31), b.data[1023]);
    assert_eq!(atlas.sample(33, 5), b.data[5 * 32 + 1]);
    // The fourth square is still empty.
    for y in 32..64 {
        for x in 32..64 {
            assert_eq!(atlas.sample(x, y), 0);
        }
    }
    assert_eq!(atlas.pixels()[32 * 64], tile.data[0]);
    assert_eq!(atlas.pixels()[63 * 64 + 31], tile.data[1023]);
}

#[test]
fn test_eviction_overwrites_the_square_only() {
    let mut atlas = new_atlas(2);
    atlas.preload(&['A', 'B', 'C', 'D']);
    let before = atlas.pixels().to_vec();
    atlas.get_or_insert('E');
    let e = regular(b'E');
    for y in 0..64 {
        for x in 0..64 {
            let expected = if x < 32 && y < 32 { e.data[y * 32 + x] } else { before[y * 64 + x] };
            assert_eq!(atlas.sample(x, y), expected);
        }
    }
}

#[test]
fn test_sample_bounds() {
    let mut atlas = new_atlas(2);
    atlas.preload(&['A', 'B', 'C', 'D']);
    assert_ne!(atlas.sample(63, 63), 0);
    assert_eq!(atlas.sample(64, 0), 0);
    assert_eq!(atlas.sample(0, 64), 0);
    assert_eq!(atlas.sample(64, 64), 0);
    assert_eq!(atlas.sample(usize::MAX, 0), 0);
    assert_eq!(atlas.sample(0, usize::MAX), 0);
}

#[test]
fn test_insert_tile_stores_what_it_is_given() {
    let mut atlas = new_atlas(2);
    let tile = bold(b'W');
    let entry = atlas.insert_tile('W', &tile);
    assert_eq!(entry.advance, tile.advance);
    assert_eq!(entry.last_used, 1);
    assert_eq!(atlas.clock(), 1);
    assert_eq!(atlas.occupied(), 1);
    assert_eq!(atlas.peek('W'), Some(&entry));
    assert_eq!(atlas.sample(7, 3), tile.data[3 * 32 + 7]);
    // A later fetch finds it and does not rasterize again.
    let again = atlas.get_or_insert('W');
    assert_eq!(again.advance, tile.advance);
    assert_ne!(again.advance, regular(b'W').advance);
}

#[test]
fn test_set_params_replaces_the_rasterizer() {
    let mut atlas = new_atlas(2);
    let before = atlas.get_or_insert('A');
    assert_eq!(before.advance, regular(b'A').advance);
    atlas.set_params(bold as fn(u8) -> SdfTile);
    assert_eq!(atlas.occupied(), 0);
    assert_eq!(atlas.clock(), 0);
    assert!(!atlas.contains('A'));
    assert!(atlas.pixels().iter().all(|p| *p == 0));
    assert_eq!(atlas.capacity(), 4);
    let after = atlas.get_or_insert('A');
    assert_eq!(after.advance, bold(b'A').advance);
    assert_eq!(after.last_used, 1);
}

#[test]
fn test_clear_resets_everything_but_the_rasterizer() {
    let mut atlas = new_atlas(2);
    atlas.preload(&['A', 'B', 'C', 'D', 'E']);
    atlas.clear();
    assert_eq!(atlas.occupied(), 0);
    assert_eq!(atlas.clock(), 0);
    assert_eq!(atlas.capacity(), 4);
    assert_eq!(atlas.pixels().len(), 64 * 64);
    assert!(atlas.pixels().iter().all(|p| *p == 0));
    for ch in ['A', 'B', 'C', 'D', 'E'] {
        assert!(!atlas.contains(ch));
    }
    assert_eq!(atlas.find_slot(), 0);
    assert_eq!(atlas.get_or_insert('E').advance, regular(b'E').advance);
}

#[test]
fn test_as_many_glyphs_as_slots_fill_a_used_atlas() {
    let mut atlas = new_atlas(2);
    atlas.preload(&['x', 'B']);
    atlas.preload(&['A', 'B', 'C', 'D']);
    assert_eq!(atlas.occupied(), 4);
    assert!(!atlas.contains('x'));
}

#[test]
fn test_preload_is_fetching_in_order() {
    let chars = ['A', 'B', 'A', 'C', 'D', 'E', 'B', 'F'];
    let mut one = new_atlas(2);
    one.preload(&chars);
    let mut other = new_atlas(2);
    for ch in chars {
        other.get_or_insert(ch);
    }
    assert_eq!(one.pixels(), other.pixels());
    assert_eq!(one.clock(), other.clock());
    assert_eq!(one.occupied(), other.occupied());
    for ch in ['A', 'B', 'C', 'D', 'E', 'F'] {
        assert_eq!(one.peek(ch), other.peek(ch));
    }
    one.preload(&[]);
    assert_eq!(one.clock(), other.clock());
}

#[test]
fn test_empty_tile() {
    let tile = SdfTile::empty();
    assert!(tile.data.iter().all(|d| *d == OUTSIDE_BITS));
    assert_eq!(f32::from_bits(OUTSIDE_BITS), 1.0);
    assert_eq!(tile.advance, DEFAULT_ADVANCE_BITS);
    assert_eq!(f32::from_bits(tile.advance), 0.5);
    assert_eq!(f32::from_bits(tile.lsb), 0.0);
    assert_eq!(TILE_SAMPLES, GLYPH_SDF_SIZE * GLYPH_SDF_SIZE);
}

#[test]
fn test_tile_sample_at_reads_the_last_row_and_column_beyond_them() {
    let tile = regular(b'g');
    assert_eq!(tile.sample_at(0, 0), tile.data[0]);
    assert_eq!(tile.sample_at(5, 2), tile.data[2 * 32 + 5]);
    assert_eq!(tile.sample_at(31, 31), tile.data[1023]);
    assert_eq!(tile.sample_at(32, 0), tile.data[31]);
    assert_eq!(tile.sample_at(0, 32), tile.data[31 * 32]);
    assert_eq!(tile.sample_at(usize::MAX, usize::MAX), tile.data[1023]);
}
