use alice_font::kern::{
    KernEntry, KernTable, KERN_MEDIUM_BITS, KERN_SLIGHT_BITS, KERN_WIDE_BITS, MAX_KERN_PAIRS,
};

fn kern(table: &KernTable, left: char, right: char) -> f32 {
    f32::from_bits(table.kern(left, right))
}

fn keys(table: &KernTable) -> Vec<u64> {
    (0..table.len()).map(|i| table.entry(i).unwrap().key).collect()
}

#[test]
fn test_kern_lookup() {
    let table = KernTable::with_default_pairs();
    let k = kern(&table, 'A', 'V');
    assert!(k < 0.0);
    let k_none = kern(&table, 'H', 'I');
    assert!((k_none).abs() < 0.001);
}

#[test]
fn test_custom_kern_pair() {
    let mut table = KernTable::with_default_pairs();
    table.add_kern_pair('X', 'Y', (-0.05f32).to_bits());
    assert!((kern(&table, 'X', 'Y') - (-0.05)).abs() < 0.001);
}

#[test]
fn test_update_existing_kern_pair() {
    let mut table = KernTable::with_default_pairs();
    table.add_kern_pair('A', 'V', (-0.10f32).to_bits());
    assert!((kern(&table, 'A', 'V') - (-0.10)).abs() < 0.001);
}

#[test]
fn test_kern_table_sorted_after_insert() {
    let mut table = KernTable::with_default_pairs();
    table.add_kern_pair('Z', 'Z', (-0.02f32).to_bits());
    table.add_kern_pair('A', 'A', (-0.01f32).to_bits());
    for w in keys(&table).windows(2) {
        assert!(w[0] <= w[1], "kern_table not sorted");
    }
}

#[test]
fn test_make_key_packs_left_high_right_low() {
    assert_eq!(KernEntry::make_key('A', 'V'), (0x41u64 << 32) | 0x56);
    assert_eq!(KernEntry::make_key('\0', '\0'), 0);
    assert_eq!(KernEntry::make_key('\u{10FFFF}', '\u{10FFFF}'), 0x0010_FFFF_0010_FFFF);
    assert_ne!(KernEntry::make_key('A', 'V'), KernEntry::make_key('V', 'A'));
}

#[test]
fn test_default_pairs() {
    let table = KernTable::with_default_pairs();
    assert_eq!(table.len(), 18);
    assert_eq!(f32::from_bits(KERN_WIDE_BITS), -0.04);
    assert_eq!(f32::from_bits(KERN_MEDIUM_BITS), -0.03);
    assert_eq!(f32::from_bits(KERN_SLIGHT_BITS), -0.01);
    let expected = [
        ('A', 'V', -0.04f32),
        ('A', 'W', -0.03),
        ('A', 'Y', -0.04),
        ('A', 'T', -0.04),
        ('V', 'A', -0.04),
        ('W', 'A', -0.03),
        ('Y', 'A', -0.04),
        ('T', 'A', -0.04),
        ('T', 'o', -0.03),
        ('T', 'a', -0.03),
        ('T', 'e', -0.03),
        ('L', 'T', -0.03),
        ('L', 'V', -0.03),
        ('L', 'Y', -0.03),
        ('r', 'a', -0.01),
        ('r', 'o', -0.01),
        ('f', 'a', -0.01),
        ('f', 'o', -0.01),
    ];
    for (l, r, adj) in expected {
        assert_eq!(kern(&table, l, r), adj);
    }
    assert_eq!(table.kern('V', 'V'), 0);
    assert_eq!(table.kern('a', 'r'), 0);
    let sorted = keys(&table);
    assert!(sorted.windows(2).all(|w| w[0] < w[1]));
    assert_eq!(sorted[0], KernEntry::make_key('A', 'T'));
    assert_eq!(sorted[17], KernEntry::make_key('r', 'o'));
}

#[test]
fn test_new_table_is_empty() {
    let table = KernTable::new();
    assert_eq!(table.len(), 0);
    assert_eq!(table.entry(0), None);
    assert_eq!(table.kern('A', 'V'), 0);
}

#[test]
fn test_insert_keeps_ascending_order_whatever_the_order_of_arrival() {
    let mut table = KernTable::new();
    let arrivals = ['m', 'c', 'x', 'a', 'q', 'b', 'z', 'n'];
    for (i, ch) in arrivals.iter().enumerate() {
        table.add_kern_pair(*ch, '!', i as u32 + 1);
    }
    let mut expected: Vec<u64> = arrivals.iter().map(|c| KernEntry::make_key(*c, '!')).collect();
    expected.sort();
    assert_eq!(keys(&table), expected);
    for (i, ch) in arrivals.iter().enumerate() {
        assert_eq!(table.kern(*ch, '!'), i as u32 + 1);
        assert_eq!(table.kern('!', *ch), 0);
    }
    assert_eq!(
        table.entry(0),
        Some(KernEntry { key: KernEntry::make_key('a', '!'), adjustment: 4 })
    );
    assert_eq!(table.entry(8), None);
}

#[test]
fn test_update_changes_one_adjustment_only() {
    let mut table = KernTable::with_default_pairs();
    let before = keys(&table);
    table.add_kern_pair('T', 'a', 7);
    assert_eq!(keys(&table), before);
    assert_eq!(table.kern('T', 'a'), 7);
    assert_eq!(table.kern('T', 'o'), KERN_MEDIUM_BITS);
    assert_eq!(table.kern('T', 'e'), KERN_MEDIUM_BITS);
    assert_eq!(table.len(), 18);
}

#[test]
fn test_full_table_drops_new_pairs_and_still_updates_old_ones() {
    let mut table = KernTable::new();
    for i in 0..MAX_KERN_PAIRS {
        table.add_kern_pair(char::from_u32(0x100 + i as u32).unwrap(), 'x', i as u32);
    }
    assert_eq!(table.len(), 64);
    let before = keys(&table);
    table.add_kern_pair('A', 'V', 5);
    assert_eq!(table.len(), 64);
    assert_eq!(keys(&table), before);
    assert_eq!(table.kern('A', 'V'), 0);
    table.add_kern_pair('\u{120}', 'x', 1234);
    assert_eq!(table.len(), 64);
    assert_eq!(table.kern('\u{120}', 'x'), 1234);
    assert_eq!(table.kern('\u{121}', 'x'), 0x21);
}
