//! Kerning pairs: a bounded table from a pair of characters to an
//! adjustment, kept sorted for binary search.
//!
//! An adjustment is a single-precision number held as its bits; a pair
//! without an entry has the adjustment zero.

use vstd::prelude::*;

verus! {

/// Maximum kerning pairs in a table.
pub const MAX_KERN_PAIRS: usize = 64;

/// The bits of `-0.04`: the adjustment of the diagonal pairs.
pub const KERN_WIDE_BITS: u32 = 0xBD23_D70A;

/// The bits of `-0.03`: the adjustment of a diagonal next to `W`, and of a
/// round letter next to a straight one.
pub const KERN_MEDIUM_BITS: u32 = 0xBCF5_C28F;

/// The bits of `-0.01`: the adjustment of the lowercase pairs.
pub const KERN_SLIGHT_BITS: u32 = 0xBC23_D70A;

/// One kerning pair.
#[derive(Debug, Clone, Copy, PartialEq, Eq, Structural)]
pub struct KernEntry {
    /// The pair, packed: left character in the high 32 bits, right
    /// character in the low 32 bits.
    pub key: u64,
    /// Adjustment in em units, as the bits of a single-precision number.
    pub adjustment: u32,
}

/// The key of a pair: the left character's scalar value times `2^32`, plus
/// the right character's.
pub open spec fn pair_key(left: char, right: char) -> u64 {
    ((left as u64) * 0x1_0000_0000 + (right as u64)) as u64
}

/// Different pairs have different keys.
pub proof fn lemma_pair_key_injective(a: char, b: char, c: char, d: char)
    requires
        pair_key(a, b) == pair_key(c, d),
    ensures
        a == c,
        b == d,
{
}

impl KernEntry {
    /// The key of a pair: left character in the high 32 bits, right
    /// character in the low 32 bits.
    pub fn make_key(left: char, right: char) -> (key: u64)
        ensures
            key == pair_key(left, right),
    {
        let high: u64 = left as u32 as u64;
        let low: u64 = right as u32 as u64;
        assert((high << 32) | low == high * 0x1_0000_0000 + low) by (bit_vector)
            requires
                high <= 0x10FFFF,
                low <= 0x10FFFF,
        ;
        (high << 32) | low
    }
}

/// The keys grow strictly from one entry to the next.
pub open spec fn sorted(entries: Seq<KernEntry>) -> bool {
    forall|i: int, j: int| 0 <= i < j < entries.len() ==> entries[i].key < entries[j].key
}

/// Some entry has the key.
pub open spec fn has_key(entries: Seq<KernEntry>, key: u64) -> bool {
    exists|i: int| 0 <= i < entries.len() && (#[trigger] entries[i]).key == key
}

/// The place of the entry with the key.
pub open spec fn index_of(entries: Seq<KernEntry>, key: u64) -> int {
    choose|i: int| 0 <= i < entries.len() && (#[trigger] entries[i]).key == key
}

/// The table as a map from keys to adjustments.
pub open spec fn as_map(entries: Seq<KernEntry>) -> Map<u64, u32> {
    Map::new(|key: u64| has_key(entries, key), |key: u64| entries[index_of(entries, key)].adjustment)
}

/// In a sorted table an entry is found at its own place.
proof fn lemma_index_of(entries: Seq<KernEntry>, i: int)
    requires
        sorted(entries),
        0 <= i < entries.len(),
    ensures
        has_key(entries, entries[i].key),
        index_of(entries, entries[i].key) == i,
{
    let found = index_of(entries, entries[i].key);
    assert(entries[found].key == entries[i].key);
    if found < i {
        assert(entries[found].key < entries[i].key);
    } else if i < found {
        assert(entries[i].key < entries[found].key);
    }
}

/// Replacing the adjustment of an entry changes the map at its key only.
proof fn lemma_update(entries: Seq<KernEntry>, i: int, adjustment: u32)
    requires
        sorted(entries),
        0 <= i < entries.len(),
    ensures
        sorted(entries.update(i, KernEntry { key: entries[i].key, adjustment })),
        as_map(entries.update(i, KernEntry { key: entries[i].key, adjustment })) == as_map(
            entries,
        ).insert(entries[i].key, adjustment),
{
    let key = entries[i].key;
    let after = entries.update(i, KernEntry { key, adjustment });
    assert forall|a: int, b: int| 0 <= a < b < after.len() implies after[a].key
        < after[b].key by {
        assert(entries[a].key < entries[b].key);
    }
    assert forall|q: u64| has_key(after, q) == has_key(entries, q) by {
        if has_key(entries, q) {
            let j = index_of(entries, q);
            assert(after[j].key == q);
        }
        if has_key(after, q) {
            let j = index_of(after, q);
            assert(entries[j].key == q);
        }
    }
    assert forall|q: u64| has_key(after, q) implies after[index_of(after, q)].adjustment
        == as_map(entries).insert(key, adjustment)[q] by {
        let j = index_of(after, q);
        lemma_index_of(after, j);
        lemma_index_of(entries, j);
    }
    assert(as_map(after) =~= as_map(entries).insert(key, adjustment));
}

/// Putting a new entry where its key belongs keeps the table sorted and
/// adds its key to the map.
proof fn lemma_insert(entries: Seq<KernEntry>, at: int, entry: KernEntry)
    requires
        sorted(entries),
        0 <= at <= entries.len(),
        forall|j: int| 0 <= j < at ==> (#[trigger] entries[j]).key < entry.key,
        forall|j: int| at <= j < entries.len() ==> (#[trigger] entries[j]).key > entry.key,
    ensures
        sorted(entries.insert(at, entry)),
        !has_key(entries, entry.key),
        as_map(entries.insert(at, entry)) == as_map(entries).insert(entry.key, entry.adjustment),
{
    let after = entries.insert(at, entry);
    assert forall|a: int, b: int| 0 <= a < b < after.len() implies after[a].key
        < after[b].key by {
        let a0 = if a < at { a } else { a - 1 };
        let b0 = if b < at { b } else { b - 1 };
        if a != at && b != at {
            assert(after[a] == entries[a0] && after[b] == entries[b0]);
            assert(entries[a0].key < entries[b0].key);
        } else if a == at {
            assert(after[b] == entries[b0]);
        } else {
            assert(after[a] == entries[a0]);
        }
    }
    if has_key(entries, entry.key) {
        let j = index_of(entries, entry.key);
        assert(entries[j].key == entry.key);
    }
    assert forall|q: u64| has_key(after, q) == (q == entry.key || has_key(entries, q)) by {
        if has_key(entries, q) {
            let j = index_of(entries, q);
            let j1 = if j < at { j } else { j + 1 };
            assert(after[j1].key == q);
        }
        if q == entry.key {
            assert(after[at].key == q);
        }
        if has_key(after, q) {
            let j = index_of(after, q);
            if j != at {
                let j0 = if j < at { j } else { j - 1 };
                assert(entries[j0].key == q);
            }
        }
    }
    assert forall|q: u64| has_key(after, q) implies after[index_of(after, q)].adjustment
        == as_map(entries).insert(entry.key, entry.adjustment)[q] by {
        let j = index_of(after, q);
        lemma_index_of(after, j);
        if j != at {
            let j0 = if j < at { j } else { j - 1 };
            assert(after[j] == entries[j0]);
            lemma_index_of(entries, j0);
        }
    }
    assert(as_map(after) =~= as_map(entries).insert(entry.key, entry.adjustment));
}

/// The common Latin pairs every table starts with.
pub open spec fn default_pairs() -> Map<u64, u32> {
    Map::<u64, u32>::empty().insert(
            pair_key('A', 'V'),
            KERN_WIDE_BITS,
        ).insert(
            pair_key('A', 'W'),
            KERN_MEDIUM_BITS,
        ).insert(
            pair_key('A', 'Y'),
            KERN_WIDE_BITS,
        ).insert(
            pair_key('A', 'T'),
            KERN_WIDE_BITS,
        ).insert(
            pair_key('V', 'A'),
            KERN_WIDE_BITS,
        ).insert(
            pair_key('W', 'A'),
            KERN_MEDIUM_BITS,
        ).insert(
            pair_key('Y', 'A'),
            KERN_WIDE_BITS,
        ).insert(
            pair_key('T', 'A'),
            KERN_WIDE_BITS,
        ).insert(
            pair_key('T', 'o'),
            KERN_MEDIUM_BITS,
        ).insert(
            pair_key('T', 'a'),
            KERN_MEDIUM_BITS,
        ).insert(
            pair_key('T', 'e'),
            KERN_MEDIUM_BITS,
        ).insert(
            pair_key('L', 'T'),
            KERN_MEDIUM_BITS,
        ).insert(
            pair_key('L', 'V'),
            KERN_MEDIUM_BITS,
        ).insert(
            pair_key('L', 'Y'),
            KERN_MEDIUM_BITS,
        ).insert(
            pair_key('r', 'a'),
            KERN_SLIGHT_BITS,
        ).insert(
            pair_key('r', 'o'),
            KERN_SLIGHT_BITS,
        ).insert(
            pair_key('f', 'a'),
            KERN_SLIGHT_BITS,
        ).insert(
            pair_key('f', 'o'),
            KERN_SLIGHT_BITS,
        )
}

/// Kerning table: at most 64 pairs, sorted by key.
#[derive(Debug)]
pub struct KernTable {
    entries: Vec<KernEntry>,
}

impl View for KernTable {
    type V = Map<u64, u32>;

    /// The adjustment of every pair in the table, by the pair's key.
    closed spec fn view(&self) -> Map<u64, u32> {
        as_map(self.entries@)
    }
}

impl KernTable {
    /// The entries, in the order they are stored.
    pub closed spec fn entries(&self) -> Seq<KernEntry> {
        self.entries@
    }

    /// The invariant of every table: at most 64 entries, in strictly
    /// ascending order of their keys.
    pub open spec fn wf(&self) -> bool {
        &&& self.entries().len() <= 64
        &&& sorted(self.entries())
    }

    /// A table without pairs.
    pub fn new() -> (table: Self)
        ensures
            table.wf(),
            table@ == Map::<u64, u32>::empty(),
            table.entries().len() == 0,
    {
        let table = KernTable { entries: Vec::new() };
        assert(table@ =~= Map::<u64, u32>::empty());
        table
    }

    /// Adds a pair that is not in the table, which has room for it.
    fn add_new_pair(&mut self, left: char, right: char, adjustment: u32)
        requires
            old(self).wf(),
            !old(self)@.contains_key(pair_key(left, right)),
            old(self).entries().len() < 64,
        ensures
            final(self).wf(),
            final(self)@ == old(self)@.insert(pair_key(left, right), adjustment),
            final(self).entries().len() == old(self).entries().len() + 1,
    {
        self.add_kern_pair(left, right, adjustment);
    }

    /// The table of the common Latin pairs: the diagonals `AV`, `AW`, `AY`,
    /// `AT` and their mirror images, `T` before `o`, `a`, `e`, `L` before
    /// `T`, `V`, `Y`, and `r` and `f` before `a` and `o`.
    pub fn with_default_pairs() -> (table: Self)
        ensures
            table.wf(),
            table@ == default_pairs(),
            table.entries().len() == 18,
    {
        let mut table = Self::new();
        table.add_new_pair('A', 'V', KERN_WIDE_BITS);
        table.add_new_pair('A', 'W', KERN_MEDIUM_BITS);
        table.add_new_pair('A', 'Y', KERN_WIDE_BITS);
        table.add_new_pair('A', 'T', KERN_WIDE_BITS);
        table.add_new_pair('V', 'A', KERN_WIDE_BITS);
        table.add_new_pair('W', 'A', KERN_MEDIUM_BITS);
        table.add_new_pair('Y', 'A', KERN_WIDE_BITS);
        table.add_new_pair('T', 'A', KERN_WIDE_BITS);
        table.add_new_pair('T', 'o', KERN_MEDIUM_BITS);
        table.add_new_pair('T', 'a', KERN_MEDIUM_BITS);
        table.add_new_pair('T', 'e', KERN_MEDIUM_BITS);
        table.add_new_pair('L', 'T', KERN_MEDIUM_BITS);
        table.add_new_pair('L', 'V', KERN_MEDIUM_BITS);
        table.add_new_pair('L', 'Y', KERN_MEDIUM_BITS);
        table.add_new_pair('r', 'a', KERN_SLIGHT_BITS);
        table.add_new_pair('r', 'o', KERN_SLIGHT_BITS);
        table.add_new_pair('f', 'a', KERN_SLIGHT_BITS);
        table.add_new_pair('f', 'o', KERN_SLIGHT_BITS);
        table
    }

    /// The entry at `index`, counted in ascending order of the keys.
    pub fn entry(&self, index: usize) -> (entry: Option<KernEntry>)
        ensures
            index < self.entries().len() ==> entry == Some(self.entries()[index as int]),
            index >= self.entries().len() ==> entry is None,
    {
        if index < self.entries.len() {
            Some(self.entries[index])
        } else {
            None
        }
    }

    /// Number of pairs in the table.
    pub fn len(&self) -> (n: usize)
        ensures
            n == self.entries().len(),
    {
        self.entries.len()
    }

    /// Where the key is, or where it belongs.
    fn search(&self, key: u64) -> (place: Result<usize, usize>)
        requires
            self.wf(),
        ensures
            match place {
                Ok(i) => i < self.entries@.len() && self.entries@[i as int].key == key,
                Err(i) => {
                    &&& i <= self.entries@.len()
                    &&& forall|j: int| 0 <= j < i ==> (#[trigger] self.entries@[j]).key < key
                    &&& forall|j: int|
                        i <= j < self.entries@.len() ==> (#[trigger] self.entries@[j]).key > key
                },
            },
    {
        let mut low: usize = 0;
        let mut high: usize = self.entries.len();
        while low < high
            invariant
                low <= high <= self.entries@.len() <= 64,
                sorted(self.entries@),
                forall|j: int| 0 <= j < low ==> (#[trigger] self.entries@[j]).key < key,
                forall|j: int|
                    high <= j < self.entries@.len() ==> (#[trigger] self.entries@[j]).key > key,
            decreases high - low,
        {
            let mid: usize = low + (high - low) / 2;
            let probe: u64 = self.entries[mid].key;
            if probe == key {
                return Ok(mid);
            } else if probe < key {
                assert forall|j: int| 0 <= j < mid + 1 implies (#[trigger] self.entries@[j]).key
                    < key by {
                    if j < mid {
                        assert(self.entries@[j].key < self.entries@[mid as int].key);
                    }
                }
                low = mid + 1;
            } else {
                assert forall|j: int| mid <= j < self.entries@.len() implies (
                #[trigger] self.entries@[j]).key > key by {
                    if j > mid {
                        assert(self.entries@[mid as int].key < self.entries@[j].key);
                    }
                }
                high = mid;
            }
        }
        Err(low)
    }

    /// Sets the adjustment of a pair. A pair that is in the table gets the
    /// new adjustment; a new pair is added where its key belongs, unless
    /// the table is full: then it is dropped.
    pub fn add_kern_pair(&mut self, left: char, right: char, adjustment: u32)
        requires
            old(self).wf(),
        ensures
            final(self).wf(),
            old(self)@.contains_key(pair_key(left, right)) ==> {
                &&& final(self)@ == old(self)@.insert(pair_key(left, right), adjustment)
                &&& final(self).entries().len() == old(self).entries().len()
            },
            !old(self)@.contains_key(pair_key(left, right)) && old(self).entries().len() < 64 ==> {
                &&& final(self)@ == old(self)@.insert(pair_key(left, right), adjustment)
                &&& final(self).entries().len() == old(self).entries().len() + 1
            },
            !old(self)@.contains_key(pair_key(left, right)) && old(self).entries().len() >= 64
                ==> *final(self) == *old(self),
    {
        let key = KernEntry::make_key(left, right);
        match self.search(key) {
            Ok(idx) => {
                proof {
                    lemma_index_of(self.entries@, idx as int);
                    lemma_update(self.entries@, idx as int, adjustment);
                }
                self.entries[idx] = KernEntry { key, adjustment };
            },
            Err(idx) => {
                proof {
                    lemma_insert(self.entries@, idx as int, KernEntry { key, adjustment });
                }
                if self.entries.len() < MAX_KERN_PAIRS {
                    self.entries.insert(idx, KernEntry { key, adjustment });
                }
            },
        }
    }

    /// The adjustment of a pair: zero for a pair that is not in the table.
    pub fn kern(&self, left: char, right: char) -> (adjustment: u32)
        requires
            self.wf(),
        ensures
            adjustment == if self@.contains_key(pair_key(left, right)) {
                self@[pair_key(left, right)]
            } else {
                0
            },
    {
        let key = KernEntry::make_key(left, right);
        match self.search(key) {
            Ok(idx) => {
                proof {
                    lemma_index_of(self.entries@, idx as int);
                }
                self.entries[idx].adjustment
            },
            Err(idx) => {
                proof {
                    if has_key(self.entries@, key) {
                        let j = index_of(self.entries@, key);
                        assert(self.entries@[j].key == key);
                    }
                }
                0
            },
        }
    }
}

} // verus!
