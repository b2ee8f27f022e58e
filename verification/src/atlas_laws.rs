//! What follows from the model of the atlas: the invariant is kept, the slot
//! counter counts, and the cache evicts least-recently-used first.

use vstd::prelude::*;
use vstd::arithmetic::div_mod::lemma_fundamental_div_mod_converse;
use crate::atlas::AtlasEntry;
use crate::atlas_model::{
    blit, is_first_empty, is_least_recent, is_victim, occupancy, AtlasModel,
};
use crate::tile::SdfTile;

verus! {

/// The slot counter never exceeds the number of slots.
pub proof fn lemma_occupancy_bound(slots: Seq<Option<AtlasEntry>>)
    ensures
        occupancy(slots) <= slots.len(),
    decreases slots.len(),
{
    if slots.len() > 0 {
        lemma_occupancy_bound(slots.drop_last());
    }
}

/// Where every slot is empty, none is counted.
pub proof fn lemma_occupancy_none(slots: Seq<Option<AtlasEntry>>)
    requires
        forall|i: int| 0 <= i < slots.len() ==> (#[trigger] slots[i]) is None,
    ensures
        occupancy(slots) == 0,
    decreases slots.len(),
{
    if slots.len() > 0 {
        lemma_occupancy_none(slots.drop_last());
    }
}

/// Where no slot is counted, every slot is empty.
pub proof fn lemma_occupancy_none_converse(slots: Seq<Option<AtlasEntry>>, i: int)
    requires
        occupancy(slots) == 0,
        0 <= i < slots.len(),
    ensures
        slots[i] is None,
    decreases slots.len(),
{
    if i < slots.len() - 1 {
        lemma_occupancy_none_converse(slots.drop_last(), i);
    }
}

/// An atlas with nothing cached meets the invariant and counts no slot.
pub proof fn lemma_empty(dim: nat)
    requires
        dim <= 16,
    ensures
        AtlasModel::empty(dim).inv(),
        AtlasModel::empty(dim).occupied() == 0,
        forall|ch: char| !AtlasModel::empty(dim).contains(ch),
{
    lemma_occupancy_none(AtlasModel::empty(dim).slots);
}

/// Replacing one slot changes the count by what the slot gains or loses.
pub proof fn lemma_occupancy_update(slots: Seq<Option<AtlasEntry>>, i: int, v: Option<AtlasEntry>)
    requires
        0 <= i < slots.len(),
    ensures
        occupancy(slots.update(i, v)) + (if slots[i] is Some { 1int } else { 0int })
            == occupancy(slots) + (if v is Some { 1int } else { 0int }),
    decreases slots.len(),
{
    let after = slots.update(i, v);
    if i == slots.len() - 1 {
        assert(after.drop_last() =~= slots.drop_last());
    } else {
        assert(after.drop_last() =~= slots.drop_last().update(i, v));
        lemma_occupancy_update(slots.drop_last(), i, v);
    }
}

/// Every slot is counted exactly where every slot is occupied.
pub proof fn lemma_occupancy_full(slots: Seq<Option<AtlasEntry>>)
    ensures
        occupancy(slots) == slots.len() <==> (forall|i: int|
            0 <= i < slots.len() ==> (#[trigger] slots[i]) is Some),
    decreases slots.len(),
{
    if slots.len() > 0 {
        let prefix = slots.drop_last();
        lemma_occupancy_full(prefix);
        lemma_occupancy_bound(prefix);
        if occupancy(slots) == slots.len() {
            assert forall|i: int| 0 <= i < slots.len() implies (#[trigger] slots[i]) is Some by {
                if i < slots.len() - 1 {
                    assert(prefix[i] is Some);
                }
            }
        }
        if forall|i: int| 0 <= i < slots.len() ==> (#[trigger] slots[i]) is Some {
            assert forall|i: int| 0 <= i < prefix.len() implies (#[trigger] prefix[i]) is Some by {
                assert(slots[i] is Some);
            }
            assert(slots.last() == slots[slots.len() - 1]);
        }
    }
}

/// Where there is a slot at all, one of them is the victim.
pub proof fn lemma_victim_exists(slots: Seq<Option<AtlasEntry>>) -> (v: int)
    requires
        slots.len() > 0,
    ensures
        is_victim(slots, v),
    decreases slots.len(),
{
    if slots.len() == 1 {
        0
    } else {
        let prefix = slots.drop_last();
        let n = slots.len() - 1;
        let p = lemma_victim_exists(prefix);
        assert(forall|j: int| 0 <= j < n ==> prefix[j] == slots[j]);
        if is_first_empty(prefix, p) {
            p
        } else if slots[n] is None {
            assert(is_first_empty(slots, n));
            n
        } else if slots[n].unwrap().last_used < slots[p].unwrap().last_used {
            assert(is_least_recent(slots, n));
            n
        } else {
            assert(is_least_recent(slots, p));
            p
        }
    }
}

/// No two slots are the victim.
pub proof fn lemma_victim_unique(slots: Seq<Option<AtlasEntry>>, a: int, b: int)
    requires
        is_victim(slots, a),
        is_victim(slots, b),
    ensures
        a == b,
{
    if a < b {
        assert(slots[a] is Some || slots[a] is None);
    } else if b < a {
        assert(slots[b] is Some || slots[b] is None);
    }
}

/// The victim of an atlas with at least one slot is the slot that
/// `is_victim` describes.
pub proof fn lemma_victim(model: AtlasModel)
    requires
        model.slots.len() > 0,
    ensures
        is_victim(model.slots, model.victim()),
        forall|v: int| is_victim(model.slots, v) ==> v == model.victim(),
{
    let w = lemma_victim_exists(model.slots);
    assert forall|v: int| is_victim(model.slots, v) implies v == model.victim() by {
        lemma_victim_unique(model.slots, v, model.victim());
    }
}

/// The victim is an empty slot as long as the atlas is not full, and the
/// least recently used slot once it is.
pub proof fn lemma_victim_kind(model: AtlasModel)
    requires
        model.slots.len() > 0,
    ensures
        model.occupied() < model.slots.len() ==> is_first_empty(model.slots, model.victim()),
        model.occupied() == model.slots.len() ==> is_least_recent(model.slots, model.victim()),
{
    lemma_victim(model);
    lemma_occupancy_full(model.slots);
    lemma_occupancy_bound(model.slots);
    let v = model.victim();
    if is_first_empty(model.slots, v) {
        assert(model.slots[v] is None);
    }
}

/// A character is cached in one slot only, so the slot that holds it is the
/// slot the model speaks of.
pub proof fn lemma_slot_of(model: AtlasModel, i: int, ch: char)
    requires
        model.inv(),
        model.holds(i, ch),
    ensures
        model.contains(ch),
        model.slot_of(ch) == i,
        model.entry(ch) == model.slots[i],
{
    assert(model.holds(model.slot_of(ch), ch));
}

/// A lookup that finds nothing keeps the invariant and everything cached.
pub proof fn lemma_tick(model: AtlasModel)
    requires
        model.inv(),
        model.clock < u32::MAX,
    ensures
        model.tick().inv(),
        model.tick().occupied() == model.occupied(),
        forall|i: int, ch: char| model.tick().holds(i, ch) == model.holds(i, ch),
{
    let after = model.tick();
    assert forall|i: int, j: int, ch: char|
        #![trigger after.holds(i, ch), after.holds(j, ch)]
        after.holds(i, ch) && after.holds(j, ch) implies i == j by {
        assert(model.holds(i, ch) && model.holds(j, ch));
    }
}

/// Using a cached glyph keeps the invariant, the count and the set of
/// cached characters; it changes one time of last use and nothing else.
pub proof fn lemma_touch(model: AtlasModel, ch: char)
    requires
        model.inv(),
        model.contains(ch),
        model.clock < u32::MAX,
    ensures
        model.touch(ch).inv(),
        model.touch(ch).occupied() == model.occupied(),
        model.touch(ch).pixels == model.pixels,
        forall|i: int, c: char| model.touch(ch).holds(i, c) == model.holds(i, c),
        forall|c: char| model.touch(ch).contains(c) == model.contains(c),
        forall|c: char| c != ch ==> model.touch(ch).entry(c) == model.entry(c),
        model.touch(ch).entry(ch) == Some(model.entry(ch).unwrap().used_at(model.clock + 1)),
        model.touch(ch).entry(ch).unwrap().last_used == model.clock + 1,
{
    let after = model.touch(ch);
    let s = model.slot_of(ch);
    assert(model.holds(s, ch));
    lemma_occupancy_update(model.slots, s, after.slots[s]);
    assert forall|i: int, c: char| after.holds(i, c) == model.holds(i, c) by {}
    assert forall|i: int, j: int, c: char|
        #![trigger after.holds(i, c), after.holds(j, c)]
        after.holds(i, c) && after.holds(j, c) implies i == j by {
        assert(model.holds(i, c) && model.holds(j, c));
    }
    assert forall|c: char| after.contains(c) == model.contains(c) by {
        if model.contains(c) {
            assert(after.holds(model.slot_of(c), c));
        }
        if after.contains(c) {
            assert(model.holds(after.slot_of(c), c));
        }
    }
    assert forall|c: char| c != ch implies after.entry(c) == model.entry(c) by {
        if model.contains(c) {
            let i = model.slot_of(c);
            assert(model.holds(i, c));
            assert(after.holds(i, c));
            lemma_slot_of(after, i, c);
        }
    }
    assert(after.holds(s, ch));
    lemma_slot_of(after, s, ch);
}

/// Storing a new glyph keeps the invariant and caches it in the victim
/// slot. While a slot is empty nothing leaves the cache and the count grows
/// by one. Once the atlas is full the count stays, and exactly one glyph
/// leaves: the one in the least recently used slot.
pub proof fn lemma_place(model: AtlasModel, ch: char, tile: SdfTile)
    requires
        model.inv(),
        !model.contains(ch),
        model.capacity() > 0,
        model.clock < u32::MAX,
    ensures
        model.place(ch, tile).inv(),
        model.place(ch, tile).holds(model.victim(), ch),
        model.place(ch, tile).contains(ch),
        model.place(ch, tile).entry(ch) == Some(
            model.new_entry(ch, model.victim(), tile, model.clock + 1),
        ),
        model.place(ch, tile).entry(ch).unwrap().last_used == model.clock + 1,
        forall|i: int, c: char|
            i != model.victim() ==> model.place(ch, tile).holds(i, c) == model.holds(i, c),
        forall|c: char|
            c != ch && !model.holds(model.victim(), c) ==> model.place(ch, tile).entry(c)
                == model.entry(c),
        forall|c: char| model.holds(model.victim(), c) ==> !model.place(ch, tile).contains(c),
        model.occupied() < model.capacity() ==> {
            &&& is_first_empty(model.slots, model.victim())
            &&& model.place(ch, tile).occupied() == model.occupied() + 1
        },
        model.occupied() == model.capacity() ==> {
            &&& is_least_recent(model.slots, model.victim())
            &&& model.place(ch, tile).occupied() == model.occupied()
        },
{
    let after = model.place(ch, tile);
    let v = model.victim();
    let d = model.dim as int;
    lemma_victim(model);
    lemma_victim_kind(model);
    lemma_occupancy_update(model.slots, v, after.slots[v]);
    assert(0 <= v < d * d);
    assert(0 <= v % d < d && 0 <= v / d < d) by (nonlinear_arith)
        requires
            0 <= v < d * d,
            0 < d,
    ;
    assert(after.holds(v, ch));
    assert forall|i: int, c: char| i != v implies after.holds(i, c) == model.holds(i, c) by {}
    assert forall|i: int, j: int, c: char|
        #![trigger after.holds(i, c), after.holds(j, c)]
        after.holds(i, c) && after.holds(j, c) implies i == j by {
        if i != v && j != v {
            assert(model.holds(i, c) && model.holds(j, c));
        } else if i != v {
            assert(model.holds(i, ch));
        } else if j != v {
            assert(model.holds(j, ch));
        }
    }
    assert(after.inv());
    lemma_slot_of(after, v, ch);
    assert forall|c: char| c != ch && !model.holds(v, c) implies after.entry(c) == model.entry(
        c,
    ) by {
        if model.contains(c) {
            let i = model.slot_of(c);
            assert(model.holds(i, c));
            assert(after.holds(i, c));
            lemma_slot_of(after, i, c);
        } else if after.contains(c) {
            let i = after.slot_of(c);
            assert(after.holds(i, c));
            assert(model.holds(i, c));
        }
    }
    assert forall|c: char| model.holds(v, c) implies !after.contains(c) by {
        if after.contains(c) {
            let i = after.slot_of(c);
            assert(after.holds(i, c));
            if i != v {
                assert(model.holds(i, c));
            }
        }
    }
}

/// An atlas without slots caches nothing, and a fetch moves its clock and
/// nothing else.
pub proof fn lemma_no_slots(model: AtlasModel, ch: char, tile: SdfTile)
    requires
        model.inv(),
        model.capacity() == 0,
    ensures
        !model.contains(ch),
        model.occupied() == 0,
        model.fetch(ch, tile) == model.tick(),
{
    if model.contains(ch) {
        assert(model.holds(model.slot_of(ch), ch));
    }
    lemma_occupancy_bound(model.slots);
}

/// Fetching a glyph keeps the invariant and moves the clock by one. Where
/// the atlas has a slot at all, it leaves the glyph cached. The count never
/// shrinks, and as long as a slot was empty nothing leaves the cache.
pub proof fn lemma_fetch(model: AtlasModel, ch: char, tile: SdfTile)
    requires
        model.inv(),
        model.clock < u32::MAX,
    ensures
        model.fetch(ch, tile).inv(),
        model.capacity() > 0 ==> model.fetch(ch, tile).contains(ch),
        model.fetch(ch, tile).clock == model.clock + 1,
        model.fetch(ch, tile).dim == model.dim,
        model.occupied() <= model.fetch(ch, tile).occupied() <= model.capacity(),
        model.occupied() < model.capacity() ==> forall|c: char|
            model.contains(c) ==> model.fetch(ch, tile).contains(c),
{
    let after = model.fetch(ch, tile);
    lemma_occupancy_bound(model.slots);
    if model.contains(ch) {
        lemma_touch(model, ch);
    } else if model.capacity() == 0 {
        lemma_no_slots(model, ch, tile);
        lemma_tick(model);
    } else {
        lemma_place(model, ch, tile);
        let v = model.victim();
        if model.occupied() < model.capacity() {
            assert forall|c: char| model.contains(c) implies after.contains(c) by {
                let i = model.slot_of(c);
                assert(model.holds(i, c));
                assert(i != v);
                assert(after.holds(i, c));
            }
        }
    }
    lemma_occupancy_bound(after.slots);
}

/// Fetching a glyph a second time, with nothing fetched in between, finds
/// it cached: the count, the texture and the set of cached characters stay
/// as the first fetch left them, and the entry is the one the first fetch
/// returned but for its time of last use.
pub proof fn lemma_fetch_again(model: AtlasModel, ch: char, first: SdfTile, second: SdfTile)
    requires
        model.inv(),
        model.capacity() > 0,
        model.clock + 1 < u32::MAX,
    ensures
        ({
            let once = model.fetch(ch, first);
            let twice = once.fetch(ch, second);
            &&& twice == once.touch(ch)
            &&& twice.occupied() == once.occupied()
            &&& twice.pixels == once.pixels
            &&& forall|c: char| twice.contains(c) == once.contains(c)
            &&& once.entry(ch) is Some
            &&& twice.entry(ch) is Some
            &&& twice.entry(ch).unwrap().same_glyph(once.entry(ch).unwrap())
            &&& twice.entry(ch).unwrap().codepoint == ch
            &&& twice.entry(ch).unwrap().advance == once.entry(ch).unwrap().advance
            &&& twice.entry(ch).unwrap().lsb == once.entry(ch).unwrap().lsb
            &&& twice.entry(ch).unwrap().tile_x == once.entry(ch).unwrap().tile_x
            &&& twice.entry(ch).unwrap().tile_y == once.entry(ch).unwrap().tile_y
            &&& twice.entry(ch).unwrap().last_used == once.entry(ch).unwrap().last_used + 1
        }),
{
    let once = model.fetch(ch, first);
    lemma_fetch(model, ch, first);
    if model.contains(ch) {
        lemma_touch(model, ch);
    } else {
        lemma_place(model, ch, first);
    }
    lemma_touch(once, ch);
    assert(once.holds(once.slot_of(ch), ch));
}

/// A set of characters that are all cached is no larger than the number of
/// occupied slots.
pub proof fn lemma_cached_count(model: AtlasModel, chars: Seq<char>)
    requires
        chars.no_duplicates(),
        forall|j: int| 0 <= j < chars.len() ==> model.contains(#[trigger] chars[j]),
    ensures
        chars.len() <= model.occupied(),
    decreases model.slots.len(),
{
    if model.slots.len() == 0 {
        if chars.len() > 0 {
            assert(model.contains(chars[0]));
            assert(model.holds(model.slot_of(chars[0]), chars[0]));
        }
    } else {
        let n = model.slots.len() - 1;
        let shorter = AtlasModel { slots: model.slots.drop_last(), ..model };
        if exists|j: int| 0 <= j < chars.len() && model.holds(n, #[trigger] chars[j]) {
            let p = choose|j: int| 0 <= j < chars.len() && model.holds(n, #[trigger] chars[j]);
            let rest = chars.remove(p);
            assert forall|a: int, b: int| 0 <= a < rest.len() && 0 <= b < rest.len() && a
                != b implies rest[a] != rest[b] by {
                let a0 = if a < p { a } else { a + 1 };
                let b0 = if b < p { b } else { b + 1 };
                assert(rest[a] == chars[a0] && rest[b] == chars[b0]);
            }
            assert forall|j: int| 0 <= j < rest.len() implies shorter.contains(
                #[trigger] rest[j],
            ) by {
                let j0 = if j < p { j } else { j + 1 };
                assert(rest[j] == chars[j0]);
                assert(model.contains(chars[j0]));
                let i = model.slot_of(chars[j0]);
                assert(model.holds(i, chars[j0]));
                assert(chars[j0] != chars[p]);
                assert(shorter.holds(i, rest[j]));
            }
            lemma_cached_count(shorter, rest);
        } else {
            assert forall|j: int| 0 <= j < chars.len() implies shorter.contains(
                #[trigger] chars[j],
            ) by {
                assert(model.contains(chars[j]));
                let i = model.slot_of(chars[j]);
                assert(model.holds(i, chars[j]));
                assert(shorter.holds(i, chars[j]));
            }
            lemma_cached_count(shorter, chars);
        }
    }
}

/// Fetching a run of glyphs keeps the invariant and moves the clock once
/// per glyph. Afterwards the atlas is full, or every glyph of the run is
/// still cached.
pub proof fn lemma_fetch_all(model: AtlasModel, chars: Seq<char>, tiles: Seq<SdfTile>)
    requires
        model.inv(),
        model.clock + chars.len() <= u32::MAX,
        tiles.len() == chars.len(),
    ensures
        model.fetch_all(chars, tiles).inv(),
        model.fetch_all(chars, tiles).clock == model.clock + chars.len(),
        model.fetch_all(chars, tiles).dim == model.dim,
        model.occupied() <= model.fetch_all(chars, tiles).occupied() <= model.capacity(),
        model.fetch_all(chars, tiles).occupied() == model.capacity() || forall|j: int|
            0 <= j < chars.len() ==> model.fetch_all(chars, tiles).contains(#[trigger] chars[j]),
    decreases chars.len(),
{
    if chars.len() == 0 {
        lemma_occupancy_bound(model.slots);
    } else {
        let n = chars.len() - 1;
        let earlier = model.fetch_all(chars.drop_last(), tiles.drop_last());
        let after = model.fetch_all(chars, tiles);
        lemma_fetch_all(model, chars.drop_last(), tiles.drop_last());
        lemma_fetch(earlier, chars[n], tiles[n]);
        assert(after == earlier.fetch(chars[n], tiles[n]));
        if after.occupied() < model.capacity() {
            assert forall|j: int| 0 <= j < chars.len() implies after.contains(
                #[trigger] chars[j],
            ) by {
                if j < n {
                    assert(chars.drop_last()[j] == chars[j]);
                    assert(earlier.contains(chars.drop_last()[j]));
                }
            }
        }
    }
}

/// Fetching as many different characters as the atlas has slots fills every
/// slot, whatever was cached before.
pub proof fn lemma_fill(model: AtlasModel, chars: Seq<char>, tiles: Seq<SdfTile>)
    requires
        model.inv(),
        model.clock + chars.len() <= u32::MAX,
        chars.no_duplicates(),
        chars.len() == model.capacity(),
        tiles.len() == chars.len(),
    ensures
        model.fetch_all(chars, tiles).occupied() == model.capacity(),
        forall|i: int|
            0 <= i < model.capacity() ==> (#[trigger] model.fetch_all(chars, tiles).slots[i]) is Some,
{
    let after = model.fetch_all(chars, tiles);
    lemma_fetch_all(model, chars, tiles);
    if after.occupied() < model.capacity() {
        lemma_cached_count(after, chars);
    }
    lemma_occupancy_full(after.slots);
}

/// Fetching different characters into an atlas that holds nothing, no more
/// of them than it has slots, evicts none: afterwards every one of them is
/// cached, nothing else is, and the count is their number. With as many
/// characters as slots, the atlas is full.
pub proof fn lemma_fill_from_empty(model: AtlasModel, chars: Seq<char>, tiles: Seq<SdfTile>)
    requires
        model.inv(),
        model.occupied() == 0,
        model.clock + chars.len() <= u32::MAX,
        chars.no_duplicates(),
        chars.len() <= model.capacity(),
        tiles.len() == chars.len(),
    ensures
        model.fetch_all(chars, tiles).inv(),
        model.fetch_all(chars, tiles).dim == model.dim,
        model.fetch_all(chars, tiles).clock == model.clock + chars.len(),
        model.fetch_all(chars, tiles).occupied() == chars.len(),
        forall|ch: char| model.fetch_all(chars, tiles).contains(ch) <==> chars.contains(ch),
        chars.len() == model.capacity() ==> forall|i: int|
            0 <= i < model.capacity() ==> (#[trigger] model.fetch_all(chars, tiles).slots[i]) is Some,
    decreases chars.len(),
{
    let after = model.fetch_all(chars, tiles);
    lemma_fetch_all(model, chars, tiles);
    lemma_occupancy_full(after.slots);
    if chars.len() == 0 {
        assert forall|ch: char| !model.contains(ch) by {
            if model.contains(ch) {
                let i = model.slot_of(ch);
                assert(model.holds(i, ch));
                lemma_occupancy_none_converse(model.slots, i);
            }
        }
        assert forall|ch: char| !chars.contains(ch) by {}
    } else {
        let n = chars.len() - 1;
        let first = chars.drop_last();
        let earlier = model.fetch_all(first, tiles.drop_last());
        let c = chars[n];
        assert forall|a: int, b: int| 0 <= a < first.len() && 0 <= b < first.len() && a
            != b implies first[a] != first[b] by {
            assert(first[a] == chars[a] && first[b] == chars[b]);
        }
        lemma_fill_from_empty(model, first, tiles.drop_last());
        assert(after == earlier.fetch(c, tiles[n]));
        assert(!earlier.contains(c)) by {
            if first.contains(c) {
                let j = choose|j: int| 0 <= j < first.len() && first[j] == c;
                assert(chars[j] == c);
            }
        }
        assert(earlier.capacity() == model.capacity());
        lemma_place(earlier, c, tiles[n]);
        lemma_fetch(earlier, c, tiles[n]);
        assert(after == earlier.place(c, tiles[n]));
        assert forall|ch: char| after.contains(ch) <==> chars.contains(ch) by {
            if chars.contains(ch) {
                let j = choose|j: int| 0 <= j < chars.len() && chars[j] == ch;
                if j < n {
                    assert(first[j] == ch);
                    assert(first.contains(ch));
                    assert(earlier.contains(ch));
                    assert(after.contains(ch));
                } else {
                    assert(ch == c);
                    assert(after.contains(ch));
                }
            }
            if after.contains(ch) {
                if ch == c {
                    assert(chars[n] == ch);
                    assert(chars.contains(ch));
                } else {
                    let i = after.slot_of(ch);
                    assert(after.holds(i, ch));
                    if i == earlier.victim() {
                        lemma_slot_of(after, i, c);
                        assert(after.slots[i].unwrap().codepoint == c);
                    }
                    assert(earlier.holds(i, ch));
                    assert(earlier.contains(ch));
                    assert(first.contains(ch));
                    let j = choose|j: int| 0 <= j < first.len() && first[j] == ch;
                    assert(chars[j] == ch);
                    assert(chars.contains(ch));
                }
            }
        }
    }
}

/// In a full atlas, fetching a character that is not cached evicts exactly
/// one glyph: the one whose time of last use is the smallest, the lowest
/// slot among equals. That character is no longer cached, the new one is,
/// in the slot the other left, and every other glyph stays where it was.
pub proof fn lemma_evicts_least_recent(model: AtlasModel, ch: char, tile: SdfTile)
    requires
        model.inv(),
        model.capacity() > 0,
        model.occupied() == model.capacity(),
        !model.contains(ch),
        model.clock < u32::MAX,
    ensures
        ({
            let v = model.victim();
            let evicted = model.slots[v].unwrap();
            let after = model.fetch(ch, tile);
            &&& 0 <= v < model.capacity()
            &&& model.slots[v] is Some
            &&& forall|i: int|
                0 <= i < model.capacity() ==> evicted.last_used <= (#[trigger] model.slots[i]).unwrap().last_used
            &&& forall|i: int|
                0 <= i < v ==> evicted.last_used < (#[trigger] model.slots[i]).unwrap().last_used
            &&& !after.contains(evicted.codepoint)
            &&& after.contains(ch)
            &&& after.slot_of(ch) == v
            &&& after.occupied() == model.capacity()
            &&& forall|i: int| 0 <= i < model.capacity() && i != v ==> after.slots[i] == model.slots[i]
            &&& forall|c: char|
                c != evicted.codepoint ==> (model.contains(c) ==> after.contains(c))
            &&& forall|c: char| c != evicted.codepoint && c != ch ==> after.entry(c) == model.entry(c)
            &&& after.entry(ch) == Some(model.stored_entry(ch, tile))
            &&& after.entry(ch).unwrap().tile_x == evicted.tile_x
            &&& after.entry(ch).unwrap().tile_y == evicted.tile_y
        }),
{
    let v = model.victim();
    let after = model.fetch(ch, tile);
    lemma_place(model, ch, tile);
    lemma_victim(model);
    let evicted = model.slots[v].unwrap();
    assert(model.holds(v, evicted.codepoint));
    lemma_slot_of(after, v, ch);
    assert forall|c: char| c != evicted.codepoint && c != ch implies after.entry(c)
        == model.entry(c) by {
        if model.holds(v, c) {
            lemma_slot_of(model, v, c);
        }
    }
    assert forall|c: char| c != evicted.codepoint && model.contains(c) implies after.contains(
        c,
    ) by {
        let i = model.slot_of(c);
        assert(model.holds(i, c));
        assert(i != v);
        assert(after.holds(i, c));
    }
}

/// While a slot is empty, fetching a character that is not cached evicts
/// nothing: the glyph goes to the first empty slot and the count grows by
/// one.
pub proof fn lemma_no_eviction_while_empty(model: AtlasModel, ch: char, tile: SdfTile)
    requires
        model.inv(),
        model.capacity() > 0,
        model.occupied() < model.capacity(),
        !model.contains(ch),
        model.clock < u32::MAX,
    ensures
        ({
            let v = model.victim();
            let after = model.fetch(ch, tile);
            &&& is_first_empty(model.slots, v)
            &&& after.holds(v, ch)
            &&& after.occupied() == model.occupied() + 1
            &&& forall|i: int| 0 <= i < model.capacity() && i != v ==> after.slots[i] == model.slots[i]
            &&& forall|c: char| model.contains(c) ==> after.contains(c)
        }),
{
    lemma_place(model, ch, tile);
    lemma_fetch(model, ch, tile);
}

/// Storing a glyph changes the samples of its tile and no others: a sample
/// in the square of the victim slot is the tile's sample at the same place
/// within the square; every other sample keeps its value.
pub proof fn lemma_place_sample(model: AtlasModel, ch: char, tile: SdfTile, x: int, y: int)
    requires
        model.inv(),
        model.capacity() > 0,
        0 <= x < model.texture_size(),
        0 <= y < model.texture_size(),
    ensures
        model.place(ch, tile).sample(x, y) == if x / 32 == model.victim() % (model.dim as int) && y
            / 32 == model.victim() / (model.dim as int) {
            tile.at(x % 32, y % 32)
        } else {
            model.sample(x, y)
        },
{
    let width = model.texture_size() as int;
    let k = y * width + x;
    assert(0 <= k < width * width) by (nonlinear_arith)
        requires
            0 <= x < width,
            0 <= y < width,
            k == y * width + x,
    ;
    lemma_fundamental_div_mod_converse(k, width, y, x);
    assert(model.place(ch, tile).pixels[k] == blit(
        model.pixels,
        model.dim,
        model.victim(),
        tile.data@,
    )[k]);
}

} // verus!
