//! How the registry keeps coordinates: maps and sets are keyed by the keys
//! of positions.

use vstd::prelude::*;
use std::collections::HashMap;
use std::collections::HashSet;
use vstd::std_specs::iter::IteratorSpec;
use crate::chunk::{Chunk, ChunkView};
use crate::chunk_viewer::{in_window, ChunkViewer};
use crate::compressed_chunk::{CompressedChunkView, Lz4CompressedChunk};
use crate::index_set::Triple;
use crate::math::{key_pos, lemma_pos_key_injective, pos_key, Pos, ToTuple};
use crate::sequences::{lemma_prefix_step, lemma_prefix_whole, lemma_pushed};

verus! {

broadcast use vstd::std_specs::hash::group_hash_axioms;

/// The resident chunks of a map from keys, by coordinate.
pub(super) open spec fn resident_of(m: Map<u128, Chunk>) -> Map<Pos, ChunkView> {
    Map::new(|p: Pos| m.contains_key(pos_key(p)), |p: Pos| m[pos_key(p)]@)
}

/// The compressed chunks of a map from keys, by coordinate.
pub(super) open spec fn compressed_of(m: Map<u128, Lz4CompressedChunk>) -> Map<Pos, CompressedChunkView> {
    Map::new(|p: Pos| m.contains_key(pos_key(p)), |p: Pos| m[pos_key(p)]@)
}

/// The coordinates whose keys a set holds.
pub(super) open spec fn coords_of(s: Set<u128>) -> Set<Pos> {
    Set::new(|p: Pos| s.contains(pos_key(p)))
}

/// The coordinates whose triples a sequence holds.
pub(super) open spec fn coords_of_triples(s: Seq<Triple>) -> Set<Pos> {
    Set::new(|p: Pos| s.contains(p.tuple_spec()))
}

/// Every key of the set is the key of a coordinate.
pub(super) open spec fn keys_of_coords(s: Set<u128>) -> bool {
    forall|k: u128| #[trigger] s.contains(k) ==> pos_key(key_pos(k)) == k
}

/// Inserting under the key of a coordinate inserts at the coordinate.
pub(super) proof fn lemma_resident_insert(m: Map<u128, Chunk>, p: Pos, c: Chunk)
    ensures
        resident_of(m.insert(pos_key(p), c)) == resident_of(m).insert(p, c@),
{
    assert forall|q: Pos| q != p implies pos_key(q) != pos_key(p) by {
        lemma_pos_key_injective(p, q);
    }
    assert(resident_of(m.insert(pos_key(p), c)) =~= resident_of(m).insert(p, c@));
}

/// Removing the key of a coordinate removes the coordinate.
pub(super) proof fn lemma_resident_remove(m: Map<u128, Chunk>, p: Pos)
    ensures
        resident_of(m.remove(pos_key(p))) == resident_of(m).remove(p),
{
    assert forall|q: Pos| q != p implies pos_key(q) != pos_key(p) by {
        lemma_pos_key_injective(p, q);
    }
    assert(resident_of(m.remove(pos_key(p))) =~= resident_of(m).remove(p));
}

/// Inserting under the key of a coordinate inserts at the coordinate.
pub(super) proof fn lemma_compressed_insert(m: Map<u128, Lz4CompressedChunk>, p: Pos, c: Lz4CompressedChunk)
    ensures
        compressed_of(m.insert(pos_key(p), c)) == compressed_of(m).insert(p, c@),
{
    assert forall|q: Pos| q != p implies pos_key(q) != pos_key(p) by {
        lemma_pos_key_injective(p, q);
    }
    assert(compressed_of(m.insert(pos_key(p), c)) =~= compressed_of(m).insert(p, c@));
}

/// Removing the key of a coordinate removes the coordinate.
pub(super) proof fn lemma_compressed_remove(m: Map<u128, Lz4CompressedChunk>, p: Pos)
    ensures
        compressed_of(m.remove(pos_key(p))) == compressed_of(m).remove(p),
{
    assert forall|q: Pos| q != p implies pos_key(q) != pos_key(p) by {
        lemma_pos_key_injective(p, q);
    }
    assert(compressed_of(m.remove(pos_key(p))) =~= compressed_of(m).remove(p));
}

/// Inserting the key of a coordinate inserts the coordinate.
pub(super) proof fn lemma_coords_insert(s: Set<u128>, p: Pos)
    ensures
        coords_of(s.insert(pos_key(p))) == coords_of(s).insert(p),
{
    assert forall|q: Pos| q != p implies pos_key(q) != pos_key(p) by {
        lemma_pos_key_injective(p, q);
    }
    assert(coords_of(s.insert(pos_key(p))) =~= coords_of(s).insert(p));
}

/// The keys of a map, each once, in the order in which the map is walked.
pub(super) fn map_keys<V>(m: &HashMap<u128, V>) -> (keys: Vec<u128>)
    ensures
        keys@.to_set() == m@.dom(),
        keys@.no_duplicates(),
{
    let mut keys: Vec<u128> = Vec::new();
    let ghost all: Seq<u128> = m.keys().remaining().unref();
    for k in it: m.keys()
        invariant
            keys@ == it.seq().take(it.index() as int).unref(),
            it.seq().unref().to_set() == m@.dom(),
            it.seq().unref().no_duplicates(),
            all == it.seq().unref(),
    {
        keys.push(*k);
    }
    assert(keys@ =~= all);
    keys
}

/// The keys of a set, each once, in the order in which the set is walked.
pub(super) fn set_keys(s: &HashSet<u128>) -> (keys: Vec<u128>)
    ensures
        keys@.to_set() == s@,
        keys@.no_duplicates(),
{
    let mut keys: Vec<u128> = Vec::new();
    let ghost all: Seq<u128> = s.iter().remaining().unref();
    for k in it: s.iter()
        invariant
            keys@ == it.seq().take(it.index() as int).unref(),
            it.seq().unref().to_set() == s@,
            it.seq().unref().no_duplicates(),
            all == it.seq().unref(),
    {
        keys.push(*k);
    }
    assert(keys@ =~= all);
    keys
}

/// The coordinates of the keys, in the same order.
pub(super) fn coords_of_keys(keys: &Vec<u128>) -> (coords: Vec<Pos>)
    requires
        keys@.no_duplicates(),
        forall|i: int| 0 <= i < keys@.len() ==> pos_key(key_pos(#[trigger] keys@[i])) == keys@[i],
    ensures
        coords@.no_duplicates(),
        forall|p: Pos| #[trigger] coords@.contains(p) <==> keys@.contains(pos_key(p)),
{
    let mut coords: Vec<Pos> = Vec::new();
    let mut i: usize = 0;
    proof {
        lemma_prefix_whole(keys@);
    }
    while i < keys.len()
        invariant
            i <= keys@.len(),
            keys@.no_duplicates(),
            forall|i: int| 0 <= i < keys@.len() ==> pos_key(key_pos(#[trigger] keys@[i])) == keys@[i],
            coords@.no_duplicates(),
            forall|p: Pos| #[trigger]
                coords@.contains(p) <==> keys@.subrange(0, i as int).contains(pos_key(p)),
        decreases keys.len() - i,
    {
        proof {
            lemma_prefix_step(keys@, i as int);
        }
        match Pos::from_key(keys[i]) {
            Some(pos) => {
                proof {
                    assert forall|q: Pos| q != pos implies pos_key(q) != pos_key(pos) by {
                        lemma_pos_key_injective(pos, q);
                    }
                    lemma_pushed(coords@, pos);
                }
                coords.push(pos);
            },
            None => {
                proof {
                    lemma_pos_key_injective(key_pos(keys@[i as int]), key_pos(keys@[i as int]));
                }
            },
        }
        i += 1;
    }
    proof {
        lemma_prefix_whole(keys@);
    }
    coords
}

/// Drops from the map every entry whose key the set does not hold.
pub(super) fn retain_keys<V>(m: &mut HashMap<u128, V>, keep: &HashSet<u128>)
    ensures
        final(m)@ == old(m)@.restrict(keep@),
{
    let keys = map_keys(m);
    let mut i: usize = 0;
    proof {
        assert(keys@.subrange(0, keys@.len() as int) =~= keys@);
        assert(m@ =~= old(m)@.restrict(keep@ + keys@.to_set()));
    }
    while i < keys.len()
        invariant
            i <= keys@.len(),
            keys@.to_set() == old(m)@.dom(),
            keys@.no_duplicates(),
            m@ == old(m)@.restrict(keep@ + keys@.subrange(i as int, keys@.len() as int).to_set()),
        decreases keys.len() - i,
    {
        let key = keys[i];
        let ghost rest = keys@.subrange(i as int, keys@.len() as int).to_set();
        let ghost rest_after = keys@.subrange(i + 1, keys@.len() as int).to_set();
        proof {
            assert forall|k: u128| rest.contains(k) <==> rest_after.contains(k) || k == key by {
                if rest.contains(k) {
                    let j = keys@.subrange(i as int, keys@.len() as int).index_of(k);
                    if j > 0 {
                        assert(keys@.subrange(i + 1, keys@.len() as int)[j - 1] == k);
                    }
                }
                if rest_after.contains(k) {
                    let j = keys@.subrange(i + 1, keys@.len() as int).index_of(k);
                    assert(keys@.subrange(i as int, keys@.len() as int)[j + 1] == k);
                }
                if k == key {
                    assert(keys@.subrange(i as int, keys@.len() as int)[0] == k);
                }
            }
        }
        if !keep.contains(&key) {
            m.remove(&key);
            proof {
                if rest_after.contains(key) {
                    let j = keys@.subrange(i + 1, keys@.len() as int).index_of(key);
                    assert(keys@[i + 1 + j] == key);
                }
            }
            assert(m@ =~= old(m)@.restrict(keep@ + rest_after));
        } else {
            assert(m@ =~= old(m)@.restrict(keep@ + rest_after));
        }
        i += 1;
    }
    assert(keys@.subrange(i as int, keys@.len() as int).to_set() =~= Set::<u128>::empty());
    assert(m@ =~= old(m)@.restrict(keep@));
}

/// Adds to the set of keys the chunks of a viewer's window.
pub(super) fn insert_window(visible: &mut HashSet<u128>, viewer: &ChunkViewer)
    requires
        keys_of_coords(old(visible)@),
    ensures
        keys_of_coords(final(visible)@),
        forall|p: Pos|
            coords_of(final(visible)@).contains(p) <==> coords_of(old(visible)@).contains(p)
                || in_window(viewer@.pos, viewer@.render_distance as int, p.tuple_spec()),
{
    let n = viewer.visible_len();
    let mut i: usize = 0;
    while i < n
        invariant
            viewer@.wf(),
            n == viewer@.visible.len(),
            i <= n,
            keys_of_coords(visible@),
            forall|p: Pos|
                coords_of(visible@).contains(p) <==> coords_of(old(visible)@).contains(p)
                    || viewer@.visible.subrange(0, i as int).contains(p.tuple_spec()),
        decreases n - i,
    {
        let ghost before = visible@;
        match viewer.visible_at(i) {
            Some(pos) => {
                visible.insert(pos.key());
                proof {
                    lemma_coords_insert(before, pos);
                    lemma_pos_key_injective(pos, pos);
                    let listed = viewer@.visible.subrange(0, i as int);
                    let listed_after = viewer@.visible.subrange(0, i + 1);
                    assert forall|t: Triple| listed_after.contains(t) <==> listed.contains(t) || t
                        == pos.tuple_spec() by {
                        if listed_after.contains(t) {
                            let j = listed_after.index_of(t);
                            if j < i {
                                assert(listed[j] == t);
                            }
                        }
                        if listed.contains(t) {
                            let j = listed.index_of(t);
                            assert(listed_after[j] == t);
                        }
                        if t == pos.tuple_spec() {
                            assert(listed_after[i as int] == t);
                        }
                    }
                }
            },
            None => {},
        }
        i += 1;
    }
    proof {
        assert(viewer@.visible.subrange(0, n as int) =~= viewer@.visible);
    }
}

} // verus!
