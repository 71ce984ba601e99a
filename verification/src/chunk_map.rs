//! The registry of chunks: which coordinates are resident, which are
//! compressed, and the steps that move them between these states.
//!
//! The registry is owned by one coordinator. Work that is done elsewhere
//! (generating a chunk, compressing one) is handed out as a value and its
//! result handed back through a method; decompression results wait in a queue
//! of the registry until [`ChunkMap::store_decompressed`] stores them.

use vstd::prelude::*;
use std::collections::HashMap;
use std::collections::HashSet;
use std::collections::VecDeque;
use indexmap::IndexSet;
use crate::blocks::Block;
use crate::byte_order::ByteOrder;
use crate::chunk::{chunk_coord_in_range, extent_of, Chunk, ChunkView, Voxel, CHUNK_SIZE};
use crate::chunk_viewer::ChunkViewer;
use crate::compressed_chunk::{CompressedChunkView, Lz4CompressedChunk};
use crate::index_set::{
    index_set_contains,
    index_set_insert,
    index_set_items,
    index_set_new,
    index_set_remove,
    Triple,
};
use crate::math::{key_pos, lemma_pos_key_injective, lemma_truncated_division, pos_key, DivFloor, Pos, ToTuple};
use crate::ray_cast::{cell_after, is_step, ray_in_range, Axis, RayHit, RayWalk};
use crate::sequences::{lemma_prefix_step, lemma_prefix_whole, lemma_pushed, lemma_swap_removed};
use self::keys::{
    compressed_of,
    coords_of,
    coords_of_keys,
    coords_of_triples,
    insert_window,
    keys_of_coords,
    lemma_compressed_insert,
    lemma_compressed_remove,
    lemma_coords_insert,
    lemma_resident_insert,
    lemma_resident_remove,
    map_keys,
    resident_of,
    retain_keys,
    set_keys,
};
pub use self::model::{
    chunk_of,
    lemma_decompressed_wf,
    lemma_evicted_not_contained,
    lemma_first_queued,
    lemma_never_resident_and_compressed,
    lemma_owner_stores,
    lemma_read_keeps_wf,
    lemma_sharing_chunks,
    lemma_step_keeps_wf,
    lemma_stored_wf,
    lemma_unloaded_visible,
    lemma_write_keeps_wf,
    lemma_write_then_read,
    shared_neighbor,
    sharing_chunks,
    views_of,
    window_of,
    windows_of,
    ChunkMapView,
    ChunkState,
    PipelineStep,
};

mod keys;
pub mod model;

verus! {

broadcast use vstd::std_specs::hash::group_hash_axioms;

/// The registry of chunks. Every coordinate has at most one chunk in it,
/// resident or compressed.
pub struct ChunkMap {
    /// The resident chunks, by the key of their coordinate.
    chunks: HashMap<u128, Chunk>,
    /// The compressed chunks, by the key of their coordinate.
    compressed_chunks: HashMap<u128, Lz4CompressedChunk>,
    compression_level: u32,
    /// Whether voxels are compressed in little-endian byte order instead of
    /// this machine's order.
    compress_byteorder: bool,
    /// The byte order that the flag stands for.
    order: ByteOrder,
    /// The coordinates of the chunks that should be loaded.
    visible_chunks: HashSet<u128>,
    /// The coordinates of the chunks that need to be meshed again.
    dirty_chunks: HashSet<u128>,
    /// The coordinates for which a chunk is being generated, so that no chunk
    /// is generated twice.
    loading_chunks: IndexSet<Triple>,
    /// Decompression results that wait to be stored, oldest first.
    decompressed: VecDeque<Chunk>,
    /// Whether chunks are meshed.
    mesher: bool,
}

impl View for ChunkMap {
    type V = ChunkMapView;

    closed spec fn view(&self) -> ChunkMapView {
        ChunkMapView {
            resident: resident_of(self.chunks@),
            compressed: compressed_of(self.compressed_chunks@),
            visible: coords_of(self.visible_chunks@),
            dirty: coords_of(self.dirty_chunks@),
            loading: coords_of_triples(index_set_items(self.loading_chunks)),
            decompressed: views_of(self.decompressed@),
            compression_level: self.compression_level,
            byteorder: self.compress_byteorder,
            order: self.order,
            mesher: self.mesher,
        }
    }
}

/// A chunk to compress away from the registry, with the settings of the
/// registry that handed it out.
pub struct CompressionJob {
    /// A copy of the chunk as it was when the job was made.
    pub chunk: Chunk,
    pub compression_level: u32,
    pub order: ByteOrder,
}

impl CompressionJob {
    /// Compresses the chunk. The result goes back to the registry through
    /// [`ChunkMap::store_compressed`].
    pub fn run(&self) -> (r: Option<Lz4CompressedChunk>)
        requires
            self.chunk.wf(),
        ensures
            r matches Some(c) ==> c@.compressed_from(self.chunk@, self.order),
    {
        self.chunk.compress_in(self.compression_level, self.order)
    }
}

impl Default for ChunkMap {
    /// An empty registry that compresses in this machine's byte order and
    /// does not mesh.
    fn default() -> (map: ChunkMap)
        ensures
            map.wf(),
            map@.resident == Map::<Pos, ChunkView>::empty(),
            map@.compressed == Map::<Pos, CompressedChunkView>::empty(),
            map@.visible == Set::<Pos>::empty(),
            map@.dirty == Set::<Pos>::empty(),
            map@.loading == Set::<Pos>::empty(),
            map@.decompressed == Seq::<ChunkView>::empty(),
            map@.compression_level == 10,
            !map@.byteorder,
            !map@.mesher,
    {
        ChunkMap::new(false, false)
    }
}

/// Lists the coordinates of the chunks that a write to `pos` reaches.
pub fn chunks_sharing(pos: &Pos) -> (coords: Vec<Pos>)
    ensures
        coords@ == sharing_chunks(*pos),
{
    proof {
        lemma_truncated_division(pos.x as int, CHUNK_SIZE as int);
        lemma_truncated_division(pos.y as int, CHUNK_SIZE as int);
        lemma_truncated_division(pos.z as int, CHUNK_SIZE as int);
    }
    let mut chunk_keys: Vec<Pos> = Vec::new();
    let chunk_key = pos.div_floor(CHUNK_SIZE);
    chunk_keys.push(chunk_key);
    let x_rem: i32 = pos.x % CHUNK_SIZE;
    if x_rem == 0 {
        chunk_keys.push(chunk_key.offset(-1, 0, 0));
    } else if x_rem == 63 || x_rem == -1 {
        chunk_keys.push(chunk_key.offset(1, 0, 0));
    }
    let y_rem: i32 = pos.y % CHUNK_SIZE;
    if y_rem == 0 {
        chunk_keys.push(chunk_key.offset(0, -1, 0));
    } else if y_rem == 63 || y_rem == -1 {
        chunk_keys.push(chunk_key.offset(0, 1, 0));
    }
    let z_rem: i32 = pos.z % CHUNK_SIZE;
    if z_rem == 0 {
        chunk_keys.push(chunk_key.offset(0, 0, -1));
    } else if z_rem == 63 || z_rem == -1 {
        chunk_keys.push(chunk_key.offset(0, 0, 1));
    }
    assert(chunk_keys@ =~= sharing_chunks(*pos));
    chunk_keys
}

impl ChunkMap {
    /// How the fields stand for what the registry holds: every chunk is kept
    /// under the key of its coordinate, and every key is a coordinate's key.
    pub closed spec fn inv(&self) -> bool {
        &&& forall|k: u128| #[trigger]
            self.chunks@.contains_key(k) ==> pos_key(self.chunks@[k].pos) == k
        &&& forall|k: u128| #[trigger]
            self.compressed_chunks@.contains_key(k) ==> pos_key(self.compressed_chunks@[k]@.pos)
                == k
        &&& keys_of_coords(self.visible_chunks@)
        &&& keys_of_coords(self.dirty_chunks@)
        &&& index_set_items(self.loading_chunks).no_duplicates()
    }

    /// The registry's invariant. Every constructor establishes it and every
    /// method keeps it.
    pub open spec fn wf(&self) -> bool {
        self.inv() && self@.wf()
    }

    /// An empty registry.
    ///
    /// * `byteorder` - if set, voxel bytes are compressed in little-endian
    ///   order instead of this machine's order.
    /// * `mesher` - whether chunks are meshed.
    pub fn new(byteorder: bool, mesher: bool) -> (map: ChunkMap)
        ensures
            map.wf(),
            map@.resident == Map::<Pos, ChunkView>::empty(),
            map@.compressed == Map::<Pos, CompressedChunkView>::empty(),
            map@.visible == Set::<Pos>::empty(),
            map@.dirty == Set::<Pos>::empty(),
            map@.loading == Set::<Pos>::empty(),
            map@.decompressed == Seq::<ChunkView>::empty(),
            map@.compression_level == 10,
            map@.byteorder == byteorder,
            map@.mesher == mesher,
    {
        let map = ChunkMap {
            chunks: HashMap::new(),
            compressed_chunks: HashMap::new(),
            compression_level: 10,
            compress_byteorder: byteorder,
            order: ByteOrder::for_flag(byteorder),
            visible_chunks: HashSet::new(),
            dirty_chunks: HashSet::new(),
            loading_chunks: index_set_new(),
            decompressed: VecDeque::new(),
            mesher,
        };
        assert(map@.resident =~= Map::<Pos, ChunkView>::empty());
        assert(map@.compressed =~= Map::<Pos, CompressedChunkView>::empty());
        assert(map@.visible =~= Set::<Pos>::empty());
        assert(map@.dirty =~= Set::<Pos>::empty());
        assert(map@.loading =~= Set::<Pos>::empty());
        assert(map@.decompressed =~= Seq::<ChunkView>::empty());
        map
    }

    pub fn get_byteorder(&self) -> (byteorder: bool)
        ensures
            byteorder == self@.byteorder,
    {
        self.compress_byteorder
    }

    /// Changes the byte-order mode. The mode is fixed once a compressed chunk
    /// exists.
    pub fn set_byteorder(&mut self, byteorder: bool)
        requires
            old(self).wf(),
            forall|p: Pos| !old(self)@.compressed.contains_key(p),
        ensures
            final(self).wf(),
            final(self)@.byteorder == byteorder,
            final(self)@ == (ChunkMapView {
                byteorder,
                order: final(self)@.order,
                ..old(self)@
            }),
    {
        self.compress_byteorder = byteorder;
        self.order = ByteOrder::for_flag(byteorder);
    }

    /// Where the coordinate stands in the pipeline.
    pub fn chunk_state(&self, pos: &Pos) -> (state: ChunkState)
        ensures
            state == self@.state(*pos),
    {
        if self.contains_chunk(pos) {
            if self.dirty_chunks.contains(&pos.key()) {
                ChunkState::Dirty
            } else {
                ChunkState::Loaded
            }
        } else if index_set_contains(&self.loading_chunks, &pos.to_tuple()) {
            ChunkState::Loading
        } else {
            ChunkState::Unloaded
        }
    }

    /// Marks the coordinate as one whose mesh is stale. The mark stays until
    /// the marks are cleared, also where the registry has no chunk for the
    /// coordinate.
    pub fn make_dirty(&mut self, pos: &Pos)
        requires
            old(self).wf(),
        ensures
            final(self).wf(),
            final(self)@ == (ChunkMapView { dirty: old(self)@.dirty.insert(*pos), ..old(self)@ }),
    {
        self.dirty_chunks.insert(pos.key());
        proof {
            lemma_coords_insert(old(self).dirty_chunks@, *pos);
            lemma_pos_key_injective(*pos, *pos);
        }
    }

    /// Takes the chunk of the coordinate out of the registry, whether it is
    /// resident or compressed; without effect if there is none.
    pub fn remove_chunk(&mut self, pos: &Pos)
        requires
            old(self).wf(),
        ensures
            final(self).wf(),
            final(self)@ == old(self)@.after_removed(*pos),
            !final(self)@.contains(*pos),
    {
        let key = pos.key();
        proof {
            lemma_resident_remove(self.chunks@, *pos);
            lemma_compressed_remove(self.compressed_chunks@, *pos);
        }
        if self.chunks.remove(&key).is_none() {
            self.compressed_chunks.remove(&key);
            assert(self.chunks@ =~= old(self).chunks@.remove(key));
        } else {
            assert(old(self)@.resident.contains_key(*pos));
            assert(!old(self)@.compressed.contains_key(*pos));
            assert(self.compressed_chunks@ =~= old(self).compressed_chunks@.remove(key));
        }
    }

    /// Notes that a generation job for the coordinate is under way.
    pub fn set_chunk_state_loading(&mut self, pos: &Pos)
        requires
            old(self).wf(),
        ensures
            final(self).wf(),
            final(self)@ == (ChunkMapView {
                loading: old(self)@.loading.insert(*pos),
                ..old(self)@
            }),
    {
        let ghost items = index_set_items(self.loading_chunks);
        index_set_insert(&mut self.loading_chunks, pos.to_tuple());
        proof {
            if !items.contains(pos.tuple_spec()) {
                lemma_pushed(items, pos.tuple_spec());
            }
            assert(self@.loading =~= old(self)@.loading.insert(*pos));
        }
    }

    /// Notes that no generation job for the coordinate is under way.
    pub fn set_chunk_state_loaded(&mut self, pos: &Pos)
        requires
            old(self).wf(),
        ensures
            final(self).wf(),
            final(self)@ == (ChunkMapView {
                loading: old(self)@.loading.remove(*pos),
                ..old(self)@
            }),
    {
        let ghost items = index_set_items(self.loading_chunks);
        index_set_remove(&mut self.loading_chunks, &pos.to_tuple());
        proof {
            if items.contains(pos.tuple_spec()) {
                lemma_swap_removed(items, pos.tuple_spec());
            }
            assert(self@.loading =~= old(self)@.loading.remove(*pos));
        }
    }

    /// A job that compresses the chunk of the coordinate as it stands now, if
    /// that chunk is resident.
    pub fn compress_chunk(&self, pos: Pos) -> (job: Option<CompressionJob>)
        requires
            self.wf(),
        ensures
            job is Some <==> self@.resident.contains_key(pos),
            job matches Some(j) ==> j.chunk@ == self@.resident[pos] && j.chunk.wf()
                && j.compression_level == self@.compression_level && j.order == self@.order,
    {
        match self.chunks.get(&pos.key()) {
            Some(chunk) => Some(
                CompressionJob {
                    chunk: chunk.clone(),
                    compression_level: self.compression_level,
                    order: self.order,
                },
            ),
            None => None,
        }
    }

    /// Drops the decompression results that have not been stored.
    pub fn clear_channels(&mut self)
        requires
            old(self).wf(),
        ensures
            final(self).wf(),
            final(self)@ == (ChunkMapView {
                decompressed: Seq::<ChunkView>::empty(),
                ..old(self)@
            }),
    {
        self.decompressed.clear();
        assert(self@.decompressed =~= Seq::<ChunkView>::empty());
    }

    /// Stores the result of a compression job: the compressed chunk takes the
    /// place of whatever the registry holds for its coordinate.
    pub fn store_compressed(&mut self, compressed_chunk: Lz4CompressedChunk)
        requires
            old(self).wf(),
        ensures
            final(self).wf(),
            final(self)@ == old(self)@.after_compressed(compressed_chunk@),
    {
        let pos = compressed_chunk.pos();
        self.remove_chunk(&pos);
        proof {
            lemma_compressed_insert(self.compressed_chunks@, pos, compressed_chunk);
        }
        self.compressed_chunks.insert(pos.key(), compressed_chunk);
        assert(self@.compressed =~= old(self)@.compressed.insert(pos, compressed_chunk@));
    }

    /// Stores the result of a generation job: the chunk becomes resident in
    /// place of whatever the registry holds for its coordinate, and the
    /// coordinate is no longer loading. Where chunks are meshed the chunk is
    /// marked dirty; where they are not, a job that compresses it is handed
    /// back.
    pub fn store_generated(&mut self, chunk: Chunk) -> (job: Option<CompressionJob>)
        requires
            old(self).wf(),
            chunk.wf(),
        ensures
            final(self).wf(),
            final(self)@ == old(self)@.after_generated(chunk@),
            job is Some <==> !old(self)@.mesher,
            job matches Some(j) ==> j.chunk@ == chunk@ && j.chunk.wf() && j.compression_level
                == old(self)@.compression_level && j.order == old(self)@.order,
    {
        let pos = chunk.pos;
        self.set_chunk_state_loaded(&pos);
        self.remove_chunk(&pos);
        proof {
            lemma_resident_insert(self.chunks@, pos, chunk);
        }
        self.chunks.insert(pos.key(), chunk);
        assert(self@.resident =~= old(self)@.resident.insert(pos, chunk@));
        if self.mesher {
            self.make_dirty(&pos);
            None
        } else {
            self.compress_chunk(pos)
        }
    }

    /// The voxel at `pos`, if the chunk that owns it is resident, waits in
    /// the queue of decompression results, or is compressed. A compressed
    /// chunk is decompressed and the result queued, to be stored by
    /// [`ChunkMap::store_decompressed`].
    pub fn get_voxel(&mut self, pos: &Pos) -> (voxel: Option<Voxel>)
        requires
            old(self).wf(),
        ensures
            final(self).wf(),
            voxel == old(self)@.voxel_at(*pos),
            final(self)@ == old(self)@.after_read(*pos),
    {
        let chunk_key = pos.div_floor(CHUNK_SIZE);
        let key = chunk_key.key();
        assert(chunk_key == chunk_of(*pos));
        match self.chunks.get(&key) {
            Some(chunk) => {
                proof {
                    assert(self@.resident.contains_key(chunk_key));
                    lemma_owner_stores(*pos);
                }
                return Some(chunk.get_voxel(*pos));
            },
            None => {},
        }
        assert(!self@.resident.contains_key(chunk_key));
        // Look through the results that wait, putting each back behind the others.
        let ghost queue = self.decompressed@;
        let n = self.decompressed.len();
        proof {
            assert forall|j: int| 0 <= j < n implies (#[trigger] queue[j]).wf() by {
                assert(self@.decompressed[j] == queue[j]@);
            }
        }
        let mut found: Option<Voxel> = None;
        let mut i: usize = 0;
        while i < n && found.is_none()
            invariant
                n == queue.len(),
                i <= n,
                chunk_key == chunk_of(*pos),
                forall|j: int| 0 <= j < n ==> (#[trigger] queue[j]).wf(),
                self.decompressed@ == queue.subrange(i as int, n as int) + queue.subrange(
                    0,
                    i as int,
                ),
                found is None ==> forall|j: int| 0 <= j < i ==> (#[trigger] queue[j]).pos != chunk_key,
                found matches Some(v) ==> i >= 1 && queue[i - 1].pos == chunk_key && v == queue[i
                    - 1].voxel_at(*pos) && forall|j: int|
                    0 <= j < i - 1 ==> (#[trigger] queue[j]).pos != chunk_key,
                self.chunks == old(self).chunks,
                self.compressed_chunks == old(self).compressed_chunks,
                self.visible_chunks == old(self).visible_chunks,
                self.dirty_chunks == old(self).dirty_chunks,
                self.loading_chunks == old(self).loading_chunks,
                self.compression_level == old(self).compression_level,
                self.compress_byteorder == old(self).compress_byteorder,
                self.order == old(self).order,
                self.mesher == old(self).mesher,
            decreases n - i,
        {
            match self.decompressed.pop_front() {
                Some(chunk) => {
                    assert(chunk == queue[i as int]);
                    if chunk.pos == chunk_key {
                        proof {
                            lemma_owner_stores(*pos);
                        }
                        found = Some(chunk.get_voxel(*pos));
                    }
                    self.decompressed.push_back(chunk);
                    assert(self.decompressed@ =~= queue.subrange(i + 1, n as int) + queue.subrange(
                        0,
                        i + 1,
                    ));
                },
                None => {},
            }
            i += 1;
        }
        let ghost before = old(self)@;
        proof {
            assert(before.decompressed == views_of(queue));
            assert forall|j: int| 0 <= j < n implies (#[trigger] before.decompressed[j]).pos
                == queue[j].pos by {}
        }
        match found {
            Some(v) => {
                proof {
                    let m = i - 1;
                    assert(before.decompressed[m].pos == chunk_key);
                    assert(before.is_first_queued(chunk_key, m));
                    assert(before.queued(chunk_key));
                    let f = before.first_queued(chunk_key);
                    assert(before.is_first_queued(chunk_key, f));
                    assert(f == m) by {
                        if f < m {
                            assert(before.decompressed[f].pos != chunk_key);
                        }
                        if m < f {
                            assert(before.decompressed[m].pos != chunk_key);
                        }
                    }
                    assert(self@.decompressed =~= before.decompressed.subrange(m + 1, n as int)
                        + before.decompressed.subrange(0, m + 1));
                }
                return Some(v);
            },
            None => {},
        }
        proof {
            assert(i == n);
            assert(self.decompressed@ =~= queue);
            assert(!before.queued(chunk_key));
        }
        // Decompress the chunk, if it is compressed, and queue the result.
        match self.compressed_chunks.get(&key) {
            Some(compressed_chunk) => {
                let chunk = compressed_chunk.decompress_in(self.order);
                proof {
                    assert(before.compressed.contains_key(chunk_key));
                    assert(chunk.pos == chunk_key);
                    lemma_owner_stores(*pos);
                }
                let v = chunk.get_voxel(*pos);
                self.decompressed.push_back(chunk);
                assert(self@.decompressed =~= before.decompressed.push(
                    before.compressed[chunk_key].decompressed(before.order),
                ));
                Some(v)
            },
            None => {
                assert(!before.compressed.contains_key(chunk_key));
                None
            },
        }
    }

    /// Stores the decompression results that wait in the queue, oldest
    /// first. A result takes the place of the compressed chunk of its
    /// coordinate; where that chunk is gone, because the coordinate was
    /// evicted or written to meanwhile, the result is dropped.
    pub fn store_decompressed(&mut self)
        requires
            old(self).wf(),
        ensures
            final(self).wf(),
            final(self)@ == old(self)@.stored(),
            final(self)@.decompressed.len() == 0,
    {
        loop
            invariant
                self.wf(),
                self@.stored() == old(self)@.stored(),
            ensures
                self.wf(),
                self@.stored() == old(self)@.stored(),
                self@.decompressed.len() == 0,
            decreases self.decompressed@.len(),
        {
            let ghost before = *self;
            match self.decompressed.pop_front() {
                Some(chunk) => {
                    let pos = chunk.pos;
                    let key = pos.key();
                    proof {
                        assert(before@.decompressed[0] == chunk@);
                        assert(self@.decompressed =~= before@.decompressed.drop_first());
                        lemma_compressed_remove(before.compressed_chunks@, pos);
                        lemma_resident_insert(before.chunks@, pos, chunk);
                    }
                    if self.compressed_chunks.remove(&key).is_some() {
                        assert(before@.compressed.contains_key(pos));
                        self.chunks.insert(key, chunk);
                    } else {
                        assert(!before@.compressed.contains_key(pos));
                        assert(self.compressed_chunks@ =~= before.compressed_chunks@);
                    }
                },
                None => {
                    break ;
                },
            }
        }
    }

    /// Drops every chunk, resident or compressed, whose coordinate is not
    /// visible.
    pub fn evict(&mut self)
        requires
            old(self).wf(),
        ensures
            final(self).wf(),
            final(self)@ == old(self)@.evicted(),
            forall|p: Pos| !final(self)@.visible.contains(p) ==> !final(self)@.contains(p),
    {
        retain_keys(&mut self.chunks, &self.visible_chunks);
        retain_keys(&mut self.compressed_chunks, &self.visible_chunks);
        proof {
            assert(self@.resident =~= old(self)@.resident.restrict(old(self)@.visible));
            assert(self@.compressed =~= old(self)@.compressed.restrict(old(self)@.visible));
        }
    }

    /// Empties the visible set, before the windows of the viewers are added
    /// to it anew.
    pub fn clear_visible(&mut self)
        requires
            old(self).wf(),
        ensures
            final(self).wf(),
            final(self)@ == (ChunkMapView { visible: Set::<Pos>::empty(), ..old(self)@ }),
    {
        self.visible_chunks.clear();
        assert(self@.visible =~= Set::<Pos>::empty());
    }

    /// Adds the window of a viewer to the visible set.
    pub fn add_visible_window(&mut self, viewer: &ChunkViewer)
        requires
            old(self).wf(),
        ensures
            final(self).wf(),
            final(self)@ == (ChunkMapView {
                visible: old(self)@.visible + window_of(viewer@),
                ..old(self)@
            }),
    {
        insert_window(&mut self.visible_chunks, viewer);
        assert(self@.visible =~= old(self)@.visible + window_of(viewer@));
    }

    /// Makes the union of the viewers' windows the set of visible
    /// coordinates, and drops every chunk outside it.
    pub fn update_visible_chunks(&mut self, viewers: &Vec<ChunkViewer>)
        requires
            old(self).wf(),
        ensures
            final(self).wf(),
            final(self)@ == (ChunkMapView { visible: windows_of(viewers@), ..old(self)@ }).evicted(),
            forall|p: Pos| !windows_of(viewers@).contains(p) ==> !final(self)@.contains(p),
    {
        self.clear_visible();
        let mut i: usize = 0;
        proof {
            assert(self@.visible =~= windows_of(viewers@.subrange(0, 0)));
        }
        while i < viewers.len()
            invariant
                self.wf(),
                i <= viewers@.len(),
                self@ == (ChunkMapView {
                    visible: windows_of(viewers@.subrange(0, i as int)),
                    ..old(self)@
                }),
            decreases viewers.len() - i,
        {
            self.add_visible_window(&viewers[i]);
            proof {
                let seen = viewers@.subrange(0, i as int);
                let seen_after = viewers@.subrange(0, i + 1);
                assert forall|p: Pos|
                    (windows_of(seen) + window_of(viewers@[i as int]@)).contains(p) <==> windows_of(
                        seen_after,
                    ).contains(p) by {
                    if windows_of(seen_after).contains(p) {
                        let j = choose|j: int|
                            0 <= j < seen_after.len() && window_of(
                                (#[trigger] seen_after[j])@,
                            ).contains(p);
                        if j < i {
                            assert(seen[j] == seen_after[j]);
                            assert(windows_of(seen).contains(p));
                        }
                    }
                    if windows_of(seen).contains(p) {
                        let j = choose|j: int|
                            0 <= j < seen.len() && window_of((#[trigger] seen[j])@).contains(p);
                        assert(seen_after[j] == seen[j]);
                    }
                    if window_of(viewers@[i as int]@).contains(p) {
                        assert(seen_after[i as int] == viewers@[i as int]);
                    }
                }
                assert(self@.visible =~= windows_of(seen_after));
            }
            i += 1;
        }
        proof {
            assert(viewers@.subrange(0, i as int) =~= viewers@);
        }
        self.evict();
    }

    /// Marks every visible coordinate for which generation is due as
    /// loading, and lists these coordinates: for each of them a chunk is to
    /// be generated and handed to [`ChunkMap::store_generated`].
    pub fn schedule_generation(&mut self) -> (jobs: Vec<Pos>)
        requires
            old(self).wf(),
        ensures
            final(self).wf(),
            jobs@.no_duplicates(),
            jobs@.to_set() == old(self)@.unloaded_visible(),
            final(self)@ == (ChunkMapView {
                loading: old(self)@.loading + old(self)@.unloaded_visible(),
                ..old(self)@
            }),
    {
        let keys = set_keys(&self.visible_chunks);
        let mut jobs: Vec<Pos> = Vec::new();
        let mut i: usize = 0;
        proof {
            lemma_prefix_whole(keys@);
            assert(self@.loading =~= old(self)@.loading + jobs@.to_set());
        }
        while i < keys.len()
            invariant
                self.wf(),
                i <= keys@.len(),
                keys@.no_duplicates(),
                keys@.to_set() == old(self).visible_chunks@,
                keys_of_coords(old(self).visible_chunks@),
                jobs@.no_duplicates(),
                forall|p: Pos| #[trigger]
                    jobs@.contains(p) <==> old(self)@.unloaded_visible().contains(p)
                        && keys@.subrange(0, i as int).contains(pos_key(p)),
                self@ == (ChunkMapView {
                    loading: old(self)@.loading + jobs@.to_set(),
                    ..old(self)@
                }),
            decreases keys.len() - i,
        {
            proof {
                lemma_prefix_step(keys@, i as int);
                assert(keys@.to_set().contains(keys@[i as int]));
            }
            match Pos::from_key(keys[i]) {
                Some(pos) => {
                    let ghost before = self@;
                    let ghost listed = jobs@;
                    proof {
                        if listed.contains(pos) {
                            assert(keys@.subrange(0, i as int).contains(pos_key(pos)));
                        }
                        assert(!listed.contains(pos));
                        assert(before.state(pos) == old(self)@.state(pos));
                        assert(old(self)@.visible.contains(pos));
                        assert forall|q: Pos| q != pos implies pos_key(q) != pos_key(pos) by {
                            lemma_pos_key_injective(pos, q);
                        }
                    }
                    match self.chunk_state(&pos) {
                        ChunkState::Unloaded => {
                            self.set_chunk_state_loading(&pos);
                            jobs.push(pos);
                            proof {
                                lemma_pushed(listed, pos);
                                assert(self@.loading =~= old(self)@.loading + jobs@.to_set());
                            }
                        },
                        _ => {},
                    }
                },
                None => {
                    proof {
                        lemma_pos_key_injective(key_pos(keys@[i as int]), key_pos(keys@[i as int]));
                    }
                },
            }
            i += 1;
        }
        proof {
            lemma_prefix_whole(keys@);
            assert forall|p: Pos| old(self)@.unloaded_visible().contains(p) implies jobs@.contains(
                p,
            ) by {
                assert(keys@.to_set().contains(pos_key(p)));
            }
            assert(jobs@.to_set() =~= old(self)@.unloaded_visible());
        }
        jobs
    }

    /// Marks every visible coordinate dirty, as after a change of the block
    /// library, which makes every mesh stale.
    pub fn mark_visible_dirty(&mut self)
        requires
            old(self).wf(),
        ensures
            final(self).wf(),
            final(self)@ == (ChunkMapView { dirty: old(self)@.visible, ..old(self)@ }),
    {
        let keys = set_keys(&self.visible_chunks);
        let mut dirty: HashSet<u128> = HashSet::new();
        let mut i: usize = 0;
        proof {
            lemma_prefix_whole(keys@);
        }
        while i < keys.len()
            invariant
                i <= keys@.len(),
                forall|k: u128| #[trigger] dirty@.contains(k) <==> keys@.subrange(0, i as int).contains(k),
            decreases keys.len() - i,
        {
            proof {
                lemma_prefix_step(keys@, i as int);
            }
            dirty.insert(keys[i]);
            i += 1;
        }
        proof {
            lemma_prefix_whole(keys@);
            assert(dirty@ =~= self.visible_chunks@);
        }
        self.dirty_chunks = dirty;
    }

    /// The coordinates that have a chunk, resident or compressed, each once.
    pub fn chunk_keys(&self) -> (keys: Vec<Pos>)
        requires
            self.wf(),
        ensures
            keys@.no_duplicates(),
            keys@.to_set() == self@.resident.dom() + self@.compressed.dom(),
    {
        let resident_keys = map_keys(&self.chunks);
        let compressed_keys = map_keys(&self.compressed_chunks);
        proof {
            assert forall|i: int| 0 <= i < resident_keys@.len() implies pos_key(
                key_pos(#[trigger] resident_keys@[i]),
            ) == resident_keys@[i] by {
                let k = resident_keys@[i];
                assert(resident_keys@.to_set().contains(k));
                lemma_pos_key_injective(self.chunks@[k].pos, self.chunks@[k].pos);
            }
            assert forall|i: int| 0 <= i < compressed_keys@.len() implies pos_key(
                key_pos(#[trigger] compressed_keys@[i]),
            ) == compressed_keys@[i] by {
                let k = compressed_keys@[i];
                assert(compressed_keys@.to_set().contains(k));
                lemma_pos_key_injective(
                    self.compressed_chunks@[k]@.pos,
                    self.compressed_chunks@[k]@.pos,
                );
            }
        }
        let mut keys = coords_of_keys(&resident_keys);
        let compressed = coords_of_keys(&compressed_keys);
        let ghost resident = keys@;
        let mut i: usize = 0;
        proof {
            lemma_prefix_whole(compressed@);
        }
        while i < compressed.len()
            invariant
                self.wf(),
                i <= compressed@.len(),
                compressed@.no_duplicates(),
                keys@.no_duplicates(),
                resident_keys@.to_set() == self.chunks@.dom(),
                compressed_keys@.to_set() == self.compressed_chunks@.dom(),
                forall|p: Pos| #[trigger] resident.contains(p) <==> resident_keys@.contains(pos_key(p)),
                forall|p: Pos| #[trigger]
                    compressed@.contains(p) <==> compressed_keys@.contains(pos_key(p)),
                forall|p: Pos| #[trigger]
                    keys@.contains(p) <==> resident.contains(p) || compressed@.subrange(
                        0,
                        i as int,
                    ).contains(p),
            decreases compressed.len() - i,
        {
            let pos = compressed[i];
            proof {
                lemma_prefix_step(compressed@, i as int);
                assert(compressed@.contains(pos));
                assert(compressed_keys@.to_set().contains(pos_key(pos)));
                assert(self@.compressed.contains_key(pos));
                if resident.contains(pos) {
                    assert(resident_keys@.to_set().contains(pos_key(pos)));
                    assert(self@.resident.contains_key(pos));
                }
                lemma_pushed(keys@, pos);
            }
            keys.push(pos);
            i += 1;
        }
        proof {
            lemma_prefix_whole(compressed@);
            assert forall|p: Pos|
                keys@.to_set().contains(p) <==> (self@.resident.dom() + self@.compressed.dom()).contains(
                    p,
                ) by {
                if self@.resident.contains_key(p) {
                    assert(resident_keys@.to_set().contains(pos_key(p)));
                }
                if self@.compressed.contains_key(p) {
                    assert(compressed_keys@.to_set().contains(pos_key(p)));
                }
                if keys@.contains(p) {
                    if resident.contains(p) {
                        assert(resident_keys@.to_set().contains(pos_key(p)));
                    } else {
                        assert(compressed_keys@.to_set().contains(pos_key(p)));
                    }
                }
            }
            assert(keys@.to_set() =~= self@.resident.dom() + self@.compressed.dom());
        }
        keys
    }

    /// The visible coordinates, each once.
    pub fn visible_chunks(&self) -> (coords: Vec<Pos>)
        requires
            self.wf(),
        ensures
            coords@.no_duplicates(),
            coords@.to_set() == self@.visible,
    {
        let keys = set_keys(&self.visible_chunks);
        proof {
            assert forall|i: int| 0 <= i < keys@.len() implies pos_key(key_pos(#[trigger] keys@[i]))
                == keys@[i] by {
                assert(keys@.to_set().contains(keys@[i]));
            }
        }
        let coords = coords_of_keys(&keys);
        proof {
            assert forall|p: Pos| coords@.to_set().contains(p) <==> self@.visible.contains(p) by {
                if self@.visible.contains(p) {
                    assert(keys@.to_set().contains(pos_key(p)));
                }
                if coords@.contains(p) {
                    assert(keys@.to_set().contains(pos_key(p)));
                }
            }
            assert(coords@.to_set() =~= self@.visible);
        }
        coords
    }

    /// The dirty coordinates, each once.
    pub fn dirty_chunks(&self) -> (coords: Vec<Pos>)
        requires
            self.wf(),
        ensures
            coords@.no_duplicates(),
            coords@.to_set() == self@.dirty,
    {
        let keys = set_keys(&self.dirty_chunks);
        proof {
            assert forall|i: int| 0 <= i < keys@.len() implies pos_key(key_pos(#[trigger] keys@[i]))
                == keys@[i] by {
                assert(keys@.to_set().contains(keys@[i]));
            }
        }
        let coords = coords_of_keys(&keys);
        proof {
            assert forall|p: Pos| coords@.to_set().contains(p) <==> self@.dirty.contains(p) by {
                if self@.dirty.contains(p) {
                    assert(keys@.to_set().contains(pos_key(p)));
                }
                if coords@.contains(p) {
                    assert(keys@.to_set().contains(pos_key(p)));
                }
            }
            assert(coords@.to_set() =~= self@.dirty);
        }
        coords
    }

    /// Forgets which coordinates are dirty, as after their meshes were
    /// ordered.
    pub fn clear_dirty(&mut self)
        requires
            old(self).wf(),
        ensures
            final(self).wf(),
            final(self)@ == (ChunkMapView { dirty: Set::<Pos>::empty(), ..old(self)@ }),
    {
        self.dirty_chunks.clear();
        assert(self@.dirty =~= Set::<Pos>::empty());
    }

    /// Whether the coordinate should be loaded.
    pub fn is_visible(&self, pos: &Pos) -> (visible: bool)
        ensures
            visible == self@.visible.contains(*pos),
    {
        self.visible_chunks.contains(&pos.key())
    }

    /// Whether the mesh of the coordinate is stale.
    pub fn is_dirty(&self, pos: &Pos) -> (dirty: bool)
        ensures
            dirty == self@.dirty.contains(*pos),
    {
        self.dirty_chunks.contains(&pos.key())
    }

    /// Whether the chunk of the coordinate is held as a buffer.
    pub fn is_resident(&self, pos: &Pos) -> (resident: bool)
        ensures
            resident == self@.resident.contains_key(*pos),
    {
        self.chunks.contains_key(&pos.key())
    }

    /// Whether the chunk of the coordinate is held compressed.
    pub fn is_compressed(&self, pos: &Pos) -> (compressed: bool)
        ensures
            compressed == self@.compressed.contains_key(*pos),
    {
        self.compressed_chunks.contains_key(&pos.key())
    }

    /// Whether any chunk is held compressed.
    pub fn has_compressed_chunks(&self) -> (any: bool)
        requires
            self.wf(),
        ensures
            any == exists|p: Pos| self@.compressed.contains_key(p),
    {
        let n = self.compressed_chunks.len();
        proof {
            if n == 0 {
                assert(self.compressed_chunks@.dom() =~= Set::<u128>::empty());
            } else {
                assert(self.compressed_chunks@.dom().len() > 0);
                let k = self.compressed_chunks@.dom().choose();
                assert(self.compressed_chunks@.contains_key(k));
                let p = self.compressed_chunks@[k]@.pos;
                assert(self@.compressed.contains_key(p));
            }
        }
        n != 0
    }

    /// The number of decompression results that wait to be stored.
    pub fn pending_decompressed(&self) -> (n: usize)
        ensures
            n == self@.decompressed.len(),
    {
        self.decompressed.len()
    }

    /// A copy of the chunk of the coordinate as a buffer, if the registry
    /// has that chunk: of the resident chunk, or of the compressed chunk
    /// decompressed. The registry stays as it is.
    pub fn get_chunk(&self, pos: &Pos) -> (chunk: Option<Chunk>)
        requires
            self.wf(),
        ensures
            chunk is Some <==> self@.contains(*pos),
            chunk matches Some(c) ==> c@ == self@.chunk_at(*pos) && c.wf(),
    {
        let key = pos.key();
        match self.chunks.get(&key) {
            Some(chunk) => {
                assert(self@.resident.contains_key(*pos));
                Some(chunk.clone())
            },
            None => match self.compressed_chunks.get(&key) {
                Some(compressed_chunk) => Some(compressed_chunk.decompress_in(self.order)),
                None => None,
            },
        }
    }

    /// Decompresses the chunk of the coordinate into residency, if it is
    /// compressed, and tells whether it was.
    pub fn decompress_chunk(&mut self, pos: &Pos) -> (decompressed: bool)
        requires
            old(self).wf(),
        ensures
            final(self).wf(),
            decompressed == old(self)@.compressed.contains_key(*pos),
            final(self)@ == (if decompressed {
                ChunkMapView {
                    resident: old(self)@.resident.insert(
                        *pos,
                        old(self)@.compressed[*pos].decompressed(old(self)@.order),
                    ),
                    compressed: old(self)@.compressed.remove(*pos),
                    ..old(self)@
                }
            } else {
                old(self)@
            }),
            final(self)@ == old(self)@.after(PipelineStep::Decompress(*pos)),
    {
        let key = pos.key();
        proof {
            lemma_compressed_remove(self.compressed_chunks@, *pos);
        }
        let ghost target = old(self)@.made_resident(set![*pos]);
        match self.compressed_chunks.remove(&key) {
            Some(compressed_chunk) => {
                assert(old(self)@.compressed.contains_key(*pos));
                let chunk = compressed_chunk.decompress_in(self.order);
                proof {
                    lemma_resident_insert(self.chunks@, *pos, chunk);
                }
                self.chunks.insert(key, chunk);
                proof {
                    assert(self@.resident =~= target.resident);
                    assert(self@.compressed =~= target.compressed);
                }
                true
            },
            None => {
                proof {
                    assert(self.compressed_chunks@ =~= old(self).compressed_chunks@);
                    assert(self@.resident =~= target.resident);
                    assert(self@.compressed =~= target.compressed);
                }
                false
            },
        }
    }

    /// Lists the chunks that a write to `pos` reaches and that the registry
    /// has, after decompressing into residency those of them that were
    /// compressed. Because of the padding several chunks can hold the same
    /// position.
    pub fn get_mut_chunks_containing_pos(&mut self, pos: &Pos) -> (chunks: Vec<Pos>)
        requires
            old(self).wf(),
        ensures
            final(self).wf(),
            final(self)@ == old(self)@.made_resident(sharing_chunks(*pos).to_set()),
            chunks@.no_duplicates(),
            forall|k: Pos| #[trigger]
                chunks@.contains(k) <==> sharing_chunks(*pos).contains(k) && old(self)@.contains(k),
    {
        let chunk_keys = chunks_sharing(pos);
        let mut chunks: Vec<Pos> = Vec::new();
        let mut i: usize = 0;
        proof {
            lemma_sharing_chunks(*pos);
            lemma_prefix_whole(chunk_keys@);
            let none = chunk_keys@.subrange(0, 0).to_set();
            assert(self@.resident =~= old(self)@.made_resident(none).resident);
            assert(self@.compressed =~= old(self)@.made_resident(none).compressed);
        }
        while i < chunk_keys.len()
            invariant
                self.wf(),
                i <= chunk_keys@.len(),
                chunk_keys@ == sharing_chunks(*pos),
                chunk_keys@.no_duplicates(),
                old(self).wf(),
                self@ == old(self)@.made_resident(chunk_keys@.subrange(0, i as int).to_set()),
                chunks@.no_duplicates(),
                forall|k: Pos| #[trigger]
                    chunks@.contains(k) <==> chunk_keys@.subrange(0, i as int).contains(k) && old(
                        self,
                    )@.contains(k),
            decreases chunk_keys.len() - i,
        {
            let chunk_key = chunk_keys[i];
            let ghost before = self@;
            let ghost done = chunk_keys@.subrange(0, i as int).to_set();
            let ghost done_after = chunk_keys@.subrange(0, i + 1).to_set();
            proof {
                lemma_prefix_step(chunk_keys@, i as int);
                assert(!done.contains(chunk_key));
                assert(done_after =~= done.insert(chunk_key));
                assert(before.resident.contains_key(chunk_key) == old(self)@.resident.contains_key(
                    chunk_key,
                ));
                assert(before.compressed.contains_key(chunk_key) == old(
                    self,
                )@.compressed.contains_key(chunk_key));
            }
            if self.chunks.contains_key(&chunk_key.key()) {
                proof {
                    lemma_pushed(chunks@, chunk_key);
                    assert(before.resident.contains_key(chunk_key));
                    assert(!old(self)@.compressed.contains_key(chunk_key));
                    assert(self@.resident =~= old(self)@.made_resident(done_after).resident);
                    assert(self@.compressed =~= old(self)@.made_resident(done_after).compressed);
                }
                chunks.push(chunk_key);
            } else if self.decompress_chunk(&chunk_key) {
                proof {
                    lemma_pushed(chunks@, chunk_key);
                    assert(!before.resident.contains_key(chunk_key));
                    assert(self@.resident =~= old(self)@.made_resident(done_after).resident);
                    assert(self@.compressed =~= old(self)@.made_resident(done_after).compressed);
                }
                chunks.push(chunk_key);
            } else {
                proof {
                    assert(!before.resident.contains_key(chunk_key));
                    assert(self@.resident =~= old(self)@.made_resident(done_after).resident);
                    assert(self@.compressed =~= old(self)@.made_resident(done_after).compressed);
                }
            }
            i += 1;
        }
        proof {
            lemma_prefix_whole(chunk_keys@);
        }
        chunks
    }

    /// Writes `voxel` at `pos` in every chunk that the write reaches and
    /// that the registry has: the chunk that owns the voxel and, along each
    /// axis, the neighbour that shares it through its padding. Compressed
    /// chunks among them become resident. Where chunks are meshed, the
    /// written chunks are marked dirty.
    pub fn set_voxel(&mut self, voxel: Voxel, pos: &Pos)
        requires
            old(self).wf(),
        ensures
            final(self).wf(),
            final(self)@ == old(self)@.after_write(voxel, *pos),
    {
        let chunks = self.get_mut_chunks_containing_pos(pos);
        let ghost coords = sharing_chunks(*pos).to_set();
        let ghost loaded = self@;
        let mut i: usize = 0;
        proof {
            lemma_sharing_chunks(*pos);
            lemma_prefix_whole(chunks@);
        }
        while i < chunks.len()
            invariant
                self.wf(),
                i <= chunks@.len(),
                chunks@.no_duplicates(),
                old(self).wf(),
                coords == sharing_chunks(*pos).to_set(),
                loaded == old(self)@.made_resident(coords),
                forall|k: Pos| #[trigger]
                    chunks@.contains(k) <==> sharing_chunks(*pos).contains(k) && old(
                        self,
                    )@.contains(k),
                forall|k: Pos| #[trigger]
                    sharing_chunks(*pos).contains(k) && chunk_coord_in_range(k) ==> extent_of(
                        k,
                    ).contains(*pos),
                self@.resident.dom() == loaded.resident.dom(),
                forall|k: Pos| #[trigger]
                    loaded.resident.contains_key(k) ==> self@.resident[k] == (if chunks@.subrange(
                        0,
                        i as int,
                    ).contains(k) {
                        loaded.resident[k].with_voxel(voxel, *pos)
                    } else {
                        loaded.resident[k]
                    }),
                self@.dirty == (if loaded.mesher {
                    loaded.dirty + chunks@.subrange(0, i as int).to_set()
                } else {
                    loaded.dirty
                }),
                self@ == (ChunkMapView { resident: self@.resident, dirty: self@.dirty, ..loaded }),
            decreases chunks.len() - i,
        {
            let chunk_key = chunks[i];
            let key = chunk_key.key();
            let ghost before = *self;
            proof {
                lemma_prefix_step(chunks@, i as int);
                assert(chunks@.contains(chunk_key));
                assert(loaded.resident.contains_key(chunk_key));
                assert(before@.resident.dom().contains(chunk_key));
                lemma_resident_remove(before.chunks@, chunk_key);
            }
            match self.chunks.remove(&key) {
                Some(chunk) => {
                    let mut chunk = chunk;
                    assert(chunk@ == before@.resident[chunk_key]);
                    chunk.set_voxel(voxel, *pos);
                    proof {
                        lemma_resident_insert(self.chunks@, chunk_key, chunk);
                    }
                    self.chunks.insert(key, chunk);
                },
                None => {},
            }
            proof {
                assert(self@.resident.dom() =~= loaded.resident.dom());
            }
            if self.mesher {
                self.make_dirty(&chunk_key);
                proof {
                    assert(self@.dirty =~= loaded.dirty + chunks@.subrange(0, i + 1).to_set());
                }
            }
            i += 1;
        }
        proof {
            lemma_prefix_whole(chunks@);
            let target = old(self)@.after_write(voxel, *pos);
            assert(self@.resident =~= target.resident);
            assert(self@.dirty =~= target.dirty);
        }
    }

    /// Whether a ray stops at the cell `pos`: it does if the voxel there is
    /// not air, and also if the voxel cannot be read, so that no ray passes
    /// through a part of the world that is not loaded.
    pub fn is_obstructed(&mut self, pos: &Pos) -> (hit: bool)
        requires
            old(self).wf(),
        ensures
            final(self).wf(),
            hit == match old(self)@.voxel_at(*pos) {
                Some(v) => v != Block::AIR,
                None => true,
            },
            final(self)@ == old(self)@.after_read(*pos),
    {
        match self.get_voxel(pos) {
            Some(v) => v != Block::AIR,
            None => true,
        }
    }

    /// Walks a ray from the cell `start` through the cells that it enters by
    /// its `crossings`, and stops it at the first cell that is obstructed.
    /// Each cell on the way is read as by [`ChunkMap::get_voxel`].
    pub fn ray_cast(&mut self, start: Pos, step: Pos, crossings: &Vec<Axis>) -> (hit: Option<
        RayHit,
    >)
        requires
            old(self).wf(),
            is_step(step),
            ray_in_range(start, step, crossings@),
        ensures
            final(self).wf(),
            (hit, final(self)@) == old(self)@.ray_from(start, step, crossings@, 0),
    {
        let mut walk = RayWalk::new(start, step);
        let mut i: usize = 0;
        loop
            invariant
                self.wf(),
                is_step(step),
                ray_in_range(start, step, crossings@),
                i <= crossings@.len(),
                walk.step == step,
                walk.stands_at(start, crossings@, i as int),
                self@.ray_from(start, step, crossings@, i as int) == old(self)@.ray_from(
                    start,
                    step,
                    crossings@,
                    0,
                ),
            decreases crossings@.len() - i,
        {
            if self.is_obstructed(&walk.cell) {
                return Some(walk.hit());
            }
            if i >= crossings.len() {
                return None;
            }
            proof {
                let c = cell_after(start, step, crossings@, i as int);
                let d = cell_after(start, step, crossings@, i + 1);
                assert(i32::MIN <= c.0 <= i32::MAX);
                assert(i32::MIN <= d.0 <= i32::MAX);
            }
            walk.advance(crossings[i]);
            i += 1;
        }
    }

    /// Whether the coordinate has a chunk, resident or compressed.
    pub fn contains_chunk(&self, pos: &Pos) -> (found: bool)
        ensures
            found == self@.contains(*pos),
    {
        let key = pos.key();
        self.chunks.contains_key(&key) || self.compressed_chunks.contains_key(&key)
    }
}

} // verus!
