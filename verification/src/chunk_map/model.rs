//! What the registry holds, as a mathematical value, and how each step of
//! the pipeline changes it.

use vstd::prelude::*;
use crate::blocks::Block;
use crate::byte_order::ByteOrder;
use crate::chunk::{chunk_coord_in_range, extent_of, Chunk, ChunkView, Voxel, CHUNK_SIZE};
use crate::chunk_viewer::{in_window, ChunkViewer, ChunkViewerView};
use crate::compressed_chunk::CompressedChunkView;
use crate::math::{floor_div, floor_mod, Pos, ToTuple};
use crate::ray_cast::{hit_after, pos_after, Axis, RayHit};

verus! {

/// Where a coordinate stands in the pipeline.
#[derive(Clone, Copy, Debug, PartialEq, Eq, Structural)]
pub enum ChunkState {
    /// The registry has no chunk for the coordinate and none is being
    /// generated.
    Unloaded,
    /// The registry has no chunk for the coordinate; a generation job for it
    /// is under way.
    Loading,
    /// The registry has the chunk, and the chunk needs to be meshed again.
    Dirty,
    /// The registry has the chunk, resident or compressed, and its mesh is
    /// not stale.
    Loaded,
}

/// What the registry holds.
pub struct ChunkMapView {
    /// The chunks that are held as buffers.
    pub resident: Map<Pos, ChunkView>,
    /// The chunks that are held compressed.
    pub compressed: Map<Pos, CompressedChunkView>,
    /// The coordinates that should be loaded.
    pub visible: Set<Pos>,
    /// The coordinates that are marked as having a stale mesh. A mark on a
    /// coordinate without a chunk says nothing of its state: see
    /// [`ChunkMapView::state`].
    pub dirty: Set<Pos>,
    /// The coordinates for which a generation job is under way.
    pub loading: Set<Pos>,
    /// Decompression results that have not been stored yet, oldest first.
    pub decompressed: Seq<ChunkView>,
    pub compression_level: u32,
    /// Whether voxel bytes are compressed in the portable byte order.
    pub byteorder: bool,
    /// The byte order that the flag stands for on this machine.
    pub order: ByteOrder,
    /// Whether chunks are meshed: then a write marks its chunk dirty.
    pub mesher: bool,
}

impl ChunkMapView {
    /// The coordinate has a chunk, resident or compressed.
    pub open spec fn contains(self, pos: Pos) -> bool {
        self.resident.contains_key(pos) || self.compressed.contains_key(pos)
    }

    /// Where the coordinate stands in the pipeline. A coordinate whose chunk
    /// the registry has is dirty or loaded; one whose chunk it does not have
    /// is loading or unloaded, whether or not it is marked dirty.
    pub open spec fn state(self, pos: Pos) -> ChunkState {
        if self.contains(pos) {
            if self.dirty.contains(pos) {
                ChunkState::Dirty
            } else {
                ChunkState::Loaded
            }
        } else if self.loading.contains(pos) {
            ChunkState::Loading
        } else {
            ChunkState::Unloaded
        }
    }

    /// Some decompression result for the coordinate waits in the queue.
    pub open spec fn queued(self, key: Pos) -> bool {
        exists|i: int| 0 <= i < self.decompressed.len() && (#[trigger] self.decompressed[i]).pos == key
    }

    /// `i` is the place of the oldest queued result for the coordinate.
    pub open spec fn is_first_queued(self, key: Pos, i: int) -> bool {
        &&& 0 <= i < self.decompressed.len()
        &&& self.decompressed[i].pos == key
        &&& forall|j: int| 0 <= j < i ==> (#[trigger] self.decompressed[j]).pos != key
    }

    /// The place of the oldest queued result for the coordinate.
    pub open spec fn first_queued(self, key: Pos) -> int
        recommends
            self.queued(key),
    {
        choose|i: int| self.is_first_queued(key, i)
    }

    /// What a read of the voxel at `pos` gives: the voxel of the resident
    /// chunk that owns it; else that of the oldest queued decompression
    /// result for that chunk; else that of the compressed chunk,
    /// decompressed; else nothing.
    pub open spec fn voxel_at(self, pos: Pos) -> Option<Voxel> {
        let key = chunk_of(pos);
        if self.resident.contains_key(key) {
            Some(self.resident[key].voxel_at(pos))
        } else if self.queued(key) {
            Some(self.decompressed[self.first_queued(key)].voxel_at(pos))
        } else if self.compressed.contains_key(key) {
            Some(self.compressed[key].decompressed(self.order).voxel_at(pos))
        } else {
            None
        }
    }

    /// What the registry holds after a read of the voxel at `pos`. A read
    /// changes the queue alone: where it finds its chunk there, the results
    /// up to and including that one go to the back; where it decompresses
    /// the chunk, the result is queued.
    pub open spec fn after_read(self, pos: Pos) -> ChunkMapView {
        let key = chunk_of(pos);
        if self.resident.contains_key(key) {
            self
        } else if self.queued(key) {
            let m = self.first_queued(key);
            ChunkMapView {
                decompressed: self.decompressed.subrange(m + 1, self.decompressed.len() as int)
                    + self.decompressed.subrange(0, m + 1),
                ..self
            }
        } else if self.compressed.contains_key(key) {
            ChunkMapView {
                decompressed: self.decompressed.push(
                    self.compressed[key].decompressed(self.order),
                ),
                ..self
            }
        } else {
            self
        }
    }

    /// What the registry holds once every queued decompression result has
    /// been stored, oldest first: a result takes the place of the compressed
    /// chunk of its coordinate, and is dropped if there is none any more.
    pub open spec fn stored(self) -> ChunkMapView
        decreases self.decompressed.len(),
    {
        if self.decompressed.len() == 0 {
            self
        } else {
            let chunk = self.decompressed[0];
            let rest = self.decompressed.drop_first();
            if self.compressed.contains_key(chunk.pos) {
                (ChunkMapView {
                    resident: self.resident.insert(chunk.pos, chunk),
                    compressed: self.compressed.remove(chunk.pos),
                    decompressed: rest,
                    ..self
                }).stored()
            } else {
                (ChunkMapView { decompressed: rest, ..self }).stored()
            }
        }
    }

    /// What the registry holds after the result of a generation job was
    /// stored: the chunk is resident in place of whatever was held for its
    /// coordinate, the coordinate is no longer loading, and it is dirty
    /// where chunks are meshed.
    pub open spec fn after_generated(self, chunk: ChunkView) -> ChunkMapView {
        ChunkMapView {
            resident: self.resident.insert(chunk.pos, chunk),
            compressed: self.compressed.remove(chunk.pos),
            loading: self.loading.remove(chunk.pos),
            dirty: if self.mesher {
                self.dirty.insert(chunk.pos)
            } else {
                self.dirty
            },
            ..self
        }
    }

    /// What the registry holds after the result of a compression job was
    /// stored: the compressed chunk takes the place of whatever was held for
    /// its coordinate.
    pub open spec fn after_compressed(self, chunk: CompressedChunkView) -> ChunkMapView {
        ChunkMapView {
            resident: self.resident.remove(chunk.pos),
            compressed: self.compressed.insert(chunk.pos, chunk),
            ..self
        }
    }

    /// What the registry holds after the chunk of a coordinate was taken
    /// out.
    pub open spec fn after_removed(self, pos: Pos) -> ChunkMapView {
        ChunkMapView {
            resident: self.resident.remove(pos),
            compressed: self.compressed.remove(pos),
            ..self
        }
    }

    /// What the registry holds after eviction: the chunks of the coordinates
    /// that are visible.
    pub open spec fn evicted(self) -> ChunkMapView {
        ChunkMapView {
            resident: self.resident.restrict(self.visible),
            compressed: self.compressed.restrict(self.visible),
            ..self
        }
    }

    /// The coordinates for which generation is due: visible, and neither
    /// resident, compressed nor loading.
    pub open spec fn unloaded_visible(self) -> Set<Pos> {
        Set::new(
            |p: Pos|
                self.visible.contains(p) && !self.resident.contains_key(p)
                    && !self.compressed.contains_key(p) && !self.loading.contains(p),
        )
    }

    /// The chunk of the coordinate as a buffer: the resident chunk, or the
    /// compressed chunk decompressed.
    pub open spec fn chunk_at(self, key: Pos) -> ChunkView
        recommends
            self.contains(key),
    {
        if self.resident.contains_key(key) {
            self.resident[key]
        } else {
            self.compressed[key].decompressed(self.order)
        }
    }

    /// What the registry holds after the compressed chunks among `coords`
    /// were decompressed into residency.
    pub open spec fn made_resident(self, coords: Set<Pos>) -> ChunkMapView {
        ChunkMapView {
            resident: Map::new(
                |k: Pos|
                    self.resident.contains_key(k) || (coords.contains(k)
                        && self.compressed.contains_key(k)),
                |k: Pos| self.chunk_at(k),
            ),
            compressed: self.compressed.remove_keys(coords),
            ..self
        }
    }

    /// What the registry holds after `voxel` was written at `pos`: every
    /// chunk that the write reaches is resident and holds the voxel, and is
    /// dirty where chunks are meshed.
    pub open spec fn after_write(self, voxel: Voxel, pos: Pos) -> ChunkMapView {
        let coords = sharing_chunks(pos).to_set();
        let loaded = self.made_resident(coords);
        ChunkMapView {
            resident: Map::new(
                |k: Pos| loaded.resident.contains_key(k),
                |k: Pos|
                    if coords.contains(k) {
                        loaded.resident[k].with_voxel(voxel, pos)
                    } else {
                        loaded.resident[k]
                    },
            ),
            dirty: if self.mesher {
                self.dirty + Set::new(|k: Pos| coords.contains(k) && self.contains(k))
            } else {
                self.dirty
            },
            ..loaded
        }
    }

    /// Whether a ray stops at the cell `pos`: it does if the voxel there is
    /// not air, and also if the voxel cannot be read.
    pub open spec fn obstructed(self, pos: Pos) -> bool {
        match self.voxel_at(pos) {
            Some(v) => v != Block::AIR,
            None => true,
        }
    }

    /// Where a ray stops that has crossed `n` cell boundaries without
    /// stopping, and what the registry holds after the reads that this
    /// takes.
    pub open spec fn ray_from(self, start: Pos, step: Pos, crossings: Seq<Axis>, n: int) -> (
        Option<RayHit>,
        ChunkMapView,
    )
        decreases crossings.len() - n,
    {
        let cell = pos_after(start, step, crossings, n);
        if self.obstructed(cell) {
            (Some(hit_after(start, step, crossings, n)), self.after_read(cell))
        } else if n >= crossings.len() {
            (None, self.after_read(cell))
        } else {
            self.after_read(cell).ray_from(start, step, crossings, n + 1)
        }
    }

    /// The registry's invariant: no coordinate is both resident and
    /// compressed, every chunk is kept under its own coordinate, and every
    /// buffer held or queued is well formed.
    pub open spec fn wf(self) -> bool {
        &&& forall|p: Pos| !(self.resident.contains_key(p) && self.compressed.contains_key(p))
        &&& forall|p: Pos| #[trigger]
            self.resident.contains_key(p) ==> self.resident[p].wf() && self.resident[p].pos == p
        &&& forall|p: Pos| #[trigger]
            self.compressed.contains_key(p) ==> self.compressed[p].pos == p
                && self.compressed[p].valid()
        &&& forall|i: int|
            0 <= i < self.decompressed.len() ==> (#[trigger] self.decompressed[i]).wf()
        &&& self.byteorder ==> self.order == ByteOrder::Little
    }
}

/// The chunk coordinate that owns the voxel at `pos`: each coordinate
/// divided by the chunk size, rounded toward negative infinity.
pub open spec fn chunk_of(pos: Pos) -> Pos {
    Pos {
        x: floor_div(pos.x as int, CHUNK_SIZE as int) as i32,
        y: floor_div(pos.y as int, CHUNK_SIZE as int) as i32,
        z: floor_div(pos.z as int, CHUNK_SIZE as int) as i32,
    }
}

/// The neighbour along one axis with which the owning chunk shares a cell
/// whose coordinate on that axis is `v`: the lower one (`-1`) where `v` is
/// the first cell of the chunk, the upper one (`1`) where it is the last,
/// none (`0`) elsewhere.
pub open spec fn shared_neighbor(v: int) -> int {
    let r = floor_mod(v, CHUNK_SIZE as int);
    if r == 0 {
        -1
    } else if r == CHUNK_SIZE - 1 {
        1
    } else {
        0
    }
}

/// The coordinates of the chunks that a write to `pos` reaches: the chunk
/// that owns the voxel, then along each axis the neighbour that shares it
/// through its padding, if there is one. Chunks that share the voxel across
/// an edge or a corner are not among them.
pub open spec fn sharing_chunks(pos: Pos) -> Seq<Pos> {
    let c = chunk_of(pos);
    let nx = shared_neighbor(pos.x as int);
    let ny = shared_neighbor(pos.y as int);
    let nz = shared_neighbor(pos.z as int);
    seq![c] + (if nx != 0 {
        seq![Pos { x: (c.x + nx) as i32, y: c.y, z: c.z }]
    } else {
        Seq::empty()
    }) + (if ny != 0 {
        seq![Pos { x: c.x, y: (c.y + ny) as i32, z: c.z }]
    } else {
        Seq::empty()
    }) + (if nz != 0 {
        seq![Pos { x: c.x, y: c.y, z: (c.z + nz) as i32 }]
    } else {
        Seq::empty()
    })
}

/// The coordinates of the window of a viewer.
pub open spec fn window_of(viewer: ChunkViewerView) -> Set<Pos> {
    Set::new(|p: Pos| in_window(viewer.pos, viewer.render_distance as int, p.tuple_spec()))
}

/// The coordinates that the viewers need: the union of their windows.
pub open spec fn windows_of(viewers: Seq<ChunkViewer>) -> Set<Pos> {
    Set::new(
        |p: Pos|
            exists|i: int| 0 <= i < viewers.len() && window_of((#[trigger] viewers[i])@).contains(p),
    )
}

/// The views of a sequence of chunks.
pub open spec fn views_of(s: Seq<Chunk>) -> Seq<ChunkView> {
    Seq::new(s.len(), |i: int| s[i]@)
}

/// A step of the pipeline, or a read or a write between two steps.
pub enum PipelineStep {
    /// The visible set is replaced.
    Visible(Set<Pos>),
    /// Chunks outside the visible set are dropped.
    Evict,
    /// Generation is scheduled for the visible coordinates for which it is
    /// due.
    Schedule,
    /// The result of a generation job is stored.
    Generated(ChunkView),
    /// The result of a compression job is stored.
    Compressed(CompressedChunkView),
    /// The queued decompression results are stored.
    StoreDecompressed,
    /// The chunk of a coordinate is decompressed into residency.
    Decompress(Pos),
    /// The voxel at a position is read.
    Read(Pos),
    /// A voxel is written at a position.
    Write(Voxel, Pos),
    /// The chunk of a coordinate is taken out.
    Remove(Pos),
}

impl PipelineStep {
    /// What the step brings into the registry is well formed.
    pub open spec fn wf(self) -> bool {
        match self {
            PipelineStep::Generated(chunk) => chunk.wf(),
            PipelineStep::Compressed(chunk) => chunk.valid(),
            _ => true,
        }
    }
}

impl ChunkMapView {
    /// What the registry holds after a step.
    pub open spec fn after(self, step: PipelineStep) -> ChunkMapView {
        match step {
            PipelineStep::Visible(visible) => ChunkMapView { visible, ..self },
            PipelineStep::Evict => self.evicted(),
            PipelineStep::Schedule => ChunkMapView {
                loading: self.loading + self.unloaded_visible(),
                ..self
            },
            PipelineStep::Generated(chunk) => self.after_generated(chunk),
            PipelineStep::Compressed(chunk) => self.after_compressed(chunk),
            PipelineStep::StoreDecompressed => self.stored(),
            PipelineStep::Decompress(pos) => self.made_resident(set![pos]),
            PipelineStep::Read(pos) => self.after_read(pos),
            PipelineStep::Write(voxel, pos) => self.after_write(voxel, pos),
            PipelineStep::Remove(pos) => self.after_removed(pos),
        }
    }

    /// What the registry holds after a sequence of steps.
    pub open spec fn after_all(self, steps: Seq<PipelineStep>) -> ChunkMapView
        decreases steps.len(),
    {
        if steps.len() == 0 {
            self
        } else {
            self.after(steps[0]).after_all(steps.drop_first())
        }
    }
}

/// After any sequence of steps no coordinate is both resident and
/// compressed, and the registry is well formed.
pub proof fn lemma_never_resident_and_compressed(
    map: ChunkMapView,
    steps: Seq<PipelineStep>,
    pos: Pos,
)
    requires
        map.wf(),
        forall|i: int| 0 <= i < steps.len() ==> (#[trigger] steps[i]).wf(),
    ensures
        map.after_all(steps).wf(),
        !(map.after_all(steps).resident.contains_key(pos) && map.after_all(
            steps,
        ).compressed.contains_key(pos)),
    decreases steps.len(),
{
    if steps.len() > 0 {
        lemma_step_keeps_wf(map, steps[0]);
        let rest = steps.drop_first();
        assert forall|i: int| 0 <= i < rest.len() implies (#[trigger] rest[i]).wf() by {
            assert(rest[i] == steps[i + 1]);
        }
        lemma_never_resident_and_compressed(map.after(steps[0]), rest, pos);
    }
}

/// A step keeps the registry well formed.
pub proof fn lemma_step_keeps_wf(map: ChunkMapView, step: PipelineStep)
    requires
        map.wf(),
        step.wf(),
    ensures
        map.after(step).wf(),
{
    match step {
        PipelineStep::StoreDecompressed => {
            lemma_stored_wf(map);
        },
        PipelineStep::Decompress(pos) => {
            lemma_made_resident_wf(map, set![pos]);
        },
        PipelineStep::Read(pos) => {
            lemma_read_keeps_wf(map, pos);
        },
        PipelineStep::Write(voxel, pos) => {
            lemma_write_keeps_wf(map, voxel, pos);
        },
        _ => {},
    }
}

/// What a valid compressed chunk decompresses to is well formed.
pub proof fn lemma_decompressed_wf(chunk: CompressedChunkView, order: ByteOrder)
    requires
        chunk.valid(),
    ensures
        chunk.decompressed(order).wf(),
        chunk.decompressed(order).pos == chunk.pos,
        chunk.decompressed(order).empty() == chunk.empty,
{
}

/// Storing the queued decompression results keeps the registry well formed
/// and empties the queue.
pub proof fn lemma_stored_wf(map: ChunkMapView)
    requires
        map.wf(),
    ensures
        map.stored().wf(),
        map.stored().decompressed.len() == 0,
    decreases map.decompressed.len(),
{
    if map.decompressed.len() > 0 {
        let chunk = map.decompressed[0];
        let rest = map.decompressed.drop_first();
        assert forall|i: int| 0 <= i < rest.len() implies (#[trigger] rest[i]).wf() by {
            assert(rest[i] == map.decompressed[i + 1]);
        }
        if map.compressed.contains_key(chunk.pos) {
            lemma_stored_wf(
                ChunkMapView {
                    resident: map.resident.insert(chunk.pos, chunk),
                    compressed: map.compressed.remove(chunk.pos),
                    decompressed: rest,
                    ..map
                },
            );
        } else {
            lemma_stored_wf(ChunkMapView { decompressed: rest, ..map });
        }
    }
}

/// Among the queued results for a coordinate there is an oldest one.
pub proof fn lemma_first_queued(map: ChunkMapView, key: Pos)
    requires
        map.queued(key),
    ensures
        map.is_first_queued(key, map.first_queued(key)),
{
    let i = choose|i: int|
        0 <= i < map.decompressed.len() && (#[trigger] map.decompressed[i]).pos == key;
    lemma_first_queued_before(map, key, i);
}

proof fn lemma_first_queued_before(map: ChunkMapView, key: Pos, i: int)
    requires
        0 <= i < map.decompressed.len(),
        map.decompressed[i].pos == key,
    ensures
        exists|m: int| map.is_first_queued(key, m),
    decreases i,
{
    if exists|j: int| 0 <= j < i && (#[trigger] map.decompressed[j]).pos == key {
        let j = choose|j: int| 0 <= j < i && (#[trigger] map.decompressed[j]).pos == key;
        lemma_first_queued_before(map, key, j);
    } else {
        assert(map.is_first_queued(key, i));
    }
}

/// A read keeps the registry well formed.
pub proof fn lemma_read_keeps_wf(map: ChunkMapView, pos: Pos)
    requires
        map.wf(),
    ensures
        map.after_read(pos).wf(),
{
    let key = chunk_of(pos);
    let after = map.after_read(pos);
    if !map.resident.contains_key(key) {
        if map.queued(key) {
            lemma_first_queued(map, key);
            let m = map.first_queued(key);
            let n = map.decompressed.len() as int;
            assert forall|i: int| 0 <= i < after.decompressed.len() implies (
            #[trigger] after.decompressed[i]).wf() by {
                if i < n - (m + 1) {
                    assert(after.decompressed[i] == map.decompressed[i + m + 1]);
                } else {
                    assert(after.decompressed[i] == map.decompressed[i - (n - (m + 1))]);
                }
            }
        } else if map.compressed.contains_key(key) {
            lemma_decompressed_wf(map.compressed[key], map.order);
            assert forall|i: int| 0 <= i < after.decompressed.len() implies (
            #[trigger] after.decompressed[i]).wf() by {
                if i < map.decompressed.len() {
                    assert(after.decompressed[i] == map.decompressed[i]);
                }
            }
        }
    }
}

/// Decompressing chunks into residency keeps the registry well formed.
pub proof fn lemma_made_resident_wf(map: ChunkMapView, coords: Set<Pos>)
    requires
        map.wf(),
    ensures
        map.made_resident(coords).wf(),
{
    let after = map.made_resident(coords);
    assert forall|p: Pos| #[trigger] after.resident.contains_key(p) implies after.resident[p].wf()
        && after.resident[p].pos == p by {
        if !map.resident.contains_key(p) {
            lemma_decompressed_wf(map.compressed[p], map.order);
        }
    }
}

/// A write keeps the registry well formed.
pub proof fn lemma_write_keeps_wf(map: ChunkMapView, voxel: Voxel, pos: Pos)
    requires
        map.wf(),
    ensures
        map.after_write(voxel, pos).wf(),
{
    let coords = sharing_chunks(pos).to_set();
    let loaded = map.made_resident(coords);
    let after = map.after_write(voxel, pos);
    lemma_sharing_chunks(pos);
    assert forall|p: Pos| #[trigger] after.resident.contains_key(p) implies after.resident[p].wf()
        && after.resident[p].pos == p by {
        if !map.resident.contains_key(p) {
            lemma_decompressed_wf(map.compressed[p], map.order);
        }
        assert(loaded.resident[p].wf() && loaded.resident[p].pos == p);
        if coords.contains(p) {
            assert(sharing_chunks(pos).contains(p));
            crate::chunk::lemma_write_then_read(loaded.resident[p], voxel, pos, pos);
        }
    }
}

/// The coordinates for which generation is due are the visible ones whose
/// state is unloaded; a dirty mark on a coordinate without a chunk does not
/// keep it from being generated.
pub proof fn lemma_unloaded_visible(map: ChunkMapView, pos: Pos)
    ensures
        map.unloaded_visible().contains(pos) <==> map.visible.contains(pos) && map.state(pos)
            == ChunkState::Unloaded,
        map.after(PipelineStep::Schedule).state(pos) != ChunkState::Unloaded
            || !map.visible.contains(pos),
{
}

/// After eviction the registry has no chunk for a coordinate that is not
/// visible.
pub proof fn lemma_evicted_not_contained(map: ChunkMapView, pos: Pos)
    requires
        !map.visible.contains(pos),
    ensures
        !map.evicted().contains(pos),
{
}

/// A voxel that was written is the voxel that is read, if the registry has
/// the chunk that owns it.
pub proof fn lemma_write_then_read(map: ChunkMapView, voxel: Voxel, pos: Pos)
    requires
        map.wf(),
        map.contains(chunk_of(pos)),
    ensures
        map.after_write(voxel, pos).voxel_at(pos) == Some(voxel),
{
    let key = chunk_of(pos);
    lemma_sharing_chunks(pos);
    assert(sharing_chunks(pos).to_set().contains(key));
    if !map.resident.contains_key(key) {
        lemma_decompressed_wf(map.compressed[key], map.order);
    }
    lemma_owner_stores(pos);
    crate::chunk::lemma_write_then_read(map.chunk_at(key), voxel, pos, pos);
}

/// The chunks that a write to `pos` reaches are distinct, and each of them
/// whose coordinate is in range stores the voxel at `pos`.
pub proof fn lemma_sharing_chunks(pos: Pos)
    ensures
        sharing_chunks(pos).no_duplicates(),
        1 <= sharing_chunks(pos).len() <= 4,
        sharing_chunks(pos)[0] == chunk_of(pos),
        forall|k: Pos| #[trigger]
            sharing_chunks(pos).contains(k) && chunk_coord_in_range(k) ==> extent_of(k).contains(
                pos,
            ),
{
    vstd::arithmetic::div_mod::lemma_fundamental_div_mod(pos.x as int, CHUNK_SIZE as int);
    vstd::arithmetic::div_mod::lemma_fundamental_div_mod(pos.y as int, CHUNK_SIZE as int);
    vstd::arithmetic::div_mod::lemma_fundamental_div_mod(pos.z as int, CHUNK_SIZE as int);
    let s = sharing_chunks(pos);
    assert forall|k: Pos| #[trigger] s.contains(k) && chunk_coord_in_range(k) implies extent_of(
        k,
    ).contains(pos) by {
        let i = s.index_of(k);
        assert(s[i] == k);
    }
}

/// The chunk that owns a voxel stores it.
pub proof fn lemma_owner_stores(pos: Pos)
    requires
        chunk_coord_in_range(chunk_of(pos)),
    ensures
        extent_of(chunk_of(pos)).contains(pos),
{
    vstd::arithmetic::div_mod::lemma_fundamental_div_mod(pos.x as int, CHUNK_SIZE as int);
    vstd::arithmetic::div_mod::lemma_fundamental_div_mod(pos.y as int, CHUNK_SIZE as int);
    vstd::arithmetic::div_mod::lemma_fundamental_div_mod(pos.z as int, CHUNK_SIZE as int);
}

} // verus!
