//! The voxel buffer of one chunk.
//!
//! A chunk is a cube of `CHUNK_SIZE` voxels per edge with one padding cell on
//! every face, so that a voxel's six neighbours are found in the chunk's own
//! buffer. While every voxel equals the ambient voxel the buffer is absent.

use vstd::prelude::*;
use crate::math::{Extent3, Pos};

verus! {

/// A block identifier; `0` is air.
pub type Voxel = u32;

/// Padding cells on each face of a chunk.
pub const CHUNK_PADDING: i32 = 1;

/// Voxels along one edge of a chunk, padding excluded.
pub const CHUNK_SIZE: i32 = 64;

/// Voxels along one edge of a chunk's buffer.
pub const CHUNK_SIZE_WITH_PADDING: i32 = 66;

/// Voxels in one layer of a chunk's buffer: the stride of the x axis.
pub const CHUNK_LAYER_SIZE_WITH_PADDING: i32 = 4_356;

/// Voxels in a chunk's buffer.
pub const CHUNK_STORAGE_SIZE: usize = 287_496;

/// The least chunk coordinate whose padded extent fits in 32 bits.
pub const MIN_CHUNK_COORD: i32 = -33_554_431;

/// The greatest chunk coordinate whose padded extent fits in 32 bits.
pub const MAX_CHUNK_COORD: i32 = 33_554_430;

/// Marks an entity that stands for a chunk.
pub struct ChunkTag;

/// A cube of voxels with its padding.
pub struct Chunk {
    /// The voxels, or nothing while every voxel is the ambient voxel.
    pub voxels: Vec<Voxel>,
    pub ambient_voxel: Voxel,
    /// The chunk coordinate: world position divided by the chunk size.
    pub pos: Pos,
}

/// `coord` is a chunk coordinate whose padded extent fits in 32 bits.
pub open spec fn chunk_coord_in_range(coord: Pos) -> bool {
    &&& MIN_CHUNK_COORD <= coord.x <= MAX_CHUNK_COORD
    &&& MIN_CHUNK_COORD <= coord.y <= MAX_CHUNK_COORD
    &&& MIN_CHUNK_COORD <= coord.z <= MAX_CHUNK_COORD
}

/// The padded box of voxel coordinates that the chunk at `coord` stores.
pub open spec fn extent_of(coord: Pos) -> Extent3 {
    Extent3 {
        min: Pos {
            x: (coord.x * CHUNK_SIZE - CHUNK_PADDING) as i32,
            y: (coord.y * CHUNK_SIZE - CHUNK_PADDING) as i32,
            z: (coord.z * CHUNK_SIZE - CHUNK_PADDING) as i32,
        },
        max: Pos {
            x: (coord.x * CHUNK_SIZE + CHUNK_SIZE + CHUNK_PADDING - 1) as i32,
            y: (coord.y * CHUNK_SIZE + CHUNK_SIZE + CHUNK_PADDING - 1) as i32,
            z: (coord.z * CHUNK_SIZE + CHUNK_SIZE + CHUNK_PADDING - 1) as i32,
        },
    }
}

/// Where the chunk at `coord` keeps the voxel at `p`: y runs fastest, then
/// z, then x.
pub open spec fn index_of(coord: Pos, p: Pos) -> int {
    let min = extent_of(coord).min;
    (p.y - min.y) + (p.z - min.z) * CHUNK_SIZE_WITH_PADDING + (p.x - min.x)
        * CHUNK_LAYER_SIZE_WITH_PADDING
}

/// The voxel coordinate that the chunk at `coord` keeps at index `i`.
pub open spec fn pos_at(coord: Pos, i: int) -> Pos {
    let min = extent_of(coord).min;
    let x = i / (CHUNK_LAYER_SIZE_WITH_PADDING as int);
    let rest = i - x * CHUNK_LAYER_SIZE_WITH_PADDING;
    Pos {
        x: (x + min.x) as i32,
        y: (rest % (CHUNK_SIZE_WITH_PADDING as int) + min.y) as i32,
        z: (rest / (CHUNK_SIZE_WITH_PADDING as int) + min.z) as i32,
    }
}

/// `p` lies in the box from `min` to `max`, `max` excluded on every axis.
pub open spec fn in_area(p: Pos, min: Pos, max: Pos) -> bool {
    &&& min.x <= p.x < max.x
    &&& min.y <= p.y < max.y
    &&& min.z <= p.z < max.z
}

/// The box from `min` to `max` is one that [`Chunk::fill_area`] can fill in
/// the chunk at `coord`: it lies in the chunk's extent, and its rows do not
/// end before they start.
pub open spec fn area_in_extent(coord: Pos, min: Pos, max: Pos) -> bool {
    let e = extent_of(coord);
    &&& e.min.x <= min.x && max.x <= e.max.x + 1
    &&& e.min.y <= min.y <= max.y <= e.max.y + 1
    &&& e.min.z <= min.z && max.z <= e.max.z + 1
}

/// While an area is being filled layer by layer, row by row, the voxel at
/// index `i` has been written once the fill stands at `(x, y, z)`.
spec fn fill_reached(coord: Pos, i: int, min: Pos, max: Pos, x: int, y: int, z: int) -> bool {
    let p = pos_at(coord, i);
    in_area(p, min, max) && (p.z < z || (p.z == z && (p.x < x || (p.x == x && p.y < y))))
}

/// Positions inside a chunk's extent and indices into its buffer correspond
/// one to one: the index of a position is in range and leads back to it.
pub proof fn lemma_index_of_position(coord: Pos, p: Pos)
    requires
        chunk_coord_in_range(coord),
        extent_of(coord).contains(p),
    ensures
        0 <= index_of(coord, p) < CHUNK_STORAGE_SIZE,
        pos_at(coord, index_of(coord, p)) == p,
{
}

/// The position of an index is in the extent and has that index.
pub proof fn lemma_position_of_index(coord: Pos, i: int)
    requires
        chunk_coord_in_range(coord),
        0 <= i < CHUNK_STORAGE_SIZE,
    ensures
        extent_of(coord).contains(pos_at(coord, i)),
        index_of(coord, pos_at(coord, i)) == i,
{
}

/// Two positions of one extent with the same index are the same position.
pub proof fn lemma_index_injective(coord: Pos, p: Pos, q: Pos)
    requires
        chunk_coord_in_range(coord),
        extent_of(coord).contains(p),
        extent_of(coord).contains(q),
        index_of(coord, p) == index_of(coord, q),
    ensures
        p == q,
{
    lemma_index_of_position(coord, p);
    lemma_index_of_position(coord, q);
}

/// What a chunk holds: its buffer as a sequence, its ambient voxel and its
/// coordinate.
pub struct ChunkView {
    pub voxels: Seq<Voxel>,
    pub ambient_voxel: Voxel,
    pub pos: Pos,
}

impl ChunkView {
    /// The chunk's invariant: its coordinate is in range and its buffer is
    /// absent or complete.
    pub open spec fn wf(self) -> bool {
        &&& chunk_coord_in_range(self.pos)
        &&& (self.voxels.len() == 0 || self.voxels.len() == CHUNK_STORAGE_SIZE)
    }

    /// No buffer has been materialized.
    pub open spec fn empty(self) -> bool {
        self.voxels.len() == 0
    }

    /// The voxel that the chunk holds at `p`.
    pub open spec fn voxel_at(self, p: Pos) -> Voxel {
        if self.empty() {
            self.ambient_voxel
        } else {
            self.voxels[index_of(self.pos, p)]
        }
    }

    /// The buffer that the chunk has once it is materialized.
    pub open spec fn materialized(self) -> Seq<Voxel> {
        if self.empty() {
            Seq::new(CHUNK_STORAGE_SIZE as nat, |i: int| self.ambient_voxel)
        } else {
            self.voxels
        }
    }

    /// The chunk after `voxel` was written at `p`.
    pub open spec fn with_voxel(self, voxel: Voxel, p: Pos) -> ChunkView {
        ChunkView { voxels: self.materialized().update(index_of(self.pos, p), voxel), ..self }
    }
}

/// A voxel that was written is the voxel that is read, and a write changes
/// no other voxel of the chunk.
pub proof fn lemma_write_then_read(chunk: ChunkView, voxel: Voxel, p: Pos, q: Pos)
    requires
        chunk.wf(),
        extent_of(chunk.pos).contains(p),
        extent_of(chunk.pos).contains(q),
    ensures
        chunk.with_voxel(voxel, p).wf(),
        chunk.with_voxel(voxel, p).voxel_at(p) == voxel,
        q != p ==> chunk.with_voxel(voxel, p).voxel_at(q) == chunk.voxel_at(q),
{
    lemma_index_of_position(chunk.pos, p);
    lemma_index_of_position(chunk.pos, q);
}

impl View for Chunk {
    type V = ChunkView;

    open spec fn view(&self) -> ChunkView {
        ChunkView { voxels: self.voxels@, ambient_voxel: self.ambient_voxel, pos: self.pos }
    }
}

impl Clone for Chunk {
    fn clone(&self) -> (chunk: Chunk)
        ensures
            chunk@ == self@,
    {
        let voxels = self.voxels.clone();
        assert(voxels@ =~= self.voxels@);
        Chunk { voxels, ambient_voxel: self.ambient_voxel, pos: self.pos }
    }
}

/// Tells whether `coord` is a chunk coordinate whose padded extent fits in 32
/// bits.
pub fn is_chunk_coord(coord: Pos) -> (b: bool)
    ensures
        b == chunk_coord_in_range(coord),
{
    MIN_CHUNK_COORD <= coord.x && coord.x <= MAX_CHUNK_COORD && MIN_CHUNK_COORD <= coord.y
        && coord.y <= MAX_CHUNK_COORD && MIN_CHUNK_COORD <= coord.z && coord.z <= MAX_CHUNK_COORD
}

impl Chunk {
    /// The chunk's invariant: its coordinate is in range and its buffer is
    /// absent or complete.
    pub open spec fn wf(&self) -> bool {
        self@.wf()
    }

    /// No buffer has been materialized.
    pub open spec fn empty(&self) -> bool {
        self@.empty()
    }

    /// The voxel that the chunk holds at `p`.
    pub open spec fn voxel_at(&self, p: Pos) -> Voxel {
        self@.voxel_at(p)
    }

    /// The buffer that the chunk has once it is materialized.
    pub open spec fn materialized(&self) -> Seq<Voxel> {
        self@.materialized()
    }

    /// An unmaterialized chunk: every voxel is `initial_voxel`.
    pub fn new(pos: Pos, initial_voxel: Voxel) -> (chunk: Chunk)
        ensures
            chunk.pos == pos,
            chunk.ambient_voxel == initial_voxel,
            chunk.voxels@ == Seq::<Voxel>::empty(),
            chunk.wf() <==> chunk_coord_in_range(pos),
    {
        Chunk { pos, ambient_voxel: initial_voxel, voxels: Vec::new() }
    }

    /// A chunk over a given buffer.
    pub fn new_from_vec(pos: Pos, ambient_voxel: Voxel, voxels: Vec<Voxel>) -> (chunk: Chunk)
        ensures
            chunk.pos == pos,
            chunk.ambient_voxel == ambient_voxel,
            chunk.voxels == voxels,
    {
        Chunk { pos, ambient_voxel, voxels }
    }

    pub fn is_empty(&self) -> (b: bool)
        ensures
            b == self.empty(),
    {
        self.voxels.len() == 0
    }

    /// Tells whether the chunk is well formed: its coordinate is in range
    /// and its buffer is absent or complete.
    pub fn is_well_formed(&self) -> (b: bool)
        ensures
            b == self.wf(),
    {
        is_chunk_coord(self.pos) && (self.voxels.len() == 0 || self.voxels.len()
            == CHUNK_STORAGE_SIZE)
    }

    /// Materializes the buffer, filled with the ambient voxel, unless there is
    /// one already.
    pub fn fill_if_empty(&mut self)
        ensures
            final(self)@ == (ChunkView { voxels: old(self).materialized(), ..old(self)@ }),
            old(self).wf() ==> final(self).wf() && !final(self).empty(),
    {
        if self.is_empty() {
            self.voxels = vec![self.ambient_voxel; CHUNK_STORAGE_SIZE];
            assert(self.voxels@ =~= old(self).materialized());
        }
    }

    /// The padded box of voxel coordinates that the chunk stores.
    pub fn extent(&self) -> (e: Extent3)
        requires
            chunk_coord_in_range(self.pos),
        ensures
            e == extent_of(self.pos),
    {
        Extent3 {
            min: Pos {
                x: self.pos.x * CHUNK_SIZE - CHUNK_PADDING,
                y: self.pos.y * CHUNK_SIZE - CHUNK_PADDING,
                z: self.pos.z * CHUNK_SIZE - CHUNK_PADDING,
            },
            max: Pos {
                x: self.pos.x * CHUNK_SIZE + CHUNK_SIZE + CHUNK_PADDING - 1,
                y: self.pos.y * CHUNK_SIZE + CHUNK_SIZE + CHUNK_PADDING - 1,
                z: self.pos.z * CHUNK_SIZE + CHUNK_SIZE + CHUNK_PADDING - 1,
            },
        }
    }

    /// The index of a row position; `pos.y` may be one past the extent, for
    /// the end of a row.
    fn row_index(&self, pos: Pos) -> (i: usize)
        requires
            chunk_coord_in_range(self.pos),
            extent_of(self.pos).min.x <= pos.x <= extent_of(self.pos).max.x,
            extent_of(self.pos).min.y <= pos.y <= extent_of(self.pos).max.y + 1,
            extent_of(self.pos).min.z <= pos.z <= extent_of(self.pos).max.z,
        ensures
            i == index_of(self.pos, pos),
            i <= CHUNK_STORAGE_SIZE,
            pos.y <= extent_of(self.pos).max.y ==> i < CHUNK_STORAGE_SIZE,
    {
        let min = self.extent().min;
        let x: i32 = pos.x - min.x;
        let y: i32 = pos.y - min.y;
        let z: i32 = pos.z - min.z;
        (y + (z * CHUNK_SIZE_WITH_PADDING) + (x * CHUNK_LAYER_SIZE_WITH_PADDING)) as usize
    }

    /// The index in the buffer of the voxel at `pos`.
    pub fn block_index(&self, pos: Pos) -> (i: usize)
        requires
            chunk_coord_in_range(self.pos),
            extent_of(self.pos).contains(pos),
        ensures
            i == index_of(self.pos, pos),
            i < CHUNK_STORAGE_SIZE,
    {
        self.row_index(pos)
    }

    /// The voxel coordinate that index `i` of the buffer stands for.
    pub fn index_to_pos(&self, i: usize) -> (p: Pos)
        requires
            chunk_coord_in_range(self.pos),
            i < CHUNK_STORAGE_SIZE,
        ensures
            p == pos_at(self.pos, i as int),
            extent_of(self.pos).contains(p),
            index_of(self.pos, p) == i,
    {
        let mut i: i32 = i as i32;
        let x: i32 = i / CHUNK_LAYER_SIZE_WITH_PADDING;
        i -= x * CHUNK_LAYER_SIZE_WITH_PADDING;
        let z: i32 = i / CHUNK_SIZE_WITH_PADDING;
        let y: i32 = i % CHUNK_SIZE_WITH_PADDING;
        let min = self.extent().min;
        Pos { x: x + min.x, y: y + min.y, z: z + min.z }
    }

    /// Writes `voxel` to every position of the box from `min` to `max`, `max`
    /// excluded, and changes no other voxel. A box that is empty along x or
    /// along z only materializes the buffer.
    pub fn fill_area(&mut self, voxel: Voxel, min: Pos, max: Pos)
        requires
            old(self).wf(),
            min.x < max.x && min.z < max.z ==> area_in_extent(old(self).pos, min, max),
        ensures
            final(self).wf(),
            !final(self).empty(),
            final(self).pos == old(self).pos,
            final(self).ambient_voxel == old(self).ambient_voxel,
            forall|q: Pos|
                extent_of(old(self).pos).contains(q) ==> #[trigger] final(self)@.voxel_at(q) == (
                if in_area(q, min, max) {
                    voxel
                } else {
                    old(self)@.voxel_at(q)
                }),
    {
        self.fill_if_empty();
        let ghost base = self.voxels@;
        let ghost coord = self.pos;
        let mut z: i32 = min.z;
        while z < max.z
            invariant
                chunk_coord_in_range(coord),
                self.pos == coord,
                self.ambient_voxel == old(self).ambient_voxel,
                self.voxels@.len() == CHUNK_STORAGE_SIZE,
                base.len() == CHUNK_STORAGE_SIZE,
                min.z <= z,
                min.x < max.x && min.z < max.z ==> area_in_extent(coord, min, max),
                forall|i: int|
                    0 <= i < CHUNK_STORAGE_SIZE ==> #[trigger] self.voxels@[i] == (if fill_reached(
                        coord,
                        i,
                        min,
                        max,
                        min.x as int,
                        min.y as int,
                        z as int,
                    ) {
                        voxel
                    } else {
                        base[i]
                    }),
            decreases max.z - z,
        {
            let mut x: i32 = min.x;
            while x < max.x
                invariant
                    chunk_coord_in_range(coord),
                    self.pos == coord,
                    self.ambient_voxel == old(self).ambient_voxel,
                    self.voxels@.len() == CHUNK_STORAGE_SIZE,
                    base.len() == CHUNK_STORAGE_SIZE,
                    min.z <= z < max.z,
                    min.x <= x,
                    min.x < max.x ==> area_in_extent(coord, min, max),
                    forall|i: int|
                        0 <= i < CHUNK_STORAGE_SIZE ==> #[trigger] self.voxels@[i] == (
                        if fill_reached(coord, i, min, max, x as int, min.y as int, z as int) {
                            voxel
                        } else {
                            base[i]
                        }),
                decreases max.x - x,
            {
                let start_i = self.row_index(Pos { x, y: min.y, z });
                let end_i = self.row_index(Pos { x, y: max.y, z });
                let mut j: usize = start_i;
                while j < end_i
                    invariant
                        chunk_coord_in_range(coord),
                        self.pos == coord,
                        self.ambient_voxel == old(self).ambient_voxel,
                        self.voxels@.len() == CHUNK_STORAGE_SIZE,
                        base.len() == CHUNK_STORAGE_SIZE,
                        min.z <= z < max.z,
                        min.x <= x < max.x,
                        area_in_extent(coord, min, max),
                        start_i == index_of(coord, Pos { x, y: min.y, z }),
                        end_i == index_of(coord, Pos { x, y: max.y, z }),
                        start_i <= j <= end_i <= CHUNK_STORAGE_SIZE,
                        forall|i: int|
                            0 <= i < CHUNK_STORAGE_SIZE ==> #[trigger] self.voxels@[i] == (
                            if fill_reached(
                                coord,
                                i,
                                min,
                                max,
                                x as int,
                                min.y + (j - start_i),
                                z as int,
                            ) {
                                voxel
                            } else {
                                base[i]
                            }),
                    decreases end_i - j,
                {
                    let ghost before = self.voxels@;
                    self.voxels[j] = voxel;
                    proof {
                        assert forall|i: int| 0 <= i < CHUNK_STORAGE_SIZE implies #[trigger] self.voxels@[i]
                            == (if fill_reached(
                            coord,
                            i,
                            min,
                            max,
                            x as int,
                            min.y + (j + 1 - start_i),
                            z as int,
                        ) {
                            voxel
                        } else {
                            base[i]
                        }) by {
                            lemma_position_of_index(coord, i);
                            lemma_position_of_index(coord, j as int);
                            assert(self.voxels@[i] == if i == j {
                                voxel
                            } else {
                                before[i]
                            });
                        }
                    }
                    j += 1;
                }
                proof {
                    assert forall|i: int| 0 <= i < CHUNK_STORAGE_SIZE implies #[trigger] self.voxels@[i]
                        == (if fill_reached(coord, i, min, max, x + 1, min.y as int, z as int) {
                        voxel
                    } else {
                        base[i]
                    }) by {
                        lemma_position_of_index(coord, i);
                    }
                }
                x += 1;
            }
            proof {
                assert forall|i: int| 0 <= i < CHUNK_STORAGE_SIZE implies #[trigger] self.voxels@[i]
                    == (if fill_reached(coord, i, min, max, min.x as int, min.y as int, z + 1) {
                    voxel
                } else {
                    base[i]
                }) by {
                    lemma_position_of_index(coord, i);
                }
            }
            z += 1;
        }
        proof {
            assert forall|q: Pos| extent_of(coord).contains(q) implies #[trigger] self@.voxel_at(q)
                == (if in_area(q, min, max) {
                voxel
            } else {
                old(self)@.voxel_at(q)
            }) by {
                lemma_index_of_position(coord, q);
                let i = index_of(coord, q);
                assert(self.voxels@[i] == (if fill_reached(
                    coord,
                    i,
                    min,
                    max,
                    min.x as int,
                    min.y as int,
                    z as int,
                ) {
                    voxel
                } else {
                    base[i]
                }));
            }
        }
    }

    /// The voxel at `pos`, which must lie in the chunk's extent.
    pub fn get_voxel(&self, pos: Pos) -> (v: Voxel)
        requires
            self.wf(),
            extent_of(self.pos).contains(pos),
        ensures
            v == self.voxel_at(pos),
    {
        if self.is_empty() {
            return self.ambient_voxel;
        }
        self.voxels[self.block_index(pos)]
    }

    /// Writes `voxel` at `pos`, which must lie in the chunk's extent, and
    /// changes no other voxel.
    pub fn set_voxel(&mut self, voxel: Voxel, pos: Pos)
        requires
            old(self).wf(),
            extent_of(old(self).pos).contains(pos),
        ensures
            final(self).wf(),
            !final(self).empty(),
            final(self).pos == old(self).pos,
            final(self).ambient_voxel == old(self).ambient_voxel,
            final(self)@ == old(self)@.with_voxel(voxel, pos),
            final(self).voxel_at(pos) == voxel,
            forall|q: Pos|
                extent_of(old(self).pos).contains(q) && q != pos ==> #[trigger] final(self)@.voxel_at(
                    q,
                ) == old(self)@.voxel_at(q),
    {
        self.fill_if_empty();
        let i = self.block_index(pos);
        self.voxels[i] = voxel;
        proof {
            assert forall|q: Pos| extent_of(self.pos).contains(q) && q != pos implies #[trigger] self@.voxel_at(
                q,
            ) == old(self)@.voxel_at(q) by {
                lemma_index_of_position(self.pos, q);
                lemma_index_of_position(self.pos, pos);
            }
        }
    }
}

} // verus!
