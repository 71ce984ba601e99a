//! The integer side of meshing: which faces show, and how their corners are
//! indexed.

use vstd::prelude::*;
use crate::blocks::{Block, BlockLibrary, BlockLibraryView};
use crate::chunk::{
    chunk_coord_in_range,
    extent_of,
    index_of,
    lemma_position_of_index,
    pos_at,
    Chunk,
    ChunkView,
    CHUNK_LAYER_SIZE_WITH_PADDING,
    CHUNK_PADDING,
    CHUNK_SIZE_WITH_PADDING,
    CHUNK_STORAGE_SIZE,
};
use crate::math::{Extent3, Pos};

verus! {

/// The six vertex indices of the two triangles of a square whose first corner
/// has index `count`.
pub fn indices(count: u32) -> (r: [u32; 6])
    requires
        count + 3 <= u32::MAX,
    ensures
        r@ == seq![
            count,
            (count + 1) as u32,
            (count + 2) as u32,
            (count + 2) as u32,
            (count + 3) as u32,
            count,
        ],
{
    let r = [0 + count, 1 + count, 2 + count, 2 + count, 3 + count, 0 + count];
    assert(r@ =~= seq![
        count,
        (count + 1) as u32,
        (count + 2) as u32,
        (count + 2) as u32,
        (count + 3) as u32,
        count,
    ]);
    r
}

/// The number of quarter turns, from 0 to 3, by which the texture of the
/// block at `(x, y, z)` is turned where textures are turned at random: a
/// hash of the three coordinates.
pub open spec fn quarter_turns(x: i32, y: i32, z: i32) -> int {
    let sum = x.wrapping_mul(374761393).wrapping_add(y.wrapping_mul(668265263)).wrapping_add(
        z.wrapping_mul(987643213),
    );
    let mixed = (sum ^ (sum >> 13)).wrapping_mul(1274126177);
    ((mixed ^ (mixed >> 16)) as int) % 4
}

/// Computes [`quarter_turns`].
pub fn uv_quarter_turns(x: i32, y: i32, z: i32) -> (turns: i32)
    ensures
        turns == quarter_turns(x, y, z),
        0 <= turns <= 3,
{
    // all constants are prime
    let mut r: i32 = x.wrapping_mul(374761393).wrapping_add(y.wrapping_mul(668265263)).wrapping_add(
        z.wrapping_mul(987643213),
    );
    r = (r ^ (r >> 13)).wrapping_mul(1274126177);
    let mixed = r;
    r = r ^ (r >> 16);
    // The shift copies the sign into the upper half, where the xor cancels it.
    assert(r >= 0) by (bit_vector)
        requires
            r == mixed ^ (mixed >> 16),
    ;
    r % 4
}

/// One corner's texture datum: the texture id in the low twelve bits, then
/// one bit for each texture coordinate.
pub open spec fn texture_datum(u: u32, v: u32, tex_id: u32) -> u32 {
    (tex_id % 0x1000 + 0x1000 * (u % 2) + 0x2000 * (v % 2)) as u32
}

/// Packs the texture coordinates of the four corners of a face, each 0 or
/// 1, with the face's texture id into one number per corner.
pub fn pack_texture_data(uvs: [[u32; 2]; 4], tex_id: u32) -> (data: [u32; 4])
    ensures
        forall|i: int|
            0 <= i < 4 ==> #[trigger] data@[i] == texture_datum(uvs@[i]@[0], uvs@[i]@[1], tex_id),
{
    let mut data: [u32; 4] = [0, 0, 0, 0];
    let mut i: usize = 0;
    while i < 4
        invariant
            i <= 4,
            forall|k: int|
                0 <= k < i ==> #[trigger] data@[k] == texture_datum(
                    uvs@[k]@[0],
                    uvs@[k]@[1],
                    tex_id,
                ),
        decreases 4 - i,
    {
        let uv = uvs[i];
        let u0: u32 = uv[0];
        let v0: u32 = uv[1];
        let u: u32 = (u0 & 0x1) << 12;
        let v: u32 = (v0 & 0x1) << 13;
        let datum: u32 = tex_id & 0xFFF | u | v;
        assert(datum == tex_id % 0x1000 + 0x1000 * (u0 % 2) + 0x2000 * (v0 % 2)) by (bit_vector)
            requires
                u == (u0 & 0x1) << 12,
                v == (v0 & 0x1) << 13,
                datum == tex_id & 0xFFF | u | v,
        ;
        data[i] = datum;
        i += 1;
    }
    data
}

/// A face shows if the voxel on its other side is air.
pub fn is_face_visible(neighbor: &u32) -> (visible: bool)
    ensures
        visible == (*neighbor == Block::AIR),
{
    *neighbor == Block::AIR
}

/// A face of a block that shows because the voxel beyond it is air.
#[derive(Clone, Copy, Debug, PartialEq, Eq, Structural)]
pub struct VisibleFace {
    /// The block's position in the chunk, padding not counted.
    pub block_pos: Pos,
    /// Which face: `Block::LEFT` and so on.
    pub side: usize,
    /// The texture of the face.
    pub tex_id: u32,
    /// Whether the texture is turned by a pseudo-random quarter turn.
    pub rand_rot: bool,
}

/// The faces of a chunk that show, and the vertex indices of their
/// triangles, four vertices and six indices to a face.
pub struct CulledMesh {
    pub faces: Vec<VisibleFace>,
    pub indices: Vec<u32>,
}

/// The faces of a block in the order in which they are examined.
pub open spec fn side_at(k: int) -> usize {
    if k == 0 {
        Block::LEFT
    } else if k == 1 {
        Block::BACK
    } else if k == 2 {
        Block::BOTTOM
    } else if k == 3 {
        Block::TOP
    } else if k == 4 {
        Block::FRONT
    } else {
        Block::RIGHT
    }
}

/// How far in the buffer the voxel beyond face `k` stands from the block.
pub open spec fn side_stride(k: int) -> int {
    if k == 0 {
        -CHUNK_LAYER_SIZE_WITH_PADDING
    } else if k == 1 {
        -CHUNK_SIZE_WITH_PADDING
    } else if k == 2 {
        -1
    } else if k == 3 {
        1
    } else if k == 4 {
        CHUNK_SIZE_WITH_PADDING as int
    } else {
        CHUNK_LAYER_SIZE_WITH_PADDING as int
    }
}

/// The position beyond face `k` of the block at `p`: left and right are
/// along x, bottom and top along y, back and front along z.
pub open spec fn side_neighbor(p: Pos, k: int) -> Pos {
    if k == 0 {
        Pos { x: (p.x - 1) as i32, ..p }
    } else if k == 1 {
        Pos { z: (p.z - 1) as i32, ..p }
    } else if k == 2 {
        Pos { y: (p.y - 1) as i32, ..p }
    } else if k == 3 {
        Pos { y: (p.y + 1) as i32, ..p }
    } else if k == 4 {
        Pos { z: (p.z + 1) as i32, ..p }
    } else {
        Pos { x: (p.x + 1) as i32, ..p }
    }
}

/// The voxel beyond a face of a block that is not in the padding stands in
/// the chunk's own buffer, at a fixed stride from the block: one for the
/// neighbours along y, the edge of the buffer for those along z, a layer of
/// the buffer for those along x.
pub proof fn lemma_side_neighbor(coord: Pos, i: int, k: int)
    requires
        chunk_coord_in_range(coord),
        0 <= i < CHUNK_STORAGE_SIZE,
        is_interior(coord, pos_at(coord, i)),
        0 <= k < 6,
    ensures
        extent_of(coord).contains(side_neighbor(pos_at(coord, i), k)),
        index_of(coord, side_neighbor(pos_at(coord, i), k)) == i + side_stride(k),
        0 <= i + side_stride(k) < CHUNK_STORAGE_SIZE,
{
    lemma_position_of_index(coord, i);
}

/// `p` is a position of the chunk at `coord` that is not in its padding.
pub open spec fn is_interior(coord: Pos, p: Pos) -> bool {
    let e = extent_of(coord);
    &&& e.min.x + CHUNK_PADDING <= p.x <= e.max.x - CHUNK_PADDING
    &&& e.min.y + CHUNK_PADDING <= p.y <= e.max.y - CHUNK_PADDING
    &&& e.min.z + CHUNK_PADDING <= p.z <= e.max.z - CHUNK_PADDING
}

/// The voxel at index `i` is a block whose faces may show: it is not air
/// and not in the padding.
pub open spec fn shows(chunk: ChunkView, i: int) -> bool {
    chunk.voxels[i] != Block::AIR && is_interior(chunk.pos, pos_at(chunk.pos, i))
}

/// Face `k` of the block at index `i`.
pub open spec fn face_of(chunk: ChunkView, library: BlockLibraryView, i: int, k: int) -> VisibleFace {
    let p = pos_at(chunk.pos, i);
    let min = extent_of(chunk.pos).min;
    let tex_id = library.blocks[chunk.voxels[i] as int].texture_ids@[side_at(k) as int];
    VisibleFace {
        block_pos: Pos {
            x: (p.x - min.x - CHUNK_PADDING) as i32,
            y: (p.y - min.y - CHUNK_PADDING) as i32,
            z: (p.z - min.z - CHUNK_PADDING) as i32,
        },
        side: side_at(k),
        tex_id,
        rand_rot: library.textures[tex_id as int].rand_rot,
    }
}

/// Those of the first `n` faces of the block at index `i` that show.
pub open spec fn faces_of_block(chunk: ChunkView, library: BlockLibraryView, i: int, n: int) -> Seq<
    VisibleFace,
>
    decreases n,
{
    if n <= 0 {
        Seq::empty()
    } else {
        let rest = faces_of_block(chunk, library, i, n - 1);
        if chunk.voxels[i + side_stride(n - 1)] == Block::AIR {
            rest.push(face_of(chunk, library, i, n - 1))
        } else {
            rest
        }
    }
}

/// The faces that show of the blocks at the indices before `n`.
pub open spec fn faces_before(chunk: ChunkView, library: BlockLibraryView, n: int) -> Seq<
    VisibleFace,
>
    decreases n,
{
    if n <= 0 {
        Seq::empty()
    } else if shows(chunk, n - 1) {
        faces_before(chunk, library, n - 1) + faces_of_block(chunk, library, n - 1, 6)
    } else {
        faces_before(chunk, library, n - 1)
    }
}

/// The library describes every block of the chunk whose faces may show, and
/// every texture of such a block.
pub open spec fn describes(library: BlockLibraryView, chunk: ChunkView) -> bool {
    forall|i: int|
        0 <= i < chunk.voxels.len() && #[trigger] shows(chunk, i) ==> {
            let id = chunk.voxels[i] as int;
            &&& id < library.blocks.len()
            &&& forall|k: int|
                0 <= k < 6 ==> (#[trigger] library.blocks[id].texture_ids@[k]) < library.textures.len()
        }
}

/// Tells whether the library describes every block of the chunk whose faces
/// may show, and every texture of such a block.
pub fn library_describes(block_library: &BlockLibrary, chunk: &Chunk) -> (described: bool)
    requires
        chunk.wf(),
    ensures
        described == describes(block_library@, chunk@),
{
    if chunk.is_empty() {
        return true;
    }
    let extent = chunk.extent();
    let sub_extent = Extent3 {
        min: extent.min.offset(CHUNK_PADDING, CHUNK_PADDING, CHUNK_PADDING),
        max: extent.max.offset(-CHUNK_PADDING, -CHUNK_PADDING, -CHUNK_PADDING),
    };
    let blocks = block_library.block_count();
    let textures = block_library.block_texture_count();
    let mut i: usize = 0;
    while i < CHUNK_STORAGE_SIZE
        invariant
            chunk.wf(),
            !chunk.empty(),
            i <= CHUNK_STORAGE_SIZE,
            extent == extent_of(chunk.pos),
            sub_extent.min == (Pos {
                x: (extent.min.x + 1) as i32,
                y: (extent.min.y + 1) as i32,
                z: (extent.min.z + 1) as i32,
            }),
            sub_extent.max == (Pos {
                x: (extent.max.x - 1) as i32,
                y: (extent.max.y - 1) as i32,
                z: (extent.max.z - 1) as i32,
            }),
            blocks == block_library@.blocks.len(),
            textures == block_library@.textures.len(),
            forall|j: int|
                0 <= j < i && #[trigger] shows(chunk@, j) ==> {
                    let id = chunk@.voxels[j] as int;
                    &&& id < block_library@.blocks.len()
                    &&& forall|k: int|
                        0 <= k < 6 ==> (#[trigger] block_library@.blocks[id].texture_ids@[k])
                            < block_library@.textures.len()
                },
        decreases CHUNK_STORAGE_SIZE - i,
    {
        let v = chunk.voxels[i];
        if v != Block::AIR && sub_extent.contains_point(chunk.index_to_pos(i)) {
            assert(shows(chunk@, i as int));
            if v as usize >= blocks {
                return false;
            }
            let block = block_library.get_block(v as usize);
            let mut k: usize = 0;
            while k < 6
                invariant
                    k <= 6,
                    i < chunk@.voxels.len(),
                    shows(chunk@, i as int),
                    v == chunk@.voxels[i as int],
                    v < block_library@.blocks.len(),
                    textures == block_library@.textures.len(),
                    *block == block_library@.blocks[v as int],
                    forall|j: int| 0 <= j < k ==> (#[trigger] block.texture_ids@[j]) < textures,
                decreases 6 - k,
            {
                if block.texture_ids[k] as usize >= textures {
                    proof {
                        let id = chunk@.voxels[i as int] as int;
                        assert(!(block_library@.blocks[id].texture_ids@[k as int]
                            < block_library@.textures.len()));
                    }
                    return false;
                }
                k += 1;
            }
        }
        i += 1;
    }
    true
}

/// The vertex indices of `n` faces.
pub open spec fn face_indices(n: int) -> Seq<u32> {
    Seq::new(
        (6 * n) as nat,
        |j: int|
            {
                let corner: int = if j % 6 == 0 || j % 6 == 5 {
                    0
                } else if j % 6 == 1 {
                    1
                } else if j % 6 == 4 {
                    3
                } else {
                    2
                };
                (4 * (j / 6) + corner) as u32
            },
    )
}

/// No face shows of the blocks at the indices from `lo` on, if none of them
/// is a block whose faces may show.
proof fn lemma_faces_unchanged(chunk: ChunkView, library: BlockLibraryView, lo: int, hi: int)
    requires
        0 <= lo <= hi,
        forall|i: int| lo <= i < hi ==> !#[trigger] shows(chunk, i),
    ensures
        faces_before(chunk, library, hi) == faces_before(chunk, library, lo),
    decreases hi - lo,
{
    if lo < hi {
        assert(!shows(chunk, hi - 1));
        lemma_faces_unchanged(chunk, library, lo, hi - 1);
    }
}

/// Appends the vertex indices of one more face to those of `n` faces.
fn push_indices(list: &mut Vec<u32>, n: usize)
    requires
        4 * n + 3 <= u32::MAX,
        old(list)@ == face_indices(n as int),
    ensures
        final(list)@ == face_indices(n + 1),
{
    let vert_count: u32 = (n * 4) as u32;
    let six = indices(vert_count);
    let mut k: usize = 0;
    while k < 6
        invariant
            k <= 6,
            vert_count == 4 * n,
            six@ == seq![
                vert_count,
                (vert_count + 1) as u32,
                (vert_count + 2) as u32,
                (vert_count + 2) as u32,
                (vert_count + 3) as u32,
                vert_count,
            ],
            list@.len() == 6 * n + k,
            forall|j: int| 0 <= j < 6 * n + k ==> list@[j] == face_indices(n + 1)[j],
        decreases 6 - k,
    {
        list.push(six[k]);
        k += 1;
    }
    assert(list@ =~= face_indices(n + 1));
}

/// The face of a block that is examined at place `k`.
fn side(k: usize) -> (side: usize)
    requires
        k < 6,
    ensures
        side == side_at(k as int),
        side < 6,
{
    if k == 0 {
        Block::LEFT
    } else if k == 1 {
        Block::BACK
    } else if k == 2 {
        Block::BOTTOM
    } else if k == 3 {
        Block::TOP
    } else if k == 4 {
        Block::FRONT
    } else {
        Block::RIGHT
    }
}

/// The index of the voxel beyond face `k` of the block at index `i`.
fn neighbor_index(i: usize, k: usize) -> (j: usize)
    requires
        k < 6,
        CHUNK_LAYER_SIZE_WITH_PADDING <= i,
        i + CHUNK_LAYER_SIZE_WITH_PADDING < CHUNK_STORAGE_SIZE,
    ensures
        j == i + side_stride(k as int),
        j < CHUNK_STORAGE_SIZE,
{
    if k == 0 {
        i - CHUNK_LAYER_SIZE_WITH_PADDING as usize
    } else if k == 1 {
        i - CHUNK_SIZE_WITH_PADDING as usize
    } else if k == 2 {
        i - 1
    } else if k == 3 {
        i + 1
    } else if k == 4 {
        i + CHUNK_SIZE_WITH_PADDING as usize
    } else {
        i + CHUNK_LAYER_SIZE_WITH_PADDING as usize
    }
}

/// Appends to the mesh the faces that show of the block at index `i`.
fn mesh_block(chunk: &Chunk, block_library: &BlockLibrary, i: usize, mesh: &mut CulledMesh)
    requires
        chunk.wf(),
        !chunk.empty(),
        describes(block_library@, chunk@),
        i < CHUNK_STORAGE_SIZE,
        shows(chunk@, i as int),
        old(mesh).faces@.len() <= 6 * i,
        old(mesh).indices@ == face_indices(old(mesh).faces@.len() as int),
    ensures
        final(mesh).faces@ == old(mesh).faces@ + faces_of_block(
            chunk@,
            block_library@,
            i as int,
            6,
        ),
        final(mesh).faces@.len() <= 6 * (i + 1),
        final(mesh).indices@ == face_indices(final(mesh).faces@.len() as int),
{
    let extent = chunk.extent();
    let block_pos = chunk.index_to_pos(i);
    let block = block_library.get_block(chunk.voxels[i] as usize);
    let local_block_pos = Pos {
        x: block_pos.x - extent.min.x - CHUNK_PADDING,
        y: block_pos.y - extent.min.y - CHUNK_PADDING,
        z: block_pos.z - extent.min.z - CHUNK_PADDING,
    };
    proof {
        lemma_position_of_index(chunk.pos, i as int);
        assert(old(mesh).faces@ =~= old(mesh).faces@ + faces_of_block(
            chunk@,
            block_library@,
            i as int,
            0,
        ));
    }
    let mut k: usize = 0;
    while k < 6
        invariant
            k <= 6,
            chunk.wf(),
            !chunk.empty(),
            describes(block_library@, chunk@),
            shows(chunk@, i as int),
            CHUNK_LAYER_SIZE_WITH_PADDING <= i,
            i + CHUNK_LAYER_SIZE_WITH_PADDING < CHUNK_STORAGE_SIZE,
            *block == block_library@.blocks[chunk.voxels@[i as int] as int],
            local_block_pos == face_of(chunk@, block_library@, i as int, 0).block_pos,
            old(mesh).faces@.len() <= 6 * i,
            mesh.faces@ == old(mesh).faces@ + faces_of_block(
                chunk@,
                block_library@,
                i as int,
                k as int,
            ),
            mesh.faces@.len() <= old(mesh).faces@.len() + k,
            mesh.indices@ == face_indices(mesh.faces@.len() as int),
        decreases 6 - k,
    {
        let neighbor = chunk.voxels[neighbor_index(i, k)];
        let ghost before = mesh.faces@;
        if is_face_visible(&neighbor) {
            let tex_id = block.texture_ids[side(k)];
            assert(tex_id == block.texture_ids@[side_at(k as int) as int]);
            push_indices(&mut mesh.indices, mesh.faces.len());
            mesh.faces.push(
                VisibleFace {
                    block_pos: local_block_pos,
                    side: side(k),
                    tex_id,
                    rand_rot: block_library.get_block_texture(tex_id).rand_rot,
                },
            );
        }
        assert(mesh.faces@ =~= old(mesh).faces@ + faces_of_block(
            chunk@,
            block_library@,
            i as int,
            k + 1,
        ));
        k += 1;
    }
}

/// Lists the faces of the chunk that show: for every block that is not air
/// and not in the padding, in the order of the buffer, those of its faces
/// beyond which there is air. Gives nothing for a chunk without buffer and
/// for one of which no face shows.
pub fn generate_mesh_culled(chunk: &Chunk, block_library: &BlockLibrary) -> (mesh: Option<
    CulledMesh,
>)
    requires
        chunk.wf(),
        describes(block_library@, chunk@),
    ensures
        mesh is Some <==> !chunk.empty() && faces_before(
            chunk@,
            block_library@,
            CHUNK_STORAGE_SIZE as int,
        ).len() > 0,
        mesh matches Some(m) ==> m.faces@ == faces_before(
            chunk@,
            block_library@,
            CHUNK_STORAGE_SIZE as int,
        ) && m.indices@ == face_indices(m.faces@.len() as int),
{
    if chunk.is_empty() {
        return None;
    }
    let mut mesh = CulledMesh { faces: Vec::new(), indices: Vec::new() };
    let extent = chunk.extent();
    let sub_extent = Extent3 {
        min: extent.min.offset(CHUNK_PADDING, CHUNK_PADDING, CHUNK_PADDING),
        max: extent.max.offset(-CHUNK_PADDING, -CHUNK_PADDING, -CHUNK_PADDING),
    };
    let start_index = chunk.block_index(sub_extent.min);
    let end_index = chunk.block_index(sub_extent.max) + 1;
    let ghost view = chunk@;
    let ghost library = block_library@;
    proof {
        assert forall|i: int| 0 <= i < start_index implies !#[trigger] shows(view, i) by {
            lemma_position_of_index(view.pos, i);
        }
        lemma_faces_unchanged(view, library, 0, start_index as int);
        assert(faces_before(view, library, 0) =~= Seq::<VisibleFace>::empty());
        assert(face_indices(0) =~= Seq::<u32>::empty());
    }
    let mut i: usize = start_index;
    while i < end_index
        invariant
            chunk.wf(),
            !chunk.empty(),
            view == chunk@,
            library == block_library@,
            describes(library, view),
            extent == extent_of(chunk.pos),
            sub_extent.min == (Pos {
                x: (extent.min.x + 1) as i32,
                y: (extent.min.y + 1) as i32,
                z: (extent.min.z + 1) as i32,
            }),
            sub_extent.max == (Pos {
                x: (extent.max.x - 1) as i32,
                y: (extent.max.y - 1) as i32,
                z: (extent.max.z - 1) as i32,
            }),
            start_index <= i <= end_index <= CHUNK_STORAGE_SIZE,
            mesh.faces@ == faces_before(view, library, i as int),
            mesh.faces@.len() <= 6 * i,
            mesh.indices@ == face_indices(mesh.faces@.len() as int),
        decreases end_index - i,
    {
        let v = chunk.voxels[i];
        let block_pos = chunk.index_to_pos(i);
        if v != Block::AIR && sub_extent.contains_point(block_pos) {
            assert(shows(view, i as int));
            mesh_block(chunk, block_library, i, &mut mesh);
        } else {
            assert(!shows(view, i as int));
        }
        i += 1;
    }
    proof {
        assert forall|k: int| end_index <= k < CHUNK_STORAGE_SIZE implies !#[trigger] shows(
            view,
            k,
        ) by {
            lemma_position_of_index(view.pos, k);
        }
        lemma_faces_unchanged(view, library, end_index as int, CHUNK_STORAGE_SIZE as int);
    }
    if mesh.faces.len() == 0 {
        return None;
    }
    Some(mesh)
}

} // verus!
