//! Terrain from a height field.
//!
//! The ground of a chunk is solid below the height that a height function
//! gives for each column, and air from there on. Chunks that lie wholly above
//! or wholly below every height that the function can give are not sampled.

use vstd::prelude::*;
use crate::chunk::{chunk_coord_in_range, extent_of, in_area, Chunk, ChunkView, Voxel};
use crate::math::Pos;

verus! {

/// No height is greater than this, and none is less than its negative.
pub const NOISE_FACTOR: i32 = 20;

/// The voxel of the ground.
pub const GROUND: Voxel = 1;

/// The voxel above the ground.
pub const SKY: Voxel = 0;

/// In the column at `(x, z)` the chunk is ground below the height `h` and
/// sky from there on.
pub open spec fn column_filled(chunk: ChunkView, x: i32, z: i32, h: int) -> bool {
    forall|y: i32|
        extent_of(chunk.pos).min.y <= y <= extent_of(chunk.pos).max.y ==> #[trigger] chunk.voxel_at(
            Pos { x, y, z },
        ) == (if y < h {
            GROUND
        } else {
            SKY
        })
}

/// The chunk has a column at `(x, z)`.
pub open spec fn has_column(coord: Pos, x: i32, z: i32) -> bool {
    &&& extent_of(coord).min.x <= x <= extent_of(coord).max.x
    &&& extent_of(coord).min.z <= z <= extent_of(coord).max.z
}

/// While a chunk is generated layer by layer, the column at `(x, z)` has been
/// generated once the generation stands at `(at_x, at_z)`.
spec fn column_done(coord: Pos, x: i32, z: i32, at_x: int, at_z: int) -> bool {
    has_column(coord, x, z) && (z < at_z || (z == at_z && x < at_x))
}

/// The chunk at `pos` of the terrain whose height at each column `(x, z)` is
/// `height(x, z)`.
pub fn generate_chunk(pos: &Pos, height: impl Fn(i32, i32) -> i32) -> (chunk: Chunk)
    requires
        chunk_coord_in_range(*pos),
        forall|x: i32, z: i32| call_requires(height, (x, z)),
    ensures
        chunk.wf(),
        chunk.pos == *pos,
        extent_of(*pos).min.y > NOISE_FACTOR ==> chunk.empty() && chunk.ambient_voxel == SKY,
        extent_of(*pos).max.y + 1 < -NOISE_FACTOR ==> chunk.empty() && chunk.ambient_voxel
            == GROUND,
        -NOISE_FACTOR <= extent_of(*pos).max.y + 1 && extent_of(*pos).min.y <= NOISE_FACTOR
            ==> chunk.ambient_voxel == SKY && forall|x: i32, z: i32| #[trigger]
            has_column(*pos, x, z) ==> exists|h: i32|
                call_ensures(height, (x, z), h) && column_filled(chunk@, x, z, h as int),
{
    let mut chunk = Chunk::new(*pos, SKY);
    let extent = chunk.extent();
    // The extent's greatest corner belongs to it; the loops below stop before theirs.
    let max = Pos { x: extent.max.x + 1, y: extent.max.y + 1, z: extent.max.z + 1 };
    if extent.min.y > NOISE_FACTOR {
        return chunk;
    }
    if max.y < -NOISE_FACTOR {
        chunk = Chunk::new(*pos, GROUND);
        return chunk;
    }
    let ghost mut heights: Map<(i32, i32), i32> = Map::empty();
    let mut z: i32 = extent.min.z;
    while z < max.z
        invariant
            chunk_coord_in_range(*pos),
            forall|x: i32, z: i32| call_requires(height, (x, z)),
            extent == extent_of(*pos),
            max == (Pos { x: (extent.max.x + 1) as i32, y: (extent.max.y + 1) as i32, z: (extent.max.z + 1) as i32 }),
            chunk.wf(),
            chunk.pos == *pos,
            chunk.ambient_voxel == SKY,
            extent.min.z <= z <= max.z,
            forall|cx: i32, cz: i32| #[trigger]
                column_done(*pos, cx, cz, extent.min.x as int, z as int) ==> heights.contains_key(
                    (cx, cz),
                ) && call_ensures(height, (cx, cz), heights[(cx, cz)]) && column_filled(
                    chunk@,
                    cx,
                    cz,
                    heights[(cx, cz)] as int,
                ),
            forall|q: Pos|
                extent.contains(q) && !column_done(*pos, q.x, q.z, extent.min.x as int, z as int)
                    ==> #[trigger] chunk@.voxel_at(q) == SKY,
        decreases max.z - z,
    {
        let mut x: i32 = extent.min.x;
        while x < max.x
            invariant
                chunk_coord_in_range(*pos),
                forall|x: i32, z: i32| call_requires(height, (x, z)),
                extent == extent_of(*pos),
                max == (Pos { x: (extent.max.x + 1) as i32, y: (extent.max.y + 1) as i32, z: (extent.max.z + 1) as i32 }),
                chunk.wf(),
                chunk.pos == *pos,
                chunk.ambient_voxel == SKY,
                extent.min.z <= z < max.z,
                extent.min.x <= x <= max.x,
                forall|cx: i32, cz: i32| #[trigger]
                    column_done(*pos, cx, cz, x as int, z as int) ==> heights.contains_key(
                        (cx, cz),
                    ) && call_ensures(height, (cx, cz), heights[(cx, cz)]) && column_filled(
                        chunk@,
                        cx,
                        cz,
                        heights[(cx, cz)] as int,
                    ),
                forall|q: Pos|
                    extent.contains(q) && !column_done(*pos, q.x, q.z, x as int, z as int)
                        ==> #[trigger] chunk@.voxel_at(q) == SKY,
            decreases max.x - x,
        {
            let h = height(x, z);
            let ghost before = chunk@;
            let ghost known = heights;
            let mut top: i32 = h;
            if h > extent.min.y {
                if h > max.y {
                    top = max.y;
                }
                chunk.fill_area(
                    GROUND,
                    Pos { x, y: extent.min.y, z },
                    Pos { x: x + 1, y: top, z: z + 1 },
                );
            }
            proof {
                heights = heights.insert((x, z), h);
                let lo = Pos { x, y: extent.min.y, z };
                let hi = Pos { x: (x + 1) as i32, y: top, z: (z + 1) as i32 };
                assert forall|q: Pos| extent.contains(q) implies #[trigger] chunk@.voxel_at(q) == (
                if h > extent.min.y && in_area(q, lo, hi) {
                    GROUND
                } else {
                    before.voxel_at(q)
                }) by {}
                assert forall|cx: i32, cz: i32| #[trigger]
                    column_done(*pos, cx, cz, x + 1, z as int) implies heights.contains_key(
                    (cx, cz),
                ) && call_ensures(height, (cx, cz), heights[(cx, cz)]) && column_filled(
                    chunk@,
                    cx,
                    cz,
                    heights[(cx, cz)] as int,
                ) by {
                    if cx == x && cz == z {
                        assert forall|y: i32|
                            extent.min.y <= y <= extent.max.y implies #[trigger] chunk@.voxel_at(
                            Pos { x: cx, y, z: cz },
                        ) == (if y < h {
                            GROUND
                        } else {
                            SKY
                        }) by {
                            let q = Pos { x: cx, y, z: cz };
                            assert(extent.contains(q));
                            assert(!column_done(*pos, q.x, q.z, x as int, z as int));
                            assert(before.voxel_at(q) == SKY);
                        }
                    } else {
                        assert(column_done(*pos, cx, cz, x as int, z as int));
                        assert(column_filled(before, cx, cz, known[(cx, cz)] as int));
                        assert forall|y: i32|
                            extent.min.y <= y <= extent.max.y implies #[trigger] chunk@.voxel_at(
                            Pos { x: cx, y, z: cz },
                        ) == (if y < known[(cx, cz)] {
                            GROUND
                        } else {
                            SKY
                        }) by {
                            let q = Pos { x: cx, y, z: cz };
                            assert(extent.contains(q));
                            assert(before.voxel_at(q) == (if y < known[(cx, cz)] {
                                GROUND
                            } else {
                                SKY
                            }));
                        }
                    }
                }
                assert forall|q: Pos|
                    extent.contains(q) && !column_done(
                        *pos,
                        q.x,
                        q.z,
                        x + 1,
                        z as int,
                    ) implies #[trigger] chunk@.voxel_at(q) == SKY by {
                    assert(!column_done(*pos, q.x, q.z, x as int, z as int));
                    assert(before.voxel_at(q) == SKY);
                }
            }
            x += 1;
        }
        proof {
            assert forall|cx: i32, cz: i32| #[trigger]
                column_done(*pos, cx, cz, extent.min.x as int, z + 1) implies column_done(
                *pos,
                cx,
                cz,
                x as int,
                z as int,
            ) by {}
            assert forall|q: Pos|
                extent.contains(q) && !column_done(
                    *pos,
                    q.x,
                    q.z,
                    extent.min.x as int,
                    z + 1,
                ) implies #[trigger] chunk@.voxel_at(q) == SKY by {
                assert(!column_done(*pos, q.x, q.z, x as int, z as int));
            }
        }
        z += 1;
    }
    proof {
        assert forall|x: i32, z: i32| #[trigger] has_column(*pos, x, z) implies exists|h: i32|
            call_ensures(height, (x, z), h) && column_filled(chunk@, x, z, h as int) by {
            assert(column_done(*pos, x, z, extent.min.x as int, max.z as int));
            let h = heights[(x, z)];
            assert(call_ensures(height, (x, z), h) && column_filled(chunk@, x, z, h as int));
        }
    }
    chunk
}

} // verus!
