//! The steps of one tick, in the order in which a scheduler runs them:
//! visibility and eviction, generation, then the results of decompression
//! and compression.
//!
//! Each step takes what has arrived since the last tick and hands back the
//! work that is to be done elsewhere.

use vstd::prelude::*;
use crate::chunk::{Chunk, ChunkView};
use crate::chunk_map::{
    windows_of,
    views_of,
    ChunkMap,
    ChunkMapView,
    CompressionJob,
    PipelineStep,
};
use crate::chunk_viewer::ChunkViewer;
use crate::compressed_chunk::{CompressedChunkView, Lz4CompressedChunk};
use crate::math::Pos;

verus! {

/// What a pass of generation leaves to be done elsewhere.
pub struct GenerationWork {
    /// The coordinates for which a chunk is to be generated.
    pub generate: Vec<Pos>,
    /// The freshly stored chunks that are to be compressed.
    pub compress: Vec<CompressionJob>,
}

/// What the registry holds after the results of generation jobs were stored
/// one after the other.
pub open spec fn after_all_generated(map: ChunkMapView, chunks: Seq<ChunkView>) -> ChunkMapView
    decreases chunks.len(),
{
    if chunks.len() == 0 {
        map
    } else {
        after_all_generated(map.after_generated(chunks[0]), chunks.drop_first())
    }
}

/// What the registry holds after the results of compression jobs were stored
/// one after the other.
pub open spec fn after_all_compressed(map: ChunkMapView, chunks: Seq<CompressedChunkView>) -> ChunkMapView
    decreases chunks.len(),
{
    if chunks.len() == 0 {
        map
    } else {
        after_all_compressed(map.after_compressed(chunks[0]), chunks.drop_first())
    }
}

/// The views of a sequence of compressed chunks.
pub open spec fn compressed_views_of(s: Seq<Lz4CompressedChunk>) -> Seq<CompressedChunkView> {
    Seq::new(s.len(), |i: int| s[i]@)
}

/// Recomputes the visible set from the viewers' windows and evicts what
/// lies outside it, if some viewer has moved.
pub fn update_visible_chunks(chunk_map: &mut ChunkMap, moved: bool, viewers: &Vec<ChunkViewer>)
    requires
        old(chunk_map).wf(),
    ensures
        final(chunk_map).wf(),
        final(chunk_map)@ == (if moved {
            old(chunk_map)@.after(PipelineStep::Visible(windows_of(viewers@))).after(
                PipelineStep::Evict,
            )
        } else {
            old(chunk_map)@
        }),
{
    if moved {
        chunk_map.update_visible_chunks(viewers);
    }
}

/// Reacts to a change of the block library: every visible chunk has to be
/// meshed again.
pub fn update_block_library(changed: bool, chunk_map: &mut ChunkMap)
    requires
        old(chunk_map).wf(),
    ensures
        final(chunk_map).wf(),
        final(chunk_map)@ == (if changed {
            ChunkMapView { dirty: old(chunk_map)@.visible, ..old(chunk_map)@ }
        } else {
            old(chunk_map)@
        }),
{
    if !changed {
        return ;
    }
    chunk_map.mark_visible_dirty();
}

/// Schedules generation for the visible coordinates for which it is due,
/// then stores the chunks that generation jobs have delivered.
pub fn gen_chunks_system(chunk_map: &mut ChunkMap, generated: Vec<Chunk>) -> (work: GenerationWork)
    requires
        old(chunk_map).wf(),
        forall|i: int| 0 <= i < generated@.len() ==> (#[trigger] generated@[i]).wf(),
    ensures
        final(chunk_map).wf(),
        final(chunk_map)@ == after_all_generated(
            old(chunk_map)@.after(PipelineStep::Schedule),
            views_of(generated@),
        ),
        work.generate@.no_duplicates(),
        work.generate@.to_set() == old(chunk_map)@.unloaded_visible(),
        work.compress@.len() == (if old(chunk_map)@.mesher {
            0
        } else {
            generated@.len()
        }),
        forall|i: int|
            0 <= i < work.compress@.len() ==> {
                let job = #[trigger] work.compress@[i];
                &&& job.chunk@ == generated@[i]@
                &&& job.chunk.wf()
                &&& job.compression_level == old(chunk_map)@.compression_level
                &&& job.order == old(chunk_map)@.order
            },
{
    let generate = chunk_map.schedule_generation();
    let mut compress: Vec<CompressionJob> = Vec::new();
    let ghost scheduled = chunk_map@;
    let ghost all = views_of(generated@);
    let ghost n = generated@.len() as int;
    proof {
        assert(all.subrange(0, n) =~= all);
    }
    for chunk in it: generated
        invariant
            chunk_map.wf(),
            it.seq() == generated@,
            n == generated@.len(),
            all == views_of(generated@),
            forall|k: int| 0 <= k < n ==> (#[trigger] generated@[k]).wf(),
            after_all_generated(chunk_map@, all.subrange(it.index() as int, n)) == after_all_generated(
                scheduled,
                all,
            ),
            chunk_map@.mesher == scheduled.mesher,
            chunk_map@.compression_level == scheduled.compression_level,
            chunk_map@.order == scheduled.order,
            compress@.len() == (if scheduled.mesher {
                0
            } else {
                it.index() as int
            }),
            forall|k: int|
                0 <= k < compress@.len() ==> {
                    let job = #[trigger] compress@[k];
                    &&& job.chunk@ == all[k]
                    &&& job.chunk.wf()
                    &&& job.compression_level == scheduled.compression_level
                    &&& job.order == scheduled.order
                },
    {
        proof {
            let i = it.index() as int;
            assert(chunk == generated@[i]);
            assert(chunk@ == all[i]);
            assert(all.subrange(i, n).drop_first() =~= all.subrange(i + 1, n));
            assert(all.subrange(i, n)[0] == all[i]);
        }
        match chunk_map.store_generated(chunk) {
            Some(job) => {
                compress.push(job);
            },
            None => {},
        }
    }
    proof {
        assert(all.subrange(n, n) =~= Seq::<ChunkView>::empty());
    }
    GenerationWork { generate, compress }
}

/// Stores the decompression results that wait in the registry's queue, then
/// the compressed chunks that compression jobs have delivered.
pub fn store_decompressed_compressed_chunks(
    chunk_map: &mut ChunkMap,
    compressed: Vec<Lz4CompressedChunk>,
)
    requires
        old(chunk_map).wf(),
    ensures
        final(chunk_map).wf(),
        final(chunk_map)@ == after_all_compressed(
            old(chunk_map)@.after(PipelineStep::StoreDecompressed),
            compressed_views_of(compressed@),
        ),
{
    chunk_map.store_decompressed();
    let ghost stored = chunk_map@;
    let ghost all = compressed_views_of(compressed@);
    let ghost n = compressed@.len() as int;
    proof {
        assert(all.subrange(0, n) =~= all);
    }
    for chunk in it: compressed
        invariant
            chunk_map.wf(),
            it.seq() == compressed@,
            n == compressed@.len(),
            all == compressed_views_of(compressed@),
            after_all_compressed(chunk_map@, all.subrange(it.index() as int, n))
                == after_all_compressed(stored, all),
    {
        proof {
            let i = it.index() as int;
            assert(chunk == compressed@[i]);
            assert(chunk@ == all[i]);
            assert(all.subrange(i, n).drop_first() =~= all.subrange(i + 1, n));
            assert(all.subrange(i, n)[0] == all[i]);
        }
        chunk_map.store_compressed(chunk);
    }
    proof {
        assert(all.subrange(n, n) =~= Seq::<CompressedChunkView>::empty());
    }
}

} // verus!
