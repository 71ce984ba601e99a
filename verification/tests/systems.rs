use avoxel::chunk::Chunk;
use avoxel::chunk_map::{ChunkMap, ChunkState};
use avoxel::chunk_viewer::{chunk_viewer_moved, ChunkViewer};
use avoxel::generator::generate_chunk;
use avoxel::math::Pos;
use avoxel::systems::{gen_chunks_system, store_decompressed_compressed_chunks, update_visible_chunks};

fn terrain(coord: &Pos) -> Chunk {
    generate_chunk(coord, |x: i32, z: i32| -> i32 { (x + z).rem_euclid(7) })
}

#[test]
fn the_visible_set_changes_only_when_a_viewer_moved() {
    let mut map = ChunkMap::new(true, false);
    let viewers = vec![ChunkViewer::new(1, Pos::new(0, 0, 0))];
    update_visible_chunks(&mut map, false, &viewers);
    assert!(map.visible_chunks().is_empty());
    update_visible_chunks(&mut map, true, &viewers);
    assert_eq!(map.visible_chunks().len(), 8);
}

#[test]
fn generation_is_scheduled_before_results_are_stored() {
    let mut map = ChunkMap::new(true, false);
    let viewers = vec![ChunkViewer::new(1, Pos::new(0, 0, 0))];
    update_visible_chunks(&mut map, true, &viewers);
    let work = gen_chunks_system(&mut map, Vec::new());
    assert_eq!(work.generate.len(), 8);
    assert!(work.compress.is_empty());
    let generated: Vec<Chunk> = work.generate.iter().map(terrain).collect();
    let expected: Vec<Pos> = generated.iter().map(|c| c.pos).collect();
    let work = gen_chunks_system(&mut map, generated);
    assert!(work.generate.is_empty());
    // Nothing is meshed: every stored chunk is to be compressed, in the order of arrival.
    let jobs: Vec<Pos> = work.compress.iter().map(|j| j.chunk.pos).collect();
    assert_eq!(jobs, expected);
    for coord in &expected {
        assert!(map.is_resident(coord));
        assert_eq!(map.chunk_state(coord), ChunkState::Loaded);
    }
}

#[test]
fn generated_chunks_are_dirty_and_not_compressed_where_chunks_are_meshed() {
    let mut map = ChunkMap::new(true, true);
    let generated = vec![terrain(&Pos::new(0, 0, 0)), terrain(&Pos::new(1, 0, 0))];
    let work = gen_chunks_system(&mut map, generated);
    assert!(work.compress.is_empty());
    assert!(map.is_dirty(&Pos::new(0, 0, 0)));
    assert!(map.is_dirty(&Pos::new(1, 0, 0)));
}

#[test]
fn a_later_generation_result_replaces_an_earlier_one() {
    let mut map = ChunkMap::new(true, false);
    let origin = Pos::new(0, 0, 0);
    let first = Chunk::new(origin, 5);
    let second = Chunk::new(origin, 6);
    gen_chunks_system(&mut map, vec![first, second]);
    assert_eq!(map.get_voxel(&Pos::new(1, 1, 1)), Some(6));
}

#[test]
fn decompression_results_are_stored_before_compression_results() {
    let mut map = ChunkMap::new(true, false);
    let origin = Pos::new(0, 0, 0);
    let work = gen_chunks_system(&mut map, vec![terrain(&origin)]);
    let compressed: Vec<_> = work.compress.iter().map(|job| job.run().unwrap()).collect();
    store_decompressed_compressed_chunks(&mut map, compressed);
    assert!(map.is_compressed(&origin));
    // A read queues a decompression result ...
    assert_eq!(map.get_voxel(&Pos::new(3, 0, 3)), Some(1));
    assert_eq!(map.pending_decompressed(), 1);
    // ... which the next tick stores, before it stores a compression result
    // for the same coordinate, which then stands.
    let again = map.get_chunk(&origin).unwrap().compress(10, true).unwrap();
    store_decompressed_compressed_chunks(&mut map, vec![again]);
    assert_eq!(map.pending_decompressed(), 0);
    assert!(map.is_compressed(&origin));
    assert!(!map.is_resident(&origin));
    store_decompressed_compressed_chunks(&mut map, Vec::new());
    assert!(map.is_compressed(&origin));
    map.get_voxel(&Pos::new(0, 0, 0));
    store_decompressed_compressed_chunks(&mut map, Vec::new());
    assert!(map.is_resident(&origin));
}

#[test]
fn a_tick_after_a_viewer_moved() {
    let mut map = ChunkMap::new(false, false);
    let mut viewers = vec![ChunkViewer::new(1, Pos::new(0, 0, 0))];
    let mut generated: Vec<Chunk> = Vec::new();
    let mut compressed = Vec::new();
    for tick in 0..4 {
        if tick == 2 {
            viewers[0].set_translation(Pos::new(0, 64, 0));
        }
        let moved = chunk_viewer_moved(&mut viewers);
        assert_eq!(moved, tick == 0 || tick == 2);
        update_visible_chunks(&mut map, moved, &viewers);
        let work = gen_chunks_system(&mut map, generated);
        generated = work.generate.iter().map(terrain).collect();
        store_decompressed_compressed_chunks(&mut map, compressed);
        compressed = work.compress.iter().map(|job| job.run().unwrap()).collect();
        for coord in map.chunk_keys() {
            assert!(!(map.is_resident(&coord) && map.is_compressed(&coord)));
        }
    }
    // The window now spans y = 0 and y = 1. Results that arrived for
    // coordinates that had left it stay until the next eviction.
    assert!(map.is_compressed(&Pos::new(0, -1, 0)));
    map.evict();
    assert!(!map.contains_chunk(&Pos::new(0, -1, 0)));
    assert!(map.contains_chunk(&Pos::new(0, 0, 0)));
    assert!(map.contains_chunk(&Pos::new(-1, 1, -1)));
    assert_eq!(map.chunk_keys().len(), 8);
    assert_eq!(map.get_voxel(&Pos::new(3, 0, 3)), Some(1));
    assert_eq!(map.get_voxel(&Pos::new(3, 6, 3)), Some(0));
}
