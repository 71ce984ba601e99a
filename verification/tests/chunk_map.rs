use avoxel::chunk::{Chunk, CHUNK_STORAGE_SIZE};
use avoxel::chunk_map::{chunks_sharing, ChunkMap, ChunkState};
use avoxel::chunk_viewer::ChunkViewer;
use avoxel::math::Pos;
use avoxel::systems::update_block_library;

fn ground(coord: Pos) -> Chunk {
    let mut chunk = Chunk::new(coord, 0);
    let e = chunk.extent();
    chunk.fill_area(
        1,
        e.min,
        Pos::new(e.max.x + 1, e.min.y + 10, e.max.z + 1),
    );
    chunk
}

/// A registry with one viewer at the origin, every chunk of its window
/// generated and resident.
fn loaded(byteorder: bool, mesher: bool) -> (ChunkMap, Vec<ChunkViewer>) {
    let mut map = ChunkMap::new(byteorder, mesher);
    let viewers = vec![ChunkViewer::new(1, Pos::new(0, 0, 0))];
    map.update_visible_chunks(&viewers);
    for coord in map.schedule_generation() {
        map.store_generated(ground(coord));
    }
    (map, viewers)
}

fn compress(map: &mut ChunkMap, coord: Pos) {
    let job = map.compress_chunk(coord).unwrap();
    map.store_compressed(job.run().unwrap());
}

fn assert_never_both(map: &ChunkMap) {
    for x in -3..3 {
        for y in -3..3 {
            for z in -3..3 {
                let p = Pos::new(x, y, z);
                assert!(!(map.is_resident(&p) && map.is_compressed(&p)));
                assert_eq!(map.contains_chunk(&p), map.is_resident(&p) || map.is_compressed(&p));
            }
        }
    }
}

#[test]
fn a_new_registry_is_empty() {
    let map = ChunkMap::new(true, false);
    assert!(map.get_byteorder());
    assert!(map.chunk_keys().is_empty());
    assert!(map.visible_chunks().is_empty());
    assert!(map.dirty_chunks().is_empty());
    assert_eq!(map.pending_decompressed(), 0);
    assert!(!map.contains_chunk(&Pos::new(0, 0, 0)));
    assert_eq!(map.chunk_state(&Pos::new(0, 0, 0)), ChunkState::Unloaded);
    let map = ChunkMap::default();
    assert!(!map.get_byteorder());
    assert!(map.chunk_keys().is_empty());
}

#[test]
fn the_byte_order_mode_can_change_while_nothing_is_compressed() {
    let mut map = ChunkMap::new(false, false);
    assert!(!map.has_compressed_chunks());
    map.set_byteorder(true);
    assert!(map.get_byteorder());
    map.set_byteorder(false);
    assert!(!map.get_byteorder());
    map.store_generated(ground(Pos::new(0, 0, 0)));
    assert!(!map.has_compressed_chunks());
    compress(&mut map, Pos::new(0, 0, 0));
    assert!(map.has_compressed_chunks());
    map.remove_chunk(&Pos::new(0, 0, 0));
    assert!(!map.has_compressed_chunks());
    map.set_byteorder(true);
    assert!(map.get_byteorder());
}

#[test]
fn the_visible_set_is_the_union_of_the_windows() {
    let mut map = ChunkMap::new(true, false);
    let viewers = vec![
        ChunkViewer::new(1, Pos::new(0, 0, 0)),
        ChunkViewer::new(1, Pos::new(1, 0, 0)),
        ChunkViewer::new(1, Pos::new(10, 10, 10)),
    ];
    map.update_visible_chunks(&viewers);
    let visible = map.visible_chunks();
    // Two windows of eight share four chunks; the third is apart.
    assert_eq!(visible.len(), 8 + 4 + 8);
    assert!(map.is_visible(&Pos::new(-1, -1, -1)));
    assert!(map.is_visible(&Pos::new(1, 0, 0)));
    assert!(map.is_visible(&Pos::new(9, 9, 9)));
    assert!(!map.is_visible(&Pos::new(2, 0, 0)));
    assert!(!map.is_visible(&Pos::new(5, 5, 5)));
    map.update_visible_chunks(&Vec::new());
    assert!(map.visible_chunks().is_empty());
}

#[test]
fn generation_is_scheduled_once_for_each_visible_coordinate() {
    let mut map = ChunkMap::new(true, false);
    let viewers = vec![ChunkViewer::new(1, Pos::new(0, 0, 0))];
    map.update_visible_chunks(&viewers);
    let mut jobs = map.schedule_generation();
    jobs.sort_by_key(|p| (p.x, p.y, p.z));
    assert_eq!(
        jobs,
        vec![
            Pos::new(-1, -1, -1),
            Pos::new(-1, -1, 0),
            Pos::new(-1, 0, -1),
            Pos::new(-1, 0, 0),
            Pos::new(0, -1, -1),
            Pos::new(0, -1, 0),
            Pos::new(0, 0, -1),
            Pos::new(0, 0, 0),
        ]
    );
    for p in &jobs {
        assert_eq!(map.chunk_state(p), ChunkState::Loading);
    }
    // While the jobs are under way nothing is scheduled again.
    assert!(map.schedule_generation().is_empty());
    map.store_generated(ground(Pos::new(0, 0, 0)));
    assert_eq!(map.chunk_state(&Pos::new(0, 0, 0)), ChunkState::Loaded);
    assert!(map.is_resident(&Pos::new(0, 0, 0)));
    assert!(map.schedule_generation().is_empty());
}

#[test]
fn a_dirty_mark_does_not_keep_a_chunk_from_being_generated() {
    let mut map = ChunkMap::new(true, false);
    let viewers = vec![ChunkViewer::new(1, Pos::new(0, 0, 0))];
    map.update_visible_chunks(&viewers);
    map.make_dirty(&Pos::new(0, 0, 0));
    assert!(map.is_dirty(&Pos::new(0, 0, 0)));
    assert_eq!(map.chunk_state(&Pos::new(0, 0, 0)), ChunkState::Unloaded);
    let jobs = map.schedule_generation();
    assert_eq!(jobs.len(), 8);
    assert!(jobs.contains(&Pos::new(0, 0, 0)));
    assert_eq!(map.chunk_state(&Pos::new(0, 0, 0)), ChunkState::Loading);
}

#[test]
fn every_visible_coordinate_is_generated_after_all_were_marked_dirty() {
    let mut map = ChunkMap::new(true, true);
    let viewers = vec![ChunkViewer::new(1, Pos::new(0, 0, 0))];
    map.update_visible_chunks(&viewers);
    map.mark_visible_dirty();
    assert_eq!(map.dirty_chunks().len(), 8);
    let mut jobs = map.schedule_generation();
    jobs.sort_by_key(|p| (p.x, p.y, p.z));
    let mut visible = map.visible_chunks();
    visible.sort_by_key(|p| (p.x, p.y, p.z));
    assert_eq!(jobs, visible);
    assert!(jobs.contains(&Pos::new(0, 0, 0)));
}

#[test]
fn a_chunk_that_the_registry_has_is_dirty_or_loaded() {
    let mut map = ChunkMap::new(true, false);
    let origin = Pos::new(0, 0, 0);
    map.store_generated(ground(origin));
    assert_eq!(map.chunk_state(&origin), ChunkState::Loaded);
    map.make_dirty(&origin);
    assert_eq!(map.chunk_state(&origin), ChunkState::Dirty);
    compress(&mut map, origin);
    assert_eq!(map.chunk_state(&origin), ChunkState::Dirty);
    map.clear_dirty();
    assert_eq!(map.chunk_state(&origin), ChunkState::Loaded);
    map.make_dirty(&origin);
    map.remove_chunk(&origin);
    assert_eq!(map.chunk_state(&origin), ChunkState::Unloaded);
    map.set_chunk_state_loading(&origin);
    assert_eq!(map.chunk_state(&origin), ChunkState::Loading);
    // Where chunks are meshed, a chunk is dirty as soon as it arrives.
    let mut meshed = ChunkMap::new(true, true);
    meshed.store_generated(ground(origin));
    assert_eq!(meshed.chunk_state(&origin), ChunkState::Dirty);
}

#[test]
fn the_loading_mark_is_set_and_cleared() {
    let mut map = ChunkMap::new(true, false);
    let p = Pos::new(4, 5, 6);
    let q = Pos::new(7, 8, 9);
    map.set_chunk_state_loading(&p);
    map.set_chunk_state_loading(&q);
    map.set_chunk_state_loading(&p);
    assert_eq!(map.chunk_state(&p), ChunkState::Loading);
    assert_eq!(map.chunk_state(&q), ChunkState::Loading);
    map.set_chunk_state_loaded(&p);
    assert_eq!(map.chunk_state(&p), ChunkState::Unloaded);
    assert_eq!(map.chunk_state(&q), ChunkState::Loading);
    map.set_chunk_state_loaded(&p);
    map.set_chunk_state_loaded(&q);
    assert_eq!(map.chunk_state(&q), ChunkState::Unloaded);
}

#[test]
fn a_generated_chunk_is_compressed_where_nothing_is_meshed() {
    let mut map = ChunkMap::new(true, false);
    let job = map.store_generated(ground(Pos::new(0, 0, 0))).unwrap();
    assert_eq!(job.compression_level, 10);
    assert_eq!(job.chunk.pos, Pos::new(0, 0, 0));
    assert!(map.is_resident(&Pos::new(0, 0, 0)));
    assert!(!map.is_dirty(&Pos::new(0, 0, 0)));
    map.store_compressed(job.run().unwrap());
    assert!(map.is_compressed(&Pos::new(0, 0, 0)));
    assert!(!map.is_resident(&Pos::new(0, 0, 0)));
    assert!(map.contains_chunk(&Pos::new(0, 0, 0)));
}

#[test]
fn a_generated_chunk_is_dirty_where_chunks_are_meshed() {
    let mut map = ChunkMap::new(true, true);
    assert!(map.store_generated(ground(Pos::new(0, 0, 0))).is_none());
    assert!(map.is_resident(&Pos::new(0, 0, 0)));
    assert!(map.is_dirty(&Pos::new(0, 0, 0)));
    assert_eq!(map.dirty_chunks(), vec![Pos::new(0, 0, 0)]);
    map.clear_dirty();
    assert!(map.dirty_chunks().is_empty());
    assert!(map.is_resident(&Pos::new(0, 0, 0)));
}

#[test]
fn get_voxel_reads_the_chunk_that_owns_the_position() {
    let (mut map, _) = loaded(true, false);
    // The ground fills the ten lowest layers of each chunk's padded extent.
    assert_eq!(map.get_voxel(&Pos::new(0, 0, 0)), Some(1));
    assert_eq!(map.get_voxel(&Pos::new(0, 8, 0)), Some(1));
    assert_eq!(map.get_voxel(&Pos::new(0, 9, 0)), Some(0));
    assert_eq!(map.get_voxel(&Pos::new(-1, -64, -1)), Some(1));
    assert_eq!(map.get_voxel(&Pos::new(-1, -56, -1)), Some(1));
    assert_eq!(map.get_voxel(&Pos::new(-1, -55, -1)), Some(0));
    assert_eq!(map.get_voxel(&Pos::new(63, 63, 63)), Some(0));
    assert_eq!(map.get_voxel(&Pos::new(64, 0, 0)), None);
    assert_eq!(map.get_voxel(&Pos::new(0, -65, 0)), None);
    assert_eq!(map.pending_decompressed(), 0);
}

#[test]
fn get_voxel_decompresses_without_touching_the_maps() {
    let (mut map, _) = loaded(true, false);
    let origin = Pos::new(0, 0, 0);
    compress(&mut map, origin);
    assert_eq!(map.get_voxel(&Pos::new(1, 2, 3)), Some(1));
    assert!(map.is_compressed(&origin));
    assert!(!map.is_resident(&origin));
    assert_eq!(map.pending_decompressed(), 1);
    // The result that waits answers the next read; nothing is decompressed twice.
    assert_eq!(map.get_voxel(&Pos::new(1, 20, 3)), Some(0));
    assert_eq!(map.pending_decompressed(), 1);
    map.store_decompressed();
    assert_eq!(map.pending_decompressed(), 0);
    assert!(map.is_resident(&origin));
    assert!(!map.is_compressed(&origin));
    assert_eq!(map.get_voxel(&Pos::new(1, 2, 3)), Some(1));
}

#[test]
fn reads_keep_every_result_that_waits() {
    let (mut map, _) = loaded(true, false);
    let a = Pos::new(0, 0, 0);
    let b = Pos::new(-1, 0, 0);
    let c = Pos::new(0, -1, 0);
    for coord in [a, b, c] {
        compress(&mut map, coord);
    }
    assert_eq!(map.get_voxel(&Pos::new(1, 1, 1)), Some(1));
    assert_eq!(map.get_voxel(&Pos::new(-5, 1, 1)), Some(1));
    assert_eq!(map.get_voxel(&Pos::new(1, -5, 1)), Some(0));
    assert_eq!(map.pending_decompressed(), 3);
    for _ in 0..5 {
        assert_eq!(map.get_voxel(&Pos::new(-5, 30, 1)), Some(0));
        assert_eq!(map.get_voxel(&Pos::new(1, 1, 1)), Some(1));
        assert_eq!(map.get_voxel(&Pos::new(1, -60, 1)), Some(1));
        assert_eq!(map.pending_decompressed(), 3);
    }
    map.store_decompressed();
    for coord in [a, b, c] {
        assert!(map.is_resident(&coord));
    }
    assert_never_both(&map);
}

#[test]
fn a_result_for_an_evicted_chunk_is_dropped() {
    let (mut map, _) = loaded(true, false);
    let origin = Pos::new(0, 0, 0);
    compress(&mut map, origin);
    assert_eq!(map.get_voxel(&Pos::new(1, 2, 3)), Some(1));
    assert_eq!(map.pending_decompressed(), 1);
    map.remove_chunk(&origin);
    // The result still answers reads while it waits.
    assert_eq!(map.get_voxel(&Pos::new(1, 2, 3)), Some(1));
    map.store_decompressed();
    assert!(!map.contains_chunk(&origin));
    assert_eq!(map.get_voxel(&Pos::new(1, 2, 3)), None);
}

#[test]
fn clear_channels_drops_the_results_that_wait() {
    let (mut map, _) = loaded(true, false);
    compress(&mut map, Pos::new(0, 0, 0));
    map.get_voxel(&Pos::new(1, 2, 3));
    assert_eq!(map.pending_decompressed(), 1);
    map.clear_channels();
    assert_eq!(map.pending_decompressed(), 0);
    assert!(map.is_compressed(&Pos::new(0, 0, 0)));
}

#[test]
fn remove_chunk_removes_from_either_map() {
    let (mut map, _) = loaded(true, false);
    let a = Pos::new(0, 0, 0);
    let b = Pos::new(-1, 0, 0);
    compress(&mut map, a);
    map.remove_chunk(&a);
    map.remove_chunk(&b);
    assert!(!map.contains_chunk(&a));
    assert!(!map.contains_chunk(&b));
    map.remove_chunk(&a);
    map.remove_chunk(&Pos::new(100, 100, 100));
    assert_eq!(map.chunk_keys().len(), 6);
}

#[test]
fn chunk_keys_lists_resident_and_compressed_chunks() {
    let (mut map, _) = loaded(true, false);
    compress(&mut map, Pos::new(0, 0, 0));
    compress(&mut map, Pos::new(-1, -1, -1));
    let mut keys = map.chunk_keys();
    assert_eq!(keys.len(), 8);
    keys.sort_by_key(|p| (p.x, p.y, p.z));
    keys.dedup();
    assert_eq!(keys.len(), 8);
    assert!(keys.contains(&Pos::new(0, 0, 0)));
    assert!(keys.contains(&Pos::new(-1, -1, -1)));
    assert!(keys.contains(&Pos::new(-1, 0, 0)));
}

#[test]
fn the_chunks_that_share_a_position() {
    assert_eq!(chunks_sharing(&Pos::new(5, 5, 5)), vec![Pos::new(0, 0, 0)]);
    assert_eq!(chunks_sharing(&Pos::new(0, 5, 5)), vec![Pos::new(0, 0, 0), Pos::new(-1, 0, 0)]);
    assert_eq!(chunks_sharing(&Pos::new(63, 5, 5)), vec![Pos::new(0, 0, 0), Pos::new(1, 0, 0)]);
    assert_eq!(chunks_sharing(&Pos::new(-1, 5, 5)), vec![Pos::new(-1, 0, 0), Pos::new(0, 0, 0)]);
    assert_eq!(chunks_sharing(&Pos::new(-64, 5, 5)), vec![Pos::new(-1, 0, 0), Pos::new(-2, 0, 0)]);
    assert_eq!(
        chunks_sharing(&Pos::new(64, 127, -65)),
        vec![Pos::new(1, 1, -2), Pos::new(0, 1, -2), Pos::new(1, 2, -2), Pos::new(1, 1, -1)]
    );
    assert_eq!(
        chunks_sharing(&Pos::new(0, 0, 0)),
        vec![Pos::new(0, 0, 0), Pos::new(-1, 0, 0), Pos::new(0, -1, 0), Pos::new(0, 0, -1)]
    );
    assert_eq!(
        chunks_sharing(&Pos::new(i32::MIN, i32::MAX, 1)),
        vec![Pos::new(-33_554_432, 33_554_431, 0), Pos::new(-33_554_433, 33_554_431, 0), Pos::new(-33_554_432, 33_554_432, 0)]
    );
}

#[test]
fn set_voxel_then_get_voxel() {
    let (mut map, _) = loaded(true, false);
    for pos in [Pos::new(5, 30, 5), Pos::new(0, 0, 0), Pos::new(-1, -1, -1), Pos::new(63, 63, 63), Pos::new(-64, -64, -64)] {
        map.set_voxel(77, &pos);
        assert_eq!(map.get_voxel(&pos), Some(77));
    }
    assert_eq!(map.get_voxel(&Pos::new(5, 31, 5)), Some(0));
    // Nothing is written where no chunk is.
    map.set_voxel(77, &Pos::new(500, 500, 500));
    assert_eq!(map.get_voxel(&Pos::new(500, 500, 500)), None);
    assert!(!map.contains_chunk(&Pos::new(7, 7, 7)));
}

#[test]
fn set_voxel_writes_the_padding_of_the_neighbour_along_each_axis() {
    let (mut map, _) = loaded(true, false);
    let pos = Pos::new(0, 20, 30);
    map.set_voxel(5, &pos);
    assert_eq!(map.get_chunk(&Pos::new(0, 0, 0)).unwrap().get_voxel(pos), 5);
    assert_eq!(map.get_chunk(&Pos::new(-1, 0, 0)).unwrap().get_voxel(pos), 5);
    let corner = Pos::new(0, 0, 0);
    map.set_voxel(6, &corner);
    for coord in [Pos::new(0, 0, 0), Pos::new(-1, 0, 0), Pos::new(0, -1, 0), Pos::new(0, 0, -1)] {
        assert_eq!(map.get_chunk(&coord).unwrap().get_voxel(corner), 6);
    }
    // The chunks across the edges and the corner hold the cell in their
    // padding too, and are not written.
    for (coord, unchanged) in [
        (Pos::new(-1, -1, 0), 0),
        (Pos::new(-1, 0, -1), 1),
        (Pos::new(0, -1, -1), 0),
        (Pos::new(-1, -1, -1), 0),
    ] {
        assert_eq!(map.get_chunk(&coord).unwrap().get_voxel(corner), unchanged);
    }
    let upper = Pos::new(-1, -30, -30);
    map.set_voxel(7, &upper);
    assert_eq!(map.get_chunk(&Pos::new(-1, -1, -1)).unwrap().get_voxel(upper), 7);
    assert_eq!(map.get_chunk(&Pos::new(0, -1, -1)).unwrap().get_voxel(upper), 7);
}

#[test]
fn set_voxel_decompresses_the_chunks_that_it_writes() {
    let (mut map, _) = loaded(true, false);
    compress(&mut map, Pos::new(0, 0, 0));
    compress(&mut map, Pos::new(-1, 0, 0));
    compress(&mut map, Pos::new(0, -1, 0));
    map.set_voxel(9, &Pos::new(0, 40, 40));
    assert!(map.is_resident(&Pos::new(0, 0, 0)));
    assert!(map.is_resident(&Pos::new(-1, 0, 0)));
    assert!(map.is_compressed(&Pos::new(0, -1, 0)));
    assert_eq!(map.get_voxel(&Pos::new(0, 40, 40)), Some(9));
    assert_eq!(map.get_voxel(&Pos::new(0, 1, 40)), Some(1));
    assert_eq!(map.get_chunk(&Pos::new(-1, 0, 0)).unwrap().get_voxel(Pos::new(0, 40, 40)), 9);
    assert_never_both(&map);
}

#[test]
fn set_voxel_marks_dirty_where_chunks_are_meshed() {
    let (mut map, _) = loaded(true, true);
    map.clear_dirty();
    map.set_voxel(9, &Pos::new(0, 40, 40));
    let mut dirty = map.dirty_chunks();
    dirty.sort_by_key(|p| (p.x, p.y, p.z));
    assert_eq!(dirty, vec![Pos::new(-1, 0, 0), Pos::new(0, 0, 0)]);
    let (mut map, _) = loaded(true, false);
    map.set_voxel(9, &Pos::new(0, 40, 40));
    assert!(map.dirty_chunks().is_empty());
}

#[test]
fn get_mut_chunks_containing_pos_lists_the_chunks_that_are_there() {
    let (mut map, _) = loaded(true, false);
    compress(&mut map, Pos::new(-1, 0, 0));
    assert_eq!(
        map.get_mut_chunks_containing_pos(&Pos::new(0, 7, 7)),
        vec![Pos::new(0, 0, 0), Pos::new(-1, 0, 0)]
    );
    assert!(map.is_resident(&Pos::new(-1, 0, 0)));
    // The upper neighbour along x is not loaded.
    assert_eq!(map.get_mut_chunks_containing_pos(&Pos::new(63, 7, 7)), vec![Pos::new(0, 0, 0)]);
    assert!(map.get_mut_chunks_containing_pos(&Pos::new(640, 7, 7)).is_empty());
}

#[test]
fn decompress_chunk_moves_a_chunk_into_residency() {
    let (mut map, _) = loaded(true, false);
    let origin = Pos::new(0, 0, 0);
    assert!(!map.decompress_chunk(&origin));
    compress(&mut map, origin);
    assert!(map.decompress_chunk(&origin));
    assert!(map.is_resident(&origin));
    assert!(!map.is_compressed(&origin));
    assert!(!map.decompress_chunk(&origin));
    assert!(!map.decompress_chunk(&Pos::new(9, 9, 9)));
    assert_eq!(map.get_voxel(&Pos::new(3, 3, 3)), Some(1));
}

#[test]
fn compress_chunk_gives_a_job_for_resident_chunks_only() {
    let (mut map, _) = loaded(true, false);
    let origin = Pos::new(0, 0, 0);
    assert!(map.compress_chunk(Pos::new(9, 9, 9)).is_none());
    let job = map.compress_chunk(origin).unwrap();
    assert_eq!(job.chunk.voxels.len(), CHUNK_STORAGE_SIZE);
    map.store_compressed(job.run().unwrap());
    assert!(map.compress_chunk(origin).is_none());
}

#[test]
fn a_compression_result_replaces_later_writes() {
    // Whichever result is stored last stands.
    let (mut map, _) = loaded(true, false);
    let origin = Pos::new(0, 0, 0);
    let job = map.compress_chunk(origin).unwrap();
    map.set_voxel(9, &Pos::new(5, 40, 5));
    assert_eq!(map.get_voxel(&Pos::new(5, 40, 5)), Some(9));
    map.store_compressed(job.run().unwrap());
    assert_eq!(map.get_voxel(&Pos::new(5, 40, 5)), Some(0));
}

#[test]
fn no_coordinate_is_resident_and_compressed_at_once() {
    let (mut map, mut viewers) = loaded(true, false);
    assert_never_both(&map);
    let origin = Pos::new(0, 0, 0);
    let stale = map.compress_chunk(origin).unwrap().run().unwrap();
    compress(&mut map, origin);
    compress(&mut map, Pos::new(-1, -1, -1));
    assert_never_both(&map);
    map.get_voxel(&Pos::new(1, 1, 1));
    map.set_voxel(3, &Pos::new(0, 0, 0));
    assert_never_both(&map);
    map.store_decompressed();
    assert_never_both(&map);
    // Evict, come back, and let the stale results of earlier jobs arrive.
    viewers[0].set_translation(Pos::new(6400, 0, 0));
    map.update_visible_chunks(&viewers);
    assert!(map.chunk_keys().is_empty());
    viewers[0].set_translation(Pos::new(0, 0, 0));
    map.update_visible_chunks(&viewers);
    let jobs = map.schedule_generation();
    assert_eq!(jobs.len(), 8);
    map.store_compressed(stale);
    assert!(map.is_compressed(&origin));
    for coord in jobs {
        map.store_generated(ground(coord));
        assert_never_both(&map);
    }
    assert!(map.is_resident(&origin));
    assert!(!map.is_compressed(&origin));
    assert_never_both(&map);
}

#[test]
fn chunks_outside_the_visible_set_are_evicted() {
    let (mut map, mut viewers) = loaded(true, false);
    compress(&mut map, Pos::new(-1, 0, 0));
    assert_eq!(map.chunk_keys().len(), 8);
    viewers[0].set_translation(Pos::new(64, 0, 0));
    map.update_visible_chunks(&viewers);
    // The window moved one chunk along x: the chunks at x = -1 left it.
    for coord in [Pos::new(-1, 0, 0), Pos::new(-1, -1, -1), Pos::new(-1, 0, -1), Pos::new(-1, -1, 0)] {
        assert!(!map.is_visible(&coord));
        assert!(!map.contains_chunk(&coord));
        assert_eq!(map.get_voxel(&Pos::new(coord.x * 64 + 1, coord.y * 64 + 1, coord.z * 64 + 1)), None);
    }
    for coord in [Pos::new(0, 0, 0), Pos::new(0, -1, -1), Pos::new(0, 0, -1), Pos::new(0, -1, 0)] {
        assert!(map.contains_chunk(&coord));
    }
    assert_eq!(map.chunk_keys().len(), 4);
    let mut jobs = map.schedule_generation();
    jobs.sort_by_key(|p| (p.x, p.y, p.z));
    assert_eq!(
        jobs,
        vec![Pos::new(1, -1, -1), Pos::new(1, -1, 0), Pos::new(1, 0, -1), Pos::new(1, 0, 0)]
    );
}

#[test]
fn evict_drops_what_is_not_visible() {
    let mut map = ChunkMap::new(true, false);
    map.store_generated(ground(Pos::new(0, 0, 0)));
    map.store_generated(ground(Pos::new(1, 0, 0)));
    compress(&mut map, Pos::new(1, 0, 0));
    assert_eq!(map.chunk_keys().len(), 2);
    map.evict();
    assert!(map.chunk_keys().is_empty());
    assert!(!map.contains_chunk(&Pos::new(0, 0, 0)));
    assert!(!map.contains_chunk(&Pos::new(1, 0, 0)));
    map.evict();
    assert!(map.chunk_keys().is_empty());
}

#[test]
fn a_change_of_the_block_library_makes_every_visible_chunk_dirty() {
    let (mut map, _) = loaded(true, true);
    map.clear_dirty();
    map.make_dirty(&Pos::new(50, 50, 50));
    update_block_library(false, &mut map);
    assert_eq!(map.dirty_chunks(), vec![Pos::new(50, 50, 50)]);
    update_block_library(true, &mut map);
    let mut dirty = map.dirty_chunks();
    let mut visible = map.visible_chunks();
    dirty.sort_by_key(|p| (p.x, p.y, p.z));
    visible.sort_by_key(|p| (p.x, p.y, p.z));
    assert_eq!(dirty.len(), 8);
    assert_eq!(dirty, visible);
}

#[test]
fn get_chunk_copies_resident_and_compressed_chunks() {
    let (mut map, _) = loaded(false, false);
    let origin = Pos::new(0, 0, 0);
    map.set_voxel(4, &Pos::new(9, 9, 9));
    let resident = map.get_chunk(&origin).unwrap();
    compress(&mut map, origin);
    let decompressed = map.get_chunk(&origin).unwrap();
    assert_eq!(resident.voxels, decompressed.voxels);
    assert_eq!(decompressed.get_voxel(Pos::new(9, 9, 9)), 4);
    assert!(map.is_compressed(&origin));
    assert!(map.get_chunk(&Pos::new(9, 9, 9)).is_none());
}

#[test]
fn an_unmaterialized_chunk_survives_compression() {
    let mut map = ChunkMap::new(true, false);
    let job = map.store_generated(Chunk::new(Pos::new(0, 5, 0), 0)).unwrap();
    map.store_compressed(job.run().unwrap());
    assert_eq!(map.get_voxel(&Pos::new(1, 330, 1)), Some(0));
    map.store_decompressed();
    assert!(map.get_chunk(&Pos::new(0, 5, 0)).unwrap().is_empty());
}

#[test]
fn is_obstructed_treats_what_cannot_be_read_as_solid() {
    let (mut map, _) = loaded(true, false);
    assert!(map.is_obstructed(&Pos::new(1, 1, 1)));
    assert!(!map.is_obstructed(&Pos::new(1, 30, 1)));
    assert!(map.is_obstructed(&Pos::new(1000, 30, 1)));
}

#[test]
fn the_visible_set_is_built_window_by_window() {
    let mut map = ChunkMap::new(true, false);
    map.add_visible_window(&ChunkViewer::new(1, Pos::new(0, 0, 0)));
    assert_eq!(map.visible_chunks().len(), 8);
    map.add_visible_window(&ChunkViewer::new(1, Pos::new(0, 0, 0)));
    assert_eq!(map.visible_chunks().len(), 8);
    map.add_visible_window(&ChunkViewer::new(1, Pos::new(0, 1, 0)));
    assert_eq!(map.visible_chunks().len(), 12);
    assert!(map.is_visible(&Pos::new(-1, 1, -1)));
    map.clear_visible();
    assert!(map.visible_chunks().is_empty());
    assert!(!map.is_visible(&Pos::new(0, 0, 0)));
}
