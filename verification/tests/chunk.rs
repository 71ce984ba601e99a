use avoxel::byte_order::{decode_words, encode_words, ByteOrder};
use avoxel::chunk::{
    is_chunk_coord, Chunk, Voxel, CHUNK_LAYER_SIZE_WITH_PADDING, CHUNK_PADDING, CHUNK_SIZE,
    CHUNK_SIZE_WITH_PADDING, CHUNK_STORAGE_SIZE, MAX_CHUNK_COORD, MIN_CHUNK_COORD,
};
use avoxel::compressed_chunk::{encoder_level, Lz4CompressedChunk, MAX_COMPRESSION_LEVEL};
use avoxel::math::Pos;

fn patterned(modulus: usize) -> Vec<Voxel> {
    let mut voxels: Vec<Voxel> = vec![0; CHUNK_STORAGE_SIZE];
    for (i, v) in voxels.iter_mut().enumerate() {
        *v = (i % modulus) as u32;
    }
    voxels
}

fn scrambled(seed: u32) -> Vec<Voxel> {
    let mut state = seed;
    let mut voxels: Vec<Voxel> = Vec::with_capacity(CHUNK_STORAGE_SIZE);
    for _ in 0..CHUNK_STORAGE_SIZE {
        state = state.wrapping_mul(1_664_525).wrapping_add(1_013_904_223);
        voxels.push(state);
    }
    voxels
}

#[test]
fn compression() {
    let mut voxels: Vec<Voxel> = vec![0; CHUNK_STORAGE_SIZE];
    for (i, v) in voxels.iter_mut().enumerate() {
        *v = (i % 24) as u32;
    }
    let chunk = Chunk::new_from_vec(Pos::new(0, 0, 0), 0, voxels);
    assert_eq!(
        chunk.compress(10, true).unwrap().decompress(true).voxels,
        chunk.voxels
    );
    assert_eq!(
        chunk.compress(10, false).unwrap().decompress(false).voxels,
        chunk.voxels
    );
}

#[test]
fn constants_fit_together() {
    assert_eq!(CHUNK_SIZE_WITH_PADDING, CHUNK_PADDING * 2 + CHUNK_SIZE);
    assert_eq!(CHUNK_LAYER_SIZE_WITH_PADDING, CHUNK_SIZE_WITH_PADDING * CHUNK_SIZE_WITH_PADDING);
    assert_eq!(
        CHUNK_STORAGE_SIZE,
        (CHUNK_SIZE_WITH_PADDING * CHUNK_SIZE_WITH_PADDING * CHUNK_SIZE_WITH_PADDING) as usize
    );
    assert_eq!(MIN_CHUNK_COORD as i64 * 64 - 1, i32::MIN as i64 + 63);
    assert!((MIN_CHUNK_COORD as i64 - 1) * 64 - 1 < i32::MIN as i64);
    assert!(MAX_CHUNK_COORD as i64 * 64 + 65 <= i32::MAX as i64);
    assert!((MAX_CHUNK_COORD as i64 + 1) * 64 + 65 > i32::MAX as i64);
}

#[test]
fn chunk_coordinates_in_range() {
    assert!(is_chunk_coord(Pos::new(0, 0, 0)));
    assert!(is_chunk_coord(Pos::new(MIN_CHUNK_COORD, MAX_CHUNK_COORD, 0)));
    assert!(!is_chunk_coord(Pos::new(MIN_CHUNK_COORD - 1, 0, 0)));
    assert!(!is_chunk_coord(Pos::new(0, MAX_CHUNK_COORD + 1, 0)));
    assert!(!is_chunk_coord(Pos::new(0, 0, i32::MAX)));
}

#[test]
fn extent_is_the_chunk_with_its_padding() {
    let chunk = Chunk::new(Pos::new(0, 0, 0), 0);
    assert_eq!(chunk.extent().min, Pos::new(-1, -1, -1));
    assert_eq!(chunk.extent().max, Pos::new(64, 64, 64));
    let chunk = Chunk::new(Pos::new(2, -1, 3), 0);
    assert_eq!(chunk.extent().min, Pos::new(127, -65, 191));
    assert_eq!(chunk.extent().max, Pos::new(192, 0, 256));
}

#[test]
fn a_new_chunk_is_empty_and_reads_as_its_ambient_voxel() {
    let chunk = Chunk::new(Pos::new(1, 2, 3), 9);
    assert!(chunk.is_empty());
    assert_eq!(chunk.voxels.len(), 0);
    assert_eq!(chunk.get_voxel(Pos::new(64, 128, 192)), 9);
    assert_eq!(chunk.get_voxel(Pos::new(63, 127, 191)), 9);
    assert_eq!(chunk.get_voxel(Pos::new(128, 192, 256)), 9);
}

#[test]
fn fill_if_empty_materializes_once() {
    let mut chunk = Chunk::new(Pos::new(0, 0, 0), 5);
    chunk.fill_if_empty();
    assert!(!chunk.is_empty());
    assert_eq!(chunk.voxels.len(), CHUNK_STORAGE_SIZE);
    assert!(chunk.voxels.iter().all(|v| *v == 5));
    chunk.voxels[17] = 8;
    chunk.fill_if_empty();
    assert_eq!(chunk.voxels[17], 8);
    assert_eq!(chunk.voxels.len(), CHUNK_STORAGE_SIZE);
}

#[test]
fn block_index_runs_y_then_z_then_x() {
    let chunk = Chunk::new(Pos::new(0, 0, 0), 0);
    assert_eq!(chunk.block_index(Pos::new(-1, -1, -1)), 0);
    assert_eq!(chunk.block_index(Pos::new(-1, 0, -1)), 1);
    assert_eq!(chunk.block_index(Pos::new(-1, -1, 0)), 66);
    assert_eq!(chunk.block_index(Pos::new(0, -1, -1)), 4356);
    assert_eq!(chunk.block_index(Pos::new(0, 0, 0)), 4356 + 66 + 1);
    assert_eq!(chunk.block_index(Pos::new(64, 64, 64)), CHUNK_STORAGE_SIZE - 1);
    let far = Chunk::new(Pos::new(-3, 7, 1), 0);
    assert_eq!(far.block_index(Pos::new(-193 + 2, 447 + 5, 63 + 9)), 5 + 9 * 66 + 2 * 4356);
}

#[test]
fn index_to_pos_undoes_block_index() {
    for coord in [Pos::new(0, 0, 0), Pos::new(-4, 3, 11), Pos::new(MIN_CHUNK_COORD, 0, MAX_CHUNK_COORD)] {
        let chunk = Chunk::new(coord, 0);
        let e = chunk.extent();
        for x in [e.min.x, e.min.x + 1, e.min.x + 30, e.max.x - 1, e.max.x] {
            for y in [e.min.y, e.min.y + 1, e.min.y + 31, e.max.y - 1, e.max.y] {
                for z in [e.min.z, e.min.z + 1, e.min.z + 32, e.max.z - 1, e.max.z] {
                    let p = Pos::new(x, y, z);
                    assert_eq!(chunk.index_to_pos(chunk.block_index(p)), p);
                }
            }
        }
        for i in [0, 1, 65, 66, 4355, 4356, 100_000, CHUNK_STORAGE_SIZE - 1] {
            assert_eq!(chunk.block_index(chunk.index_to_pos(i)), i);
        }
    }
}

#[test]
fn index_to_pos_of_every_index_of_one_chunk() {
    let chunk = Chunk::new(Pos::new(0, 0, 0), 0);
    for i in 0..CHUNK_STORAGE_SIZE {
        let p = chunk.index_to_pos(i);
        assert!(chunk.extent().contains_point(p));
        assert_eq!(chunk.block_index(p), i);
    }
}

#[test]
fn a_voxel_that_was_set_is_the_voxel_that_is_got() {
    let mut chunk = Chunk::new(Pos::new(0, 0, 0), 0);
    chunk.set_voxel(7, Pos::new(3, 4, 5));
    assert!(!chunk.is_empty());
    assert_eq!(chunk.get_voxel(Pos::new(3, 4, 5)), 7);
    assert_eq!(chunk.get_voxel(Pos::new(3, 4, 6)), 0);
    assert_eq!(chunk.get_voxel(Pos::new(4, 4, 5)), 0);
    chunk.set_voxel(8, Pos::new(-1, -1, -1));
    chunk.set_voxel(9, Pos::new(64, 64, 64));
    assert_eq!(chunk.get_voxel(Pos::new(-1, -1, -1)), 8);
    assert_eq!(chunk.get_voxel(Pos::new(64, 64, 64)), 9);
    assert_eq!(chunk.get_voxel(Pos::new(3, 4, 5)), 7);
    assert_eq!(chunk.voxels.iter().filter(|v| **v != 0).count(), 3);
}

#[test]
fn set_voxel_keeps_the_ambient_voxel_elsewhere() {
    let mut chunk = Chunk::new(Pos::new(-1, 0, 0), 4);
    chunk.set_voxel(1, Pos::new(-10, 10, 10));
    assert_eq!(chunk.get_voxel(Pos::new(-10, 10, 10)), 1);
    assert_eq!(chunk.get_voxel(Pos::new(-11, 10, 10)), 4);
    assert_eq!(chunk.voxels.iter().filter(|v| **v == 4).count(), CHUNK_STORAGE_SIZE - 1);
}

#[test]
fn fill_area_fills_the_box_and_nothing_else() {
    let mut chunk = Chunk::new(Pos::new(0, 0, 0), 0);
    chunk.fill_area(3, Pos::new(1, 2, 3), Pos::new(4, 6, 5));
    let mut filled = 0;
    for i in 0..CHUNK_STORAGE_SIZE {
        let p = chunk.index_to_pos(i);
        let inside = 1 <= p.x && p.x < 4 && 2 <= p.y && p.y < 6 && 3 <= p.z && p.z < 5;
        assert_eq!(chunk.voxels[i], if inside { 3 } else { 0 });
        if inside {
            filled += 1;
        }
    }
    assert_eq!(filled, 3 * 4 * 2);
}

#[test]
fn fill_area_reaches_the_padding() {
    let mut chunk = Chunk::new(Pos::new(0, 0, 0), 0);
    chunk.fill_area(2, Pos::new(-1, -1, -1), Pos::new(65, 65, 65));
    assert!(chunk.voxels.iter().all(|v| *v == 2));
}

#[test]
fn fill_area_of_an_empty_box_only_materializes() {
    let mut chunk = Chunk::new(Pos::new(0, 0, 0), 6);
    chunk.fill_area(2, Pos::new(5, 5, 5), Pos::new(5, 9, 9));
    assert!(!chunk.is_empty());
    assert!(chunk.voxels.iter().all(|v| *v == 6));
    chunk.fill_area(2, Pos::new(5, 5, 5), Pos::new(9, 5, 9));
    assert!(chunk.voxels.iter().all(|v| *v == 6));
    chunk.fill_area(2, Pos::new(900, 5, 5), Pos::new(9, 5, 5));
    assert!(chunk.voxels.iter().all(|v| *v == 6));
}

#[test]
fn clone_copies_the_buffer() {
    let mut chunk = Chunk::new(Pos::new(0, 0, 0), 0);
    chunk.set_voxel(7, Pos::new(3, 4, 5));
    let copy = chunk.clone();
    chunk.set_voxel(8, Pos::new(3, 4, 5));
    assert_eq!(copy.get_voxel(Pos::new(3, 4, 5)), 7);
    assert_eq!(copy.pos, Pos::new(0, 0, 0));
    assert_eq!(copy.ambient_voxel, 0);
}

#[test]
fn words_are_laid_out_in_the_order_asked_for() {
    let words: Vec<u32> = vec![0x0102_0304, 0xA0B0_C0D0, 1];
    assert_eq!(
        encode_words(&words, ByteOrder::Little),
        vec![4, 3, 2, 1, 0xD0, 0xC0, 0xB0, 0xA0, 1, 0, 0, 0]
    );
    assert_eq!(
        encode_words(&words, ByteOrder::Big),
        vec![1, 2, 3, 4, 0xA0, 0xB0, 0xC0, 0xD0, 0, 0, 0, 1]
    );
    assert_eq!(encode_words(&Vec::new(), ByteOrder::Big), Vec::<u8>::new());
}

#[test]
fn bytes_are_read_in_the_order_asked_for() {
    let bytes: Vec<u8> = vec![4, 3, 2, 1, 0, 0, 0, 0x80];
    assert_eq!(decode_words(&bytes, ByteOrder::Little), Some(vec![0x0102_0304, 0x8000_0000]));
    assert_eq!(decode_words(&bytes, ByteOrder::Big), Some(vec![0x0403_0201, 0x0000_0080]));
    assert_eq!(decode_words(&vec![1, 2, 3], ByteOrder::Little), None);
    assert_eq!(decode_words(&vec![1, 2, 3, 4, 5], ByteOrder::Big), None);
    assert_eq!(decode_words(&Vec::new(), ByteOrder::Little), Some(Vec::new()));
}

#[test]
fn the_native_order_is_the_order_of_this_machine() {
    let expected = if u16::from_ne_bytes([1, 0]) == 1 { ByteOrder::Little } else { ByteOrder::Big };
    assert_eq!(ByteOrder::native(), expected);
    assert_eq!(ByteOrder::for_flag(true), ByteOrder::Little);
    assert_eq!(ByteOrder::for_flag(false), expected);
}

#[test]
fn round_trip_of_an_empty_chunk() {
    for byteorder in [true, false] {
        for level in [0, 1, 4, 10, 16] {
            let chunk = Chunk::new(Pos::new(3, -2, 1), 12);
            let compressed = chunk.compress(level, byteorder).unwrap();
            assert!(compressed.empty());
            assert_eq!(compressed.pos(), Pos::new(3, -2, 1));
            assert_eq!(compressed.ambient_voxel(), 12);
            let back = compressed.decompress(byteorder);
            assert!(back.is_empty());
            assert_eq!(back.voxels, chunk.voxels);
            assert_eq!(back.ambient_voxel, 12);
            assert_eq!(back.pos, Pos::new(3, -2, 1));
        }
    }
}

#[test]
fn round_trip_of_a_random_chunk() {
    let chunk = Chunk::new_from_vec(Pos::new(0, 0, 0), 0, scrambled(42));
    for byteorder in [true, false] {
        for level in [0, 3, 10] {
            let compressed = chunk.compress(level, byteorder).unwrap();
            assert!(!compressed.empty());
            assert_eq!(compressed.decompress(byteorder).voxels, chunk.voxels);
        }
    }
}

#[test]
fn round_trip_of_repeating_patterns() {
    for modulus in [1, 2, 24, 66, 4356] {
        let chunk = Chunk::new_from_vec(Pos::new(-1, 5, 9), 3, patterned(modulus));
        for byteorder in [true, false] {
            for level in [0, 1, 9, 12, 16, 40] {
                let back = chunk.compress(level, byteorder).unwrap().decompress(byteorder);
                assert_eq!(back.voxels, chunk.voxels);
                assert_eq!(back.pos, chunk.pos);
                assert_eq!(back.ambient_voxel, chunk.ambient_voxel);
            }
        }
    }
}

#[test]
fn round_trip_in_either_explicit_order() {
    let chunk = Chunk::new_from_vec(Pos::new(0, 0, 0), 0, patterned(1000));
    for order in [ByteOrder::Little, ByteOrder::Big] {
        let compressed = chunk.compress_in(10, order).unwrap();
        assert_eq!(compressed.decompress_in(order).voxels, chunk.voxels);
    }
    let little = chunk.compress_in(10, ByteOrder::Little).unwrap();
    let swapped = little.decompress_in(ByteOrder::Big);
    assert_eq!(swapped.voxels[1], 1u32.swap_bytes());
    assert_eq!(swapped.voxels[999], 999u32.swap_bytes());
}

#[test]
fn compression_compresses_and_gives_the_same_frame_again() {
    let chunk = Chunk::new_from_vec(Pos::new(0, 0, 0), 0, patterned(24));
    let a = chunk.compress(10, true).unwrap();
    let b = chunk.compress(10, true).unwrap();
    assert_eq!(a.compressed_voxels(), b.compressed_voxels());
    assert!(a.compressed_voxels().len() < CHUNK_STORAGE_SIZE * 4);
    assert_ne!(a.compressed_voxels(), &encode_words(&chunk.voxels, ByteOrder::Little));
    // An LZ4 frame starts with its magic number.
    assert_eq!(&a.compressed_voxels()[..4], &[0x04, 0x22, 0x4D, 0x18]);
}

#[test]
fn a_compressed_chunk_keeps_the_extent() {
    let chunk = Chunk::new(Pos::new(2, -1, 3), 0);
    let compressed = chunk.compress(10, true).unwrap();
    assert_eq!(compressed.extent(), chunk.extent());
    assert_eq!(compressed.extent().min, Pos::new(127, -65, 191));
}

#[test]
fn a_compressed_chunk_is_made_of_parts_that_fit() {
    let chunk = Chunk::new_from_vec(Pos::new(1, 2, 3), 4, patterned(7));
    let compressed = chunk.compress(10, true).unwrap();
    let frame = compressed.compressed_voxels().clone();
    let rebuilt = Lz4CompressedChunk::from_parts(frame.clone(), Pos::new(1, 2, 3), 4, false).unwrap();
    assert_eq!(rebuilt.decompress(true).voxels, chunk.voxels);
    assert_eq!(rebuilt.pos(), Pos::new(1, 2, 3));
    assert_eq!(rebuilt.ambient_voxel(), 4);
    assert!(!rebuilt.empty());
    // The flag says empty, the frame holds a buffer.
    assert!(Lz4CompressedChunk::from_parts(frame.clone(), Pos::new(1, 2, 3), 4, true).is_none());
    // The coordinate is out of range.
    assert!(Lz4CompressedChunk::from_parts(frame.clone(), Pos::new(i32::MAX, 0, 0), 4, false).is_none());
    // The frame is cut short.
    let cut = frame[..frame.len() / 2].to_vec();
    assert!(Lz4CompressedChunk::from_parts(cut, Pos::new(1, 2, 3), 4, false).is_none());
    // The bytes are no frame.
    assert!(Lz4CompressedChunk::from_parts(vec![1, 2, 3, 4, 5], Pos::new(1, 2, 3), 4, false).is_none());
    // No bytes decode to no bytes: that is no buffer.
    assert!(Lz4CompressedChunk::from_parts(Vec::new(), Pos::new(1, 2, 3), 4, false).is_none());
}

#[test]
fn a_zero_length_blob_stands_for_an_empty_chunk() {
    let blank = Lz4CompressedChunk::from_parts(Vec::new(), Pos::new(1, 2, 3), 4, true).unwrap();
    let chunk = blank.decompress(true);
    assert!(chunk.is_empty());
    assert_eq!(chunk.ambient_voxel, 4);
    assert_eq!(chunk.pos, Pos::new(1, 2, 3));
}

#[test]
fn an_empty_compressed_chunk_is_made_of_an_empty_frame() {
    let empty = Chunk::new(Pos::new(0, 0, 0), 1).compress(10, true).unwrap();
    let frame = empty.compressed_voxels().clone();
    let rebuilt = Lz4CompressedChunk::from_parts(frame.clone(), Pos::new(0, 0, 0), 1, true).unwrap();
    assert!(rebuilt.decompress(true).is_empty());
    assert!(Lz4CompressedChunk::from_parts(frame, Pos::new(0, 0, 0), 1, false).is_none());
}

#[test]
fn clone_of_a_compressed_chunk() {
    let chunk = Chunk::new_from_vec(Pos::new(0, 0, 0), 0, patterned(5));
    let compressed = chunk.compress(10, true).unwrap();
    let copy = compressed.clone();
    assert_eq!(copy.compressed_voxels(), compressed.compressed_voxels());
    assert_eq!(copy.decompress(true).voxels, chunk.voxels);
}

#[test]
fn a_chunk_is_well_formed_with_no_buffer_or_a_whole_one() {
    assert!(Chunk::new(Pos::new(0, 0, 0), 0).is_well_formed());
    assert!(Chunk::new_from_vec(Pos::new(0, 0, 0), 0, vec![0; CHUNK_STORAGE_SIZE]).is_well_formed());
    assert!(!Chunk::new_from_vec(Pos::new(0, 0, 0), 0, vec![0; CHUNK_STORAGE_SIZE - 1]).is_well_formed());
    assert!(!Chunk::new_from_vec(Pos::new(0, 0, 0), 0, vec![0; 1]).is_well_formed());
    assert!(!Chunk::new(Pos::new(0, MAX_CHUNK_COORD + 1, 0), 0).is_well_formed());
    assert!(Chunk::new(Pos::new(MIN_CHUNK_COORD, MAX_CHUNK_COORD, 0), 0).is_well_formed());
}

#[test]
fn the_reading_of_one_and_zero_tells_the_order() {
    assert_eq!(ByteOrder::of_reading(1), ByteOrder::Little);
    assert_eq!(ByteOrder::of_reading(0x100), ByteOrder::Big);
    assert_eq!(ByteOrder::of_reading(u16::from_le_bytes([1, 0])), ByteOrder::Little);
    assert_eq!(ByteOrder::of_reading(u16::from_be_bytes([1, 0])), ByteOrder::Big);
    assert_eq!(ByteOrder::of_reading(u16::from_ne_bytes([1, 0])), ByteOrder::native());
}

#[test]
fn the_flag_selects_little_endian_or_the_order_of_the_machine() {
    assert_eq!(ByteOrder::for_flag_on(true, ByteOrder::Little), ByteOrder::Little);
    assert_eq!(ByteOrder::for_flag_on(true, ByteOrder::Big), ByteOrder::Little);
    assert_eq!(ByteOrder::for_flag_on(false, ByteOrder::Little), ByteOrder::Little);
    assert_eq!(ByteOrder::for_flag_on(false, ByteOrder::Big), ByteOrder::Big);
    for flag in [true, false] {
        assert_eq!(ByteOrder::for_flag(flag), ByteOrder::for_flag_on(flag, ByteOrder::native()));
    }
}

#[test]
fn levels_beyond_the_greatest_are_handed_on_as_the_greatest() {
    assert_eq!(MAX_COMPRESSION_LEVEL, 16);
    assert_eq!(encoder_level(0), 0);
    assert_eq!(encoder_level(10), 10);
    assert_eq!(encoder_level(16), 16);
    assert_eq!(encoder_level(17), 16);
    assert_eq!(encoder_level(0x7FFF_FFFF), 16);
    assert_eq!(encoder_level(0x8000_0000), 16);
    assert_eq!(encoder_level(u32::MAX), 16);
}

#[test]
fn round_trip_at_levels_beyond_the_greatest() {
    let chunk = Chunk::new_from_vec(Pos::new(0, 0, 0), 0, patterned(24));
    let greatest = chunk.compress(MAX_COMPRESSION_LEVEL, true).unwrap();
    for level in [17, 1000, 0x7FFF_FFFF, 0x8000_0000, 0x8000_0001, u32::MAX] {
        let compressed = chunk.compress(level, true).unwrap();
        assert_eq!(compressed.compressed_voxels(), greatest.compressed_voxels());
        assert_eq!(compressed.decompress(true).voxels, chunk.voxels);
    }
}

#[test]
fn a_compressed_chunk_is_made_of_a_chunk_and_its_frame() {
    let chunk = Chunk::new_from_vec(Pos::new(1, 2, 3), 4, patterned(7));
    let frame = chunk.compress(10, true).unwrap().compressed_voxels().clone();
    let compressed = Lz4CompressedChunk::of_frame(&chunk, Some(frame.clone())).unwrap();
    assert_eq!(compressed.compressed_voxels(), &frame);
    assert_eq!(compressed.pos(), Pos::new(1, 2, 3));
    assert_eq!(compressed.ambient_voxel(), 4);
    assert!(!compressed.empty());
    assert_eq!(compressed.decompress(true).voxels, chunk.voxels);
    assert!(Lz4CompressedChunk::of_frame(&chunk, None).is_none());
    let blank = Chunk::new(Pos::new(0, 0, 0), 9);
    let frame = blank.compress(10, true).unwrap().compressed_voxels().clone();
    let compressed = Lz4CompressedChunk::of_frame(&blank, Some(frame)).unwrap();
    assert!(compressed.empty());
    assert_eq!(compressed.ambient_voxel(), 9);
    assert!(compressed.decompress(true).is_empty());
}
