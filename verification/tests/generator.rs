use avoxel::chunk::CHUNK_STORAGE_SIZE;
use avoxel::generator::{generate_chunk, GROUND, NOISE_FACTOR, SKY};
use avoxel::math::Pos;

#[test]
fn a_chunk_above_every_height_is_sky_without_buffer() {
    // The extent of the chunk at y = 1 starts at 63, above the greatest height.
    let chunk = generate_chunk(&Pos::new(0, 1, 0), |_x: i32, _z: i32| -> i32 { unreachable!() });
    assert!(chunk.is_empty());
    assert_eq!(chunk.ambient_voxel, SKY);
    assert_eq!(chunk.pos, Pos::new(0, 1, 0));
}

#[test]
fn a_chunk_below_every_height_is_ground_without_buffer() {
    // The extent of the chunk at y = -2 ends at -64, below the least height.
    let chunk = generate_chunk(&Pos::new(3, -2, 5), |_x: i32, _z: i32| -> i32 { unreachable!() });
    assert!(chunk.is_empty());
    assert_eq!(chunk.ambient_voxel, GROUND);
    assert_eq!(chunk.get_voxel(Pos::new(200, -100, 330)), GROUND);
}

#[test]
fn the_limits_are_twenty_above_and_below() {
    assert_eq!(NOISE_FACTOR, 20);
    assert_eq!(GROUND, 1);
    assert_eq!(SKY, 0);
}

#[test]
fn each_column_is_ground_below_its_height() {
    let height = |x: i32, z: i32| -> i32 { (x + 2 * z).rem_euclid(41) - 20 };
    for coord in [Pos::new(0, 0, 0), Pos::new(0, -1, 0), Pos::new(-2, 0, 1)] {
        let chunk = generate_chunk(&coord, height);
        assert_eq!(chunk.pos, coord);
        let e = chunk.extent();
        for x in [e.min.x, e.min.x + 1, e.min.x + 17, e.max.x] {
            for z in [e.min.z, e.min.z + 5, e.max.z - 1, e.max.z] {
                for y in e.min.y..e.max.y + 1 {
                    let expected = if y < height(x, z) { GROUND } else { SKY };
                    assert_eq!(chunk.get_voxel(Pos::new(x, y, z)), expected);
                }
            }
        }
    }
}

#[test]
fn a_chunk_that_no_height_reaches_stays_without_buffer() {
    let chunk = generate_chunk(&Pos::new(0, 0, 0), |_x: i32, _z: i32| -> i32 { -5 });
    assert!(chunk.is_empty());
    assert_eq!(chunk.ambient_voxel, SKY);
    let chunk = generate_chunk(&Pos::new(0, 0, 0), |_x: i32, _z: i32| -> i32 { -1 });
    assert!(chunk.is_empty());
    // A height just above the lowest layer materializes the buffer.
    let chunk = generate_chunk(&Pos::new(0, 0, 0), |_x: i32, _z: i32| -> i32 { 0 });
    assert!(!chunk.is_empty());
    assert_eq!(chunk.voxels.iter().filter(|v| **v == GROUND).count(), 66 * 66);
}

#[test]
fn heights_beyond_the_chunk_fill_whole_columns() {
    let chunk = generate_chunk(&Pos::new(0, -1, 0), |x: i32, _z: i32| -> i32 {
        if x < 10 {
            1000
        } else {
            -1000
        }
    });
    let e = chunk.extent();
    assert_eq!(chunk.get_voxel(Pos::new(9, e.max.y, 0)), GROUND);
    assert_eq!(chunk.get_voxel(Pos::new(9, e.min.y, 0)), GROUND);
    assert_eq!(chunk.get_voxel(Pos::new(10, e.min.y, 0)), SKY);
    assert_eq!(chunk.voxels.iter().filter(|v| **v == GROUND).count(), 11 * 66 * 66);
    assert_eq!(chunk.voxels.len(), CHUNK_STORAGE_SIZE);
}
