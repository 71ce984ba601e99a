use avoxel::math::{div_floor_i32, DivFloor, Extent3, Pos, ToTuple};

#[test]
fn div_floor_rounds_toward_negative_infinity() {
    assert_eq!(div_floor_i32(0, 64), 0);
    assert_eq!(div_floor_i32(63, 64), 0);
    assert_eq!(div_floor_i32(64, 64), 1);
    assert_eq!(div_floor_i32(-1, 64), -1);
    assert_eq!(div_floor_i32(-64, 64), -1);
    assert_eq!(div_floor_i32(-65, 64), -2);
    assert_eq!(div_floor_i32(i32::MIN, 64), -33_554_432);
    assert_eq!(div_floor_i32(i32::MAX, 64), 33_554_431);
}

#[test]
fn div_floor_by_a_negative_divisor() {
    assert_eq!(div_floor_i32(7, -2), -4);
    assert_eq!(div_floor_i32(-7, -2), 3);
    assert_eq!(div_floor_i32(8, -2), -4);
    assert_eq!(div_floor_i32(i32::MAX, -1), -i32::MAX);
}

#[test]
fn div_floor_of_a_position_divides_each_coordinate() {
    let p = Pos::new(-1, 64, 127);
    assert_eq!(p.div_floor(64), Pos::new(-1, 1, 1));
    let q = Pos::new(-129, 0, 63);
    assert_eq!(q.div_floor(64), Pos::new(-3, 0, 0));
}

#[test]
fn position_keys_tell_positions_apart() {
    let samples = [
        Pos::new(0, 0, 0),
        Pos::new(1, 0, 0),
        Pos::new(0, 1, 0),
        Pos::new(0, 0, 1),
        Pos::new(-1, -1, -1),
        Pos::new(i32::MIN, i32::MAX, 0),
        Pos::new(i32::MAX, i32::MIN, -7),
    ];
    for (i, a) in samples.iter().enumerate() {
        assert_eq!(Pos::from_key(a.key()), Some(*a));
        for (j, b) in samples.iter().enumerate() {
            assert_eq!(a.key() == b.key(), i == j);
        }
    }
}

#[test]
fn position_key_is_the_coordinates_in_base_two_to_the_32() {
    assert_eq!(Pos::new(i32::MIN, i32::MIN, i32::MIN).key(), 0);
    assert_eq!(Pos::new(i32::MIN, i32::MIN, i32::MIN + 5).key(), 5);
    assert_eq!(Pos::new(i32::MIN, i32::MIN + 1, i32::MIN).key(), 1u128 << 32);
    assert_eq!(Pos::new(i32::MIN + 1, i32::MIN, i32::MIN).key(), 1u128 << 64);
    assert_eq!(Pos::new(0, 0, 0).key(), (1u128 << 95) + (1u128 << 63) + (1u128 << 31));
}

#[test]
fn keys_that_no_position_has_give_no_position() {
    assert_eq!(Pos::from_key(1u128 << 96), None);
    assert_eq!(Pos::from_key(u128::MAX), None);
    assert_eq!(Pos::from_key((1u128 << 96) - 1), Some(Pos::new(i32::MAX, i32::MAX, i32::MAX)));
}

#[test]
fn offset_moves_each_coordinate() {
    assert_eq!(Pos::new(1, 2, 3).offset(-1, 0, 4), Pos::new(0, 2, 7));
}

#[test]
fn to_tuple_lists_the_coordinates() {
    assert_eq!(Pos::new(4, -5, 6).to_tuple(), (4, -5, 6));
}

#[test]
fn extent_holds_both_corners() {
    let e = Extent3 { min: Pos::new(-1, -1, -1), max: Pos::new(64, 64, 64) };
    assert!(e.contains_point(Pos::new(-1, -1, -1)));
    assert!(e.contains_point(Pos::new(64, 64, 64)));
    assert!(e.contains_point(Pos::new(0, 30, 64)));
    assert!(!e.contains_point(Pos::new(65, 0, 0)));
    assert!(!e.contains_point(Pos::new(0, -2, 0)));
    assert!(!e.contains_point(Pos::new(0, 0, 65)));
}
