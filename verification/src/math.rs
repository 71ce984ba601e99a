//! Integer positions and boxes.
//!
//! A [`Pos`] is used both as a chunk coordinate (one unit is one chunk) and as
//! a voxel coordinate (one unit is one voxel); the context decides which.

use vstd::prelude::*;

verus! {

/// An integer point in 3D space.
#[derive(Clone, Copy, Debug, PartialEq, Eq, Structural, Hash)]
pub struct Pos {
    pub x: i32,
    pub y: i32,
    pub z: i32,
}

/// An axis-aligned integer box; both corners belong to it.
#[derive(Clone, Copy, Debug, PartialEq, Eq, Structural)]
pub struct Extent3 {
    pub min: Pos,
    pub max: Pos,
}

/// Conversion to a plain triple of coordinates.
pub trait ToTuple {
    /// The triple that [`ToTuple::to_tuple`] returns.
    spec fn tuple_spec(&self) -> (i32, i32, i32);

    fn to_tuple(&self) -> (t: (i32, i32, i32))
        ensures
            t == self.tuple_spec(),
    ;
}

/// Division that rounds toward negative infinity.
pub trait DivFloor<Rhs = Self>: Sized {
    /// The divisors by which `self` can be divided.
    spec fn div_floor_possible(&self, rhs: Rhs) -> bool;

    /// The floored quotient.
    spec fn div_floor_spec(&self, rhs: Rhs) -> Self;

    fn div_floor(&self, rhs: Rhs) -> (q: Self)
        requires
            self.div_floor_possible(rhs),
        ensures
            q == self.div_floor_spec(rhs),
    ;
}

/// The quotient of `x` by `d`, rounded toward negative infinity.
pub open spec fn floor_div(x: int, d: int) -> int
    recommends
        d != 0,
{
    if d > 0 {
        x / d
    } else {
        (-x) / (-d)
    }
}

/// The remainder that goes with [`floor_div`]: it has the sign of `d`.
pub open spec fn floor_mod(x: int, d: int) -> int
    recommends
        d != 0,
{
    x - d * floor_div(x, d)
}

/// `x` and `d` can be divided in 32 bits: the divisor is not zero and the
/// quotient is representable.
pub open spec fn can_div(x: i32, d: i32) -> bool {
    d != 0 && !(x == i32::MIN && d == -1)
}

/// The quotient that machine division gives: rounded toward zero.
pub open spec fn trunc_div(x: int, d: int) -> int {
    if x >= 0 {
        x / d
    } else {
        -((-x) / d)
    }
}

/// The remainder that machine division gives: it has the sign of `x`.
pub open spec fn trunc_rem(x: int, d: int) -> int {
    if x >= 0 {
        x % d
    } else {
        -((-x) % d)
    }
}

/// The key under which maps and sets hold a position: the three coordinates,
/// each shifted to be non-negative, as digits in base 2^32.
pub open spec fn pos_key(p: Pos) -> u128 {
    (((p.x + 0x8000_0000) * 0x1_0000_0000 + (p.y + 0x8000_0000)) * 0x1_0000_0000 + (p.z
        + 0x8000_0000)) as u128
}

/// The position that a key stands for; the inverse of [`pos_key`] on the keys
/// that it produces.
pub open spec fn key_pos(k: u128) -> Pos {
    Pos {
        x: ((k as int / 0x1_0000_0000_0000_0000) % 0x1_0000_0000 - 0x8000_0000) as i32,
        y: ((k as int / 0x1_0000_0000) % 0x1_0000_0000 - 0x8000_0000) as i32,
        z: (k as int % 0x1_0000_0000 - 0x8000_0000) as i32,
    }
}

impl Pos {
    pub fn new(x: i32, y: i32, z: i32) -> (p: Pos)
        ensures
            p == (Pos { x, y, z }),
    {
        Pos { x, y, z }
    }

    /// The point with the given coordinates.
    pub open spec fn from_tuple(t: (i32, i32, i32)) -> Pos {
        Pos { x: t.0, y: t.1, z: t.2 }
    }

    /// `self` moved by `(dx, dy, dz)` stays within 32 bits.
    pub open spec fn can_offset(self, dx: int, dy: int, dz: int) -> bool {
        &&& i32::MIN <= self.x + dx <= i32::MAX
        &&& i32::MIN <= self.y + dy <= i32::MAX
        &&& i32::MIN <= self.z + dz <= i32::MAX
    }

    /// `self` moved by `(dx, dy, dz)`.
    pub fn offset(&self, dx: i32, dy: i32, dz: i32) -> (p: Pos)
        requires
            self.can_offset(dx as int, dy as int, dz as int),
        ensures
            p.x == self.x + dx,
            p.y == self.y + dy,
            p.z == self.z + dz,
    {
        Pos { x: self.x + dx, y: self.y + dy, z: self.z + dz }
    }

    /// The key of this position.
    pub fn key(&self) -> (k: u128)
        ensures
            k == pos_key(*self),
    {
        let a: u128 = (self.x as i64 + 0x8000_0000i64) as u128;
        let b: u128 = (self.y as i64 + 0x8000_0000i64) as u128;
        let c: u128 = (self.z as i64 + 0x8000_0000i64) as u128;
        (a * 0x1_0000_0000u128 + b) * 0x1_0000_0000u128 + c
    }

    /// The position of a key, if the key is one that positions have.
    pub fn from_key(k: u128) -> (r: Option<Pos>)
        ensures
            r matches Some(p) ==> pos_key(p) == k,
            r is None <==> forall|p: Pos| pos_key(p) != k,
    {
        if k >= 0x1_0000_0000_0000_0000_0000_0000u128 {
            proof {
                assert forall|p: Pos| pos_key(p) != k by {
                    lemma_key_round_trip(p);
                }
            }
            return None;
        }
        let a: u128 = k / 0x1_0000_0000_0000_0000u128;
        let b: u128 = (k / 0x1_0000_0000u128) % 0x1_0000_0000u128;
        let c: u128 = k % 0x1_0000_0000u128;
        let p = Pos {
            x: (a as i64 - 0x8000_0000i64) as i32,
            y: (b as i64 - 0x8000_0000i64) as i32,
            z: (c as i64 - 0x8000_0000i64) as i32,
        };
        proof {
            lemma_key_round_trip(p);
        }
        Some(p)
    }
}

impl ToTuple for Pos {
    open spec fn tuple_spec(&self) -> (i32, i32, i32) {
        (self.x, self.y, self.z)
    }

    fn to_tuple(&self) -> (t: (i32, i32, i32)) {
        (self.x, self.y, self.z)
    }
}

impl DivFloor<i32> for Pos {
    open spec fn div_floor_possible(&self, rhs: i32) -> bool {
        can_div(self.x, rhs) && can_div(self.y, rhs) && can_div(self.z, rhs)
    }

    open spec fn div_floor_spec(&self, rhs: i32) -> Pos {
        Pos {
            x: floor_div(self.x as int, rhs as int) as i32,
            y: floor_div(self.y as int, rhs as int) as i32,
            z: floor_div(self.z as int, rhs as int) as i32,
        }
    }

    fn div_floor(&self, rhs: i32) -> (q: Pos) {
        Pos {
            x: div_floor_i32(self.x, rhs),
            y: div_floor_i32(self.y, rhs),
            z: div_floor_i32(self.z, rhs),
        }
    }
}

impl Extent3 {
    /// `p` lies in the box, corners included.
    pub open spec fn contains(self, p: Pos) -> bool {
        &&& self.min.x <= p.x <= self.max.x
        &&& self.min.y <= p.y <= self.max.y
        &&& self.min.z <= p.z <= self.max.z
    }

    pub fn contains_point(&self, p: Pos) -> (b: bool)
        ensures
            b == self.contains(p),
    {
        self.min.x <= p.x && p.x <= self.max.x && self.min.y <= p.y && p.y <= self.max.y
            && self.min.z <= p.z && p.z <= self.max.z
    }
}

/// Floor division of one coordinate.
pub fn div_floor_i32(x: i32, rhs: i32) -> (q: i32)
    requires
        can_div(x, rhs),
    ensures
        q == floor_div(x as int, rhs as int),
{
    proof {
        lemma_truncated_division(x as int, rhs as int);
    }
    let d: i32 = x / rhs;
    let r: i32 = x % rhs;
    if (r > 0 && rhs < 0) || (r < 0 && rhs > 0) {
        d - 1
    } else {
        d
    }
}

/// Relates the truncated quotient and remainder to the floored quotient, and
/// bounds all three for 32-bit operands.
pub proof fn lemma_truncated_division(x: int, rhs: int)
    requires
        rhs != 0,
    ensures
        ({
            let d = trunc_div(x, rhs);
            let r = trunc_rem(x, rhs);
            &&& x == rhs * d + r
            &&& (r > 0 && rhs < 0) || (r < 0 && rhs > 0) ==> floor_div(x, rhs) == d - 1
            &&& !((r > 0 && rhs < 0) || (r < 0 && rhs > 0)) ==> floor_div(x, rhs) == d
            &&& -0x8000_0000 <= x < 0x8000_0000 && !(x == -0x8000_0000 && rhs == -1) ==> {
                &&& -0x8000_0000 <= d < 0x8000_0000
                &&& -0x8000_0000 <= r < 0x8000_0000
                &&& -0x8000_0000 <= floor_div(x, rhs) < 0x8000_0000
            }
        }),
{
    let d = trunc_div(x, rhs);
    let r = trunc_rem(x, rhs);
    let a = if x >= 0 { x } else { -x };
    let b = if rhs > 0 { rhs } else { -rhs };
    vstd::arithmetic::div_mod::lemma_fundamental_div_mod(a, b);
    vstd::arithmetic::div_mod::lemma_mod_bound(a, b);
    vstd::arithmetic::div_mod::lemma_fundamental_div_mod(-a, b);
    vstd::arithmetic::div_mod::lemma_mod_bound(-a, b);
    lemma_negative_divisor(a, b);
    let q = a / b;
    let m = a % b;
    let fq = (-a) / b;
    let fm = (-a) % b;
    assert(a == b * q + m);
    assert(-a == b * fq + fm);
    if m == 0 {
        assert(b * (fq + q) + fm == 0) by (nonlinear_arith)
            requires
                a == b * q,
                -a == b * fq + fm,
        ;
        assert(fq + q == 0 && fm == 0) by (nonlinear_arith)
            requires
                b * (fq + q) + fm == 0,
                0 <= fm < b,
        ;
    } else {
        assert(b * (fq + q + 1) + (fm + m - b) == 0) by (nonlinear_arith)
            requires
                a == b * q + m,
                -a == b * fq + fm,
        ;
        assert(fq + q + 1 == 0) by (nonlinear_arith)
            requires
                b * (fq + q + 1) + (fm + m - b) == 0,
                0 <= fm < b,
                0 < m < b,
        ;
    }
    assert(0 <= q <= a) by (nonlinear_arith)
        requires
            a == b * q + m,
            0 <= m < b,
            a >= 0,
    ;
    assert(b >= 2 ==> 2 * q <= a) by (nonlinear_arith)
        requires
            a == b * q + m,
            0 <= m < b,
            a >= 0,
            q >= 0,
    ;
    assert(x == rhs * d + r) by (nonlinear_arith)
        requires
            a == b * q + m,
            d == (if (x >= 0) == (rhs > 0) { q } else { -q }),
            r == (if x >= 0 { m } else { -m }),
            a == (if x >= 0 { x } else { -x }),
            b == (if rhs > 0 { rhs } else { -rhs }),
    ;
}

/// Division by a negative divisor negates the quotient and keeps the remainder.
proof fn lemma_negative_divisor(a: int, b: int)
    requires
        b > 0,
    ensures
        a / (-b) == -(a / b),
        a % (-b) == a % b,
{
    vstd::arithmetic::div_mod::lemma_fundamental_div_mod(a, b);
    vstd::arithmetic::div_mod::lemma_mod_bound(a, b);
    assert(a / (-b) == -(a / b) && a % (-b) == a % b) by (nonlinear_arith)
        requires
            b > 0,
            a == b * (a / b) + (a % b),
            0 <= a % b < b,
    ;
}

/// Keys tell positions apart: a key gives its position back, so two
/// positions with one key are the same position.
pub proof fn lemma_pos_key_injective(p: Pos, q: Pos)
    ensures
        key_pos(pos_key(p)) == p,
        pos_key(p) == pos_key(q) ==> p == q,
        pos_key(p) < 0x1_0000_0000_0000_0000_0000_0000,
{
    lemma_key_round_trip(p);
    lemma_key_round_trip(q);
}

proof fn lemma_key_round_trip(p: Pos)
    ensures
        key_pos(pos_key(p)) == p,
        pos_key(p) == ((p.x + 0x8000_0000) * 0x1_0000_0000 + (p.y + 0x8000_0000)) * 0x1_0000_0000
            + (p.z + 0x8000_0000),
{
    let a = p.x + 0x8000_0000;
    let b = p.y + 0x8000_0000;
    let c = p.z + 0x8000_0000;
    let k = (a * 0x1_0000_0000 + b) * 0x1_0000_0000 + c;
    assert(0 <= k < 0x1_0000_0000_0000_0000_0000_0000);
    assert(k / 0x1_0000_0000_0000_0000 == a);
    assert((k / 0x1_0000_0000) % 0x1_0000_0000 == b);
    assert(k % 0x1_0000_0000 == c);
}

} // verus!
