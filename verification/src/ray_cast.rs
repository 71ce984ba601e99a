//! The grid side of ray traversal.
//!
//! A ray through the voxel grid leaves its cell through one face after
//! another. Which face comes next, and when, is a matter of real arithmetic
//! on the ray; which cells the ray visits, where it stops and through which
//! face it entered the cell where it stops is decided here, from the
//! sequence of axes along which the ray crosses cell boundaries.

use vstd::prelude::*;
use crate::math::Pos;

verus! {

/// An axis of the grid.
#[derive(Clone, Copy, Debug, PartialEq, Eq, Structural)]
pub enum Axis {
    X,
    Y,
    Z,
}

/// Where a ray stopped.
#[derive(Clone, Copy, Debug, PartialEq, Eq, Structural)]
pub struct RayHit {
    /// The cell at which the predicate held.
    pub block_pos: Pos,
    /// The outward normal of the face through which the ray entered that
    /// cell; zero if the ray started in it.
    pub hit_norm: Pos,
    /// The number of cell boundaries that the ray crossed before it stopped.
    pub crossed: usize,
}

/// `1` for a ray that runs toward greater coordinates along an axis, `-1`
/// for any other ray.
pub fn step_direction(positive: bool) -> (step: i32)
    ensures
        step == (if positive {
            1i32
        } else {
            -1i32
        }),
{
    if positive {
        1
    } else {
        -1
    }
}

/// The axis along which a ray crosses its next cell boundary, given how the
/// distances to the next boundary of each axis compare: whether the x
/// boundary is nearer than the y boundary, and whether the z boundary is
/// nearer than the x boundary and than the y boundary.
///
/// If the x boundary is nearer than the y boundary, the choice is between x
/// and z, else between y and z. The z boundary is chosen only where it is
/// nearer than the other: where the two are equally near, x is chosen before
/// z, and y before z.
pub fn next_axis(x_before_y: bool, z_before_x: bool, z_before_y: bool) -> (axis: Axis)
    ensures
        axis == (if x_before_y {
            if z_before_x {
                Axis::Z
            } else {
                Axis::X
            }
        } else if z_before_y {
            Axis::Z
        } else {
            Axis::Y
        }),
{
    if x_before_y {
        if z_before_x {
            Axis::Z
        } else {
            Axis::X
        }
    } else if z_before_y {
        Axis::Z
    } else {
        Axis::Y
    }
}

/// Each component of `step` is `1` or `-1`.
pub open spec fn is_step(step: Pos) -> bool {
    &&& step.x == 1 || step.x == -1
    &&& step.y == 1 || step.y == -1
    &&& step.z == 1 || step.z == -1
}

/// The cell that a ray is in after it has crossed the first `n` of its cell
/// boundaries, as unbounded coordinates.
pub open spec fn cell_after(start: Pos, step: Pos, crossings: Seq<Axis>, n: int) -> (int, int, int)
    decreases n,
{
    if n <= 0 {
        (start.x as int, start.y as int, start.z as int)
    } else {
        let c = cell_after(start, step, crossings, n - 1);
        match crossings[n - 1] {
            Axis::X => (c.0 + step.x, c.1, c.2),
            Axis::Y => (c.0, c.1 + step.y, c.2),
            Axis::Z => (c.0, c.1, c.2 + step.z),
        }
    }
}

/// The cell that a ray is in after it has crossed the first `n` of its cell
/// boundaries.
pub open spec fn pos_after(start: Pos, step: Pos, crossings: Seq<Axis>, n: int) -> Pos {
    let c = cell_after(start, step, crossings, n);
    Pos { x: c.0 as i32, y: c.1 as i32, z: c.2 as i32 }
}

/// Every cell of the ray has 32-bit coordinates.
pub open spec fn ray_in_range(start: Pos, step: Pos, crossings: Seq<Axis>) -> bool {
    forall|n: int|
        0 <= n <= crossings.len() ==> {
            let c = #[trigger] cell_after(start, step, crossings, n);
            &&& i32::MIN <= c.0 <= i32::MAX
            &&& i32::MIN <= c.1 <= i32::MAX
            &&& i32::MIN <= c.2 <= i32::MAX
        }
}

/// The outward normal of the face through which a ray entered the cell that
/// it is in after `n` crossings: against the step along the axis of the last
/// crossing, and zero before the first.
pub open spec fn normal_after(step: Pos, crossings: Seq<Axis>, n: int) -> Pos {
    if n <= 0 {
        Pos { x: 0, y: 0, z: 0 }
    } else {
        match crossings[n - 1] {
            Axis::X => Pos { x: (-step.x) as i32, y: 0, z: 0 },
            Axis::Y => Pos { x: 0, y: (-step.y) as i32, z: 0 },
            Axis::Z => Pos { x: 0, y: 0, z: (-step.z) as i32 },
        }
    }
}

/// The stop of a ray after `n` crossings.
pub open spec fn hit_after(start: Pos, step: Pos, crossings: Seq<Axis>, n: int) -> RayHit {
    RayHit {
        block_pos: pos_after(start, step, crossings, n),
        hit_norm: normal_after(step, crossings, n),
        crossed: n as usize,
    }
}

/// The cell of a ray and the normal of the face through which it entered
/// that cell.
pub struct RayWalk {
    pub cell: Pos,
    pub step: Pos,
    pub hit_norm: Pos,
    pub crossed: usize,
}

impl RayWalk {
    /// A ray in its first cell.
    pub fn new(start: Pos, step: Pos) -> (walk: RayWalk)
        ensures
            walk.cell == start,
            walk.step == step,
            walk.hit_norm == (Pos { x: 0, y: 0, z: 0 }),
            walk.crossed == 0,
    {
        RayWalk { cell: start, step, hit_norm: Pos { x: 0, y: 0, z: 0 }, crossed: 0 }
    }

    /// The walk stands where the ray is after `n` of the crossings.
    pub open spec fn stands_at(&self, start: Pos, crossings: Seq<Axis>, n: int) -> bool {
        &&& self.crossed == n
        &&& self.cell == pos_after(start, self.step, crossings, n)
        &&& self.hit_norm == normal_after(self.step, crossings, n)
    }

    /// Moves the ray into the next cell along `axis`.
    pub fn advance(&mut self, axis: Axis)
        requires
            is_step(old(self).step),
            old(self).crossed < usize::MAX,
            match axis {
                Axis::X => i32::MIN <= old(self).cell.x + old(self).step.x <= i32::MAX,
                Axis::Y => i32::MIN <= old(self).cell.y + old(self).step.y <= i32::MAX,
                Axis::Z => i32::MIN <= old(self).cell.z + old(self).step.z <= i32::MAX,
            },
        ensures
            final(self).step == old(self).step,
            final(self).crossed == old(self).crossed + 1,
            final(self).cell == (match axis {
                Axis::X => Pos { x: (old(self).cell.x + old(self).step.x) as i32, ..old(self).cell },
                Axis::Y => Pos { y: (old(self).cell.y + old(self).step.y) as i32, ..old(self).cell },
                Axis::Z => Pos { z: (old(self).cell.z + old(self).step.z) as i32, ..old(self).cell },
            }),
            final(self).hit_norm == (match axis {
                Axis::X => Pos { x: (-old(self).step.x) as i32, y: 0, z: 0 },
                Axis::Y => Pos { x: 0, y: (-old(self).step.y) as i32, z: 0 },
                Axis::Z => Pos { x: 0, y: 0, z: (-old(self).step.z) as i32 },
            }),
    {
        match axis {
            Axis::X => {
                self.cell.x = self.cell.x + self.step.x;
                self.hit_norm = Pos { x: -self.step.x, y: 0, z: 0 };
            },
            Axis::Y => {
                self.cell.y = self.cell.y + self.step.y;
                self.hit_norm = Pos { x: 0, y: -self.step.y, z: 0 };
            },
            Axis::Z => {
                self.cell.z = self.cell.z + self.step.z;
                self.hit_norm = Pos { x: 0, y: 0, z: -self.step.z };
            },
        }
        self.crossed = self.crossed + 1;
    }

    /// The stop of the ray in the cell where it is.
    pub fn hit(&self) -> (hit: RayHit)
        ensures
            hit == (RayHit {
                block_pos: self.cell,
                hit_norm: self.hit_norm,
                crossed: self.crossed,
            }),
    {
        RayHit { block_pos: self.cell, hit_norm: self.hit_norm, crossed: self.crossed }
    }
}

/// Tells whether `step` is a step and every cell of the ray has 32-bit
/// coordinates.
pub fn ray_fits(start: Pos, step: Pos, crossings: &Vec<Axis>) -> (fits: bool)
    ensures
        fits == (is_step(step) && ray_in_range(start, step, crossings@)),
{
    if !((step.x == 1 || step.x == -1) && (step.y == 1 || step.y == -1) && (step.z == 1 || step.z
        == -1)) {
        return false;
    }
    let mut walk = RayWalk::new(start, step);
    let mut i: usize = 0;
    while i < crossings.len()
        invariant
            is_step(step),
            i <= crossings@.len(),
            walk.step == step,
            walk.crossed == i,
            cell_after(start, step, crossings@, i as int) == (
                walk.cell.x as int,
                walk.cell.y as int,
                walk.cell.z as int,
            ),
            forall|n: int|
                0 <= n <= i ==> {
                    let c = #[trigger] cell_after(start, step, crossings@, n);
                    &&& i32::MIN <= c.0 <= i32::MAX
                    &&& i32::MIN <= c.1 <= i32::MAX
                    &&& i32::MIN <= c.2 <= i32::MAX
                },
        decreases crossings@.len() - i,
    {
        let axis = crossings[i];
        let (coordinate, along) = match axis {
            Axis::X => (walk.cell.x, step.x),
            Axis::Y => (walk.cell.y, step.y),
            Axis::Z => (walk.cell.z, step.z),
        };
        if (along == 1 && coordinate == i32::MAX) || (along == -1 && coordinate == i32::MIN) {
            proof {
                let c = cell_after(start, step, crossings@, i + 1);
                assert(!(i32::MIN <= c.0 <= i32::MAX && i32::MIN <= c.1 <= i32::MAX && i32::MIN
                    <= c.2 <= i32::MAX));
            }
            return false;
        }
        walk.advance(axis);
        i += 1;
    }
    true
}

/// Walks a ray from the cell `start` and stops it at the first cell at which
/// `predicate` holds: the first cell itself, or a cell that the ray enters
/// by one of its `crossings`, which name in order the axes along which the
/// ray crosses cell boundaries within its length. Gives nothing if the
/// predicate holds at no cell of the ray.
pub fn voxel_ray_cast(
    predicate: impl Fn(Pos) -> bool,
    start: Pos,
    step: Pos,
    crossings: &Vec<Axis>,
) -> (hit: Option<RayHit>)
    requires
        is_step(step),
        ray_in_range(start, step, crossings@),
        forall|p: Pos| call_requires(predicate, (p,)),
    ensures
        match hit {
            Some(h) => {
                &&& h.crossed <= crossings@.len()
                &&& h == hit_after(start, step, crossings@, h.crossed as int)
                &&& call_ensures(predicate, (h.block_pos,), true)
                &&& forall|n: int|
                    0 <= n < h.crossed ==> call_ensures(
                        predicate,
                        (#[trigger] pos_after(start, step, crossings@, n),),
                        false,
                    )
            },
            None => forall|n: int|
                0 <= n <= crossings@.len() ==> call_ensures(
                    predicate,
                    (#[trigger] pos_after(start, step, crossings@, n),),
                    false,
                ),
        },
        (forall|p: Pos| !call_ensures(predicate, (p,), true)) ==> hit is None,
        !call_ensures(predicate, (start,), false) ==> hit == Some(
            RayHit { block_pos: start, hit_norm: Pos { x: 0, y: 0, z: 0 }, crossed: 0 },
        ),
{
    let mut walk = RayWalk::new(start, step);
    let mut i: usize = 0;
    loop
        invariant
            is_step(step),
            ray_in_range(start, step, crossings@),
            forall|p: Pos| call_requires(predicate, (p,)),
            i <= crossings@.len(),
            walk.step == step,
            walk.stands_at(start, crossings@, i as int),
            forall|n: int|
                0 <= n < i ==> call_ensures(
                    predicate,
                    (#[trigger] pos_after(start, step, crossings@, n),),
                    false,
                ),
        decreases crossings@.len() - i,
    {
        proof {
            assert(pos_after(start, step, crossings@, 0) == start);
        }
        if predicate(walk.cell) {
            return Some(walk.hit());
        }
        if i >= crossings.len() {
            return None;
        }
        proof {
            let c = cell_after(start, step, crossings@, i as int);
            let d = cell_after(start, step, crossings@, i + 1);
            assert(i32::MIN <= c.0 <= i32::MAX);
            assert(i32::MIN <= d.0 <= i32::MAX);
        }
        walk.advance(crossings[i]);
        i += 1;
    }
}

} // verus!
