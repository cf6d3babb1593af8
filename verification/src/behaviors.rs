//! How an enemy moves: a random nudge of one of four kinds each tick, and a
//! steady pull towards the player.
//!
//! Two kinds of nudge are drawn here from the generator. The other two are
//! sampled by the caller, from a normal distribution and from a noise field,
//! and handed in.

use crate::random::draw_range;
use crate::vector::{lemma_with_length_bound, Vec3, SCALE};
use rand::rngs::StdRng;
use vstd::prelude::*;

verus! {

/// The length of the pull towards the player: a quarter of a world unit.
pub const SEEK_SPEED: u64 = 16384;

/// The kind of nudge an enemy gets.
#[derive(Clone, Copy, Debug, PartialEq, Eq, Structural)]
pub enum WalkType {
    /// Uniform in `[-1, 1)` on each axis.
    Random,
    /// Uniform in `[0, 1)` on each axis.
    Gaussian,
    /// Normally distributed; sampled by the caller.
    Normal,
    /// Read off a noise field at the enemy's position; sampled by the caller.
    Perlin,
}

/// The walk type with the given number; numbers above 2 give `Perlin`.
pub open spec fn walk_type_of(index: int) -> WalkType {
    if index == 0 {
        WalkType::Random
    } else if index == 1 {
        WalkType::Gaussian
    } else if index == 2 {
        WalkType::Normal
    } else {
        WalkType::Perlin
    }
}

/// The force after a nudge of `x` and `z` in the plane.
pub open spec fn nudged(force: Vec3, x: i64, z: i64) -> Vec3 {
    force.add_spec(Vec3 { x, y: 0, z })
}

/// The pull on a walker at `position` towards `target`: the offset from the
/// one to the other, given the length `SEEK_SPEED`; none where the two
/// coincide.
pub open spec fn seek_step(position: Vec3, target: Vec3) -> Vec3 {
    target.sub_spec(position).with_length(SEEK_SPEED as int)
}

/// The force after the pull of `seek_step` is added to it.
pub open spec fn sought(force: Vec3, position: Vec3, target: Vec3) -> Vec3 {
    force.add_spec(seek_step(position, target))
}

/// The pull towards a target has the length `SEEK_SPEED`, up to rounding: no
/// more, and less than three grid units less, and each part of it points
/// towards the target.
pub proof fn lemma_seek_step(position: Vec3, target: Vec3)
    requires
        position.in_bounds(),
        target.in_bounds(),
    ensures
        seek_step(position, target).norm2() <= SEEK_SPEED * SEEK_SPEED,
        position != target ==> (SEEK_SPEED - 3) * (SEEK_SPEED - 3) <= seek_step(
            position,
            target,
        ).norm2(),
        position == target ==> seek_step(position, target) == (Vec3 { x: 0, y: 0, z: 0 }),
        target.x >= position.x ==> seek_step(position, target).x >= 0,
        target.x <= position.x ==> seek_step(position, target).x <= 0,
        target.y >= position.y ==> seek_step(position, target).y >= 0,
        target.y <= position.y ==> seek_step(position, target).y <= 0,
        target.z >= position.z ==> seek_step(position, target).z >= 0,
        target.z <= position.z ==> seek_step(position, target).z <= 0,
{
    let off = target.sub_spec(position);
    lemma_with_length_bound(off, SEEK_SPEED as int);
    if position != target {
        assert(off.norm2() > 0) by (nonlinear_arith)
            requires
                off.norm2() == off.x * off.x + off.y * off.y + off.z * off.z,
                off.x != 0 || off.y != 0 || off.z != 0,
        ;
    } else {
        assert(off.norm2() == 0) by (nonlinear_arith)
            requires
                off.norm2() == off.x * off.x + off.y * off.y + off.z * off.z,
                off.x == 0,
                off.y == 0,
                off.z == 0,
        ;
    }
}

impl WalkType {
    /// Whether this kind may give the nudge `(x, z)` when the caller has
    /// sampled `sampled`.
    pub open spec fn allows(self, x: i64, z: i64, sampled: (i64, i64)) -> bool {
        match self {
            WalkType::Random => -SCALE <= x < SCALE && -SCALE <= z < SCALE,
            WalkType::Gaussian => 0 <= x < SCALE && 0 <= z < SCALE,
            WalkType::Normal => x == sampled.0 && z == sampled.1,
            WalkType::Perlin => x == sampled.0 && z == sampled.1,
        }
    }

    /// Whether the nudge of this kind is sampled by the caller.
    pub fn is_sampled_outside(&self) -> (b: bool)
        ensures
            b == (*self == WalkType::Normal || *self == WalkType::Perlin),
    {
        match self {
            WalkType::Random => false,
            WalkType::Gaussian => false,
            WalkType::Normal => true,
            WalkType::Perlin => true,
        }
    }

    /// Nudges `ext_force` in the plane `y = 0`, by a draw of this kind or by
    /// `sampled`.
    pub fn walk(&self, rng: &mut StdRng, ext_force: &mut Vec3, sampled: (i64, i64))
        ensures
            exists|x: i64, z: i64|
                self.allows(x, z, sampled) && *final(ext_force) == #[trigger] nudged(
                    *old(ext_force),
                    x,
                    z,
                ),
    {
        let (x, z): (i64, i64) = match self {
            WalkType::Random => {
                let x: i64 = draw_range(rng, -SCALE, SCALE);
                let z: i64 = draw_range(rng, -SCALE, SCALE);
                (x, z)
            },
            WalkType::Gaussian => {
                let x: i64 = draw_range(rng, 0, SCALE);
                let z: i64 = draw_range(rng, 0, SCALE);
                (x, z)
            },
            WalkType::Normal => sampled,
            WalkType::Perlin => sampled,
        };
        nudge(ext_force, x, z);
    }
}

/// Picks the walk type with the given number.
pub fn walk_type_from_index(index: i64) -> (w: WalkType)
    ensures
        w == walk_type_of(index as int),
{
    if index == 0 {
        WalkType::Random
    } else if index == 1 {
        WalkType::Gaussian
    } else if index == 2 {
        WalkType::Normal
    } else {
        WalkType::Perlin
    }
}

/// Picks one of the four walk types by a draw from `0..4`.
pub fn get_random_walk_type(rng: &mut StdRng) -> (w: WalkType)
    ensures
        exists|index: int| 0 <= index < 4 && w == #[trigger] walk_type_of(index),
{
    let index: i64 = draw_range(rng, 0, 4);
    walk_type_from_index(index)
}

/// Adds `(x, 0, z)` to the force, saturating.
pub fn nudge(ext_force: &mut Vec3, x: i64, z: i64)
    ensures
        *final(ext_force) == nudged(*old(ext_force), x, z),
{
    *ext_force = ext_force.saturating_add(&Vec3 { x, y: 0, z });
}

/// Adds to the force the pull of `seek_step` from `position` towards
/// `target`.
pub fn seek(position: &Vec3, target: &Vec3, ext_force: &mut Vec3)
    requires
        position.in_bounds(),
        target.in_bounds(),
    ensures
        *final(ext_force) == sought(*old(ext_force), *position, *target),
{
    let direction: Vec3 = target.offset_from(position);
    let step: Vec3 = direction.scaled_to(SEEK_SPEED);
    *ext_force = ext_force.saturating_add(&step);
}

} // verus!
