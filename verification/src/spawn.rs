//! Timed spawning around the player: how many to spawn, and where.

use crate::random::draw_range;
use crate::vector::{clamp_to_i64, lemma_with_length_bound, saturate, Vec3, COORD_LIMIT, SCALE};
use rand::rngs::StdRng;
use vstd::prelude::*;

verus! {

/// The most asteroids there may be at a time.
pub const MAX_NUM_ASTEROIDS: usize = 1000;

/// The most enemies there may be at a time.
pub const NUM_ENEMIES: usize = 10;

/// Asteroids appear between 100 and 500 world units from the player.
pub const ASTEROID_SPAWN_LOW: i64 = 100 * SCALE;

pub const ASTEROID_SPAWN_HIGH: i64 = 500 * SCALE;

/// Enemies appear between 10 and 50 world units from the player.
pub const ENEMY_SPAWN_LOW: i64 = 10 * SCALE;

pub const ENEMY_SPAWN_HIGH: i64 = 50 * SCALE;

/// Speed of a new asteroid, in world units per second.
pub const VELOCITY_SCALAR: i64 = 5;

/// Acceleration of a new asteroid, in world units per second squared.
pub const ACCELERATION_SCALAR: i64 = 1;

/// How many entities a spawn event adds when `current` of at most `max`
/// exist: what is missing, and nothing where the budget is used up.
pub open spec fn missing(current: int, max: int) -> int {
    if current >= max {
        0
    } else {
        max - current
    }
}

/// Whether `(cos, sin)` gives a direction in the plane: it is not the zero
/// vector, and each part is within twice the coordinate limit. Its length
/// does not matter.
pub open spec fn is_direction(cos: i64, sin: i64) -> bool {
    &&& cos != 0 || sin != 0
    &&& -2 * COORD_LIMIT <= cos <= 2 * COORD_LIMIT
    &&& -2 * COORD_LIMIT <= sin <= 2 * COORD_LIMIT
}

/// The step of length `dist` in the plane `y = 0`, in the direction
/// `(cos, sin)`.
pub open spec fn ring_step(dist: i64, cos: i64, sin: i64) -> Vec3 {
    (Vec3 { x: cos, y: 0, z: sin }).with_length(dist as int)
}

/// The point of the plane `y = 0` at distance `dist` from `(x, z)`, in the
/// direction `(cos, sin)`; each coordinate saturates.
pub open spec fn point_around(x: i64, z: i64, dist: i64, cos: i64, sin: i64) -> (i64, i64) {
    (
        clamp_to_i64(x + ring_step(dist, cos, sin).x) as i64,
        clamp_to_i64(z + ring_step(dist, cos, sin).z) as i64,
    )
}

/// The squared distance in the plane `y = 0` between `(x, z)` and `p`.
pub open spec fn planar_dist2(x: i64, z: i64, p: (i64, i64)) -> int {
    (p.0 - x) * (p.0 - x) + (p.1 - z) * (p.1 - z)
}

/// Whether every point within `reach` of `(x, z)` has coordinates that fit.
pub open spec fn within_reach(x: i64, z: i64, reach: i64) -> bool {
    &&& i64::MIN <= x - reach && x + reach <= i64::MAX
    &&& i64::MIN <= z - reach && z + reach <= i64::MAX
}

/// The vector `(x, 0, z)` given the length of one world unit, up to
/// rounding; zero if it has no length.
pub open spec fn planar_unit(x: i64, z: i64) -> Vec3 {
    (Vec3 { x, y: 0, z }).with_length(SCALE as int)
}

/// A point around `(x, z)` lies at the distance `dist` from it, up to
/// rounding: no farther, and less than three grid units nearer, as long as
/// no coordinate saturates.
pub proof fn lemma_point_around_distance(x: i64, z: i64, dist: i64, cos: i64, sin: i64)
    requires
        is_direction(cos, sin),
        0 <= dist,
        within_reach(x, z, dist),
    ensures
        point_around(x, z, dist, cos, sin) == (
            (x + ring_step(dist, cos, sin).x) as i64,
            (z + ring_step(dist, cos, sin).z) as i64,
        ),
        planar_dist2(x, z, point_around(x, z, dist, cos, sin)) <= dist * dist,
        dist >= 3 ==> (dist - 3) * (dist - 3) <= planar_dist2(
            x,
            z,
            point_around(x, z, dist, cos, sin),
        ),
        cos >= 0 ==> point_around(x, z, dist, cos, sin).0 >= x,
        cos <= 0 ==> point_around(x, z, dist, cos, sin).0 <= x,
        sin >= 0 ==> point_around(x, z, dist, cos, sin).1 >= z,
        sin <= 0 ==> point_around(x, z, dist, cos, sin).1 <= z,
{
    let v = Vec3 { x: cos, y: 0, z: sin };
    lemma_with_length_bound(v, dist as int);
    let step = ring_step(dist, cos, sin);
    assert(step.y == 0);
    assert(v.norm2() > 0) by (nonlinear_arith)
        requires
            v.norm2() == v.x * v.x + v.y * v.y + v.z * v.z,
            v.x != 0 || v.z != 0,
            v.y == 0,
    ;
    let p = point_around(x, z, dist, cos, sin);
    assert(p.0 - x == step.x && p.1 - z == step.z);
    assert(planar_dist2(x, z, p) == step.norm2()) by (nonlinear_arith)
        requires
            planar_dist2(x, z, p) == (p.0 - x) * (p.0 - x) + (p.1 - z) * (p.1 - z),
            step.norm2() == step.x * step.x + step.y * step.y + step.z * step.z,
            p.0 - x == step.x,
            p.1 - z == step.z,
            step.y == 0,
    ;
}

/// A planar unit vector has the length of one world unit, up to rounding:
/// no more, and less than three grid units less, unless it is zero because
/// the vector it was made of is.
pub proof fn lemma_planar_unit_length(x: i64, z: i64)
    requires
        -2 * COORD_LIMIT <= x <= 2 * COORD_LIMIT,
        -2 * COORD_LIMIT <= z <= 2 * COORD_LIMIT,
    ensures
        planar_unit(x, z).y == 0,
        planar_unit(x, z).norm2() <= SCALE * SCALE,
        x != 0 || z != 0 ==> (SCALE - 3) * (SCALE - 3) <= planar_unit(x, z).norm2(),
        x == 0 && z == 0 ==> planar_unit(x, z) == (Vec3 { x: 0, y: 0, z: 0 }),
        x >= 0 ==> planar_unit(x, z).x >= 0,
        x <= 0 ==> planar_unit(x, z).x <= 0,
        z >= 0 ==> planar_unit(x, z).z >= 0,
        z <= 0 ==> planar_unit(x, z).z <= 0,
{
    let v = Vec3 { x, y: 0, z };
    lemma_with_length_bound(v, SCALE as int);
    assert(v.norm2() == x * x + z * z) by (nonlinear_arith)
        requires
            v.norm2() == v.x * v.x + v.y * v.y + v.z * v.z,
            v.x == x,
            v.y == 0,
            v.z == z,
    ;
    if x != 0 || z != 0 {
        assert(x * x + z * z > 0) by (nonlinear_arith)
            requires
                x != 0 || z != 0,
        ;
    } else {
        assert(x * x + z * z == 0) by (nonlinear_arith)
            requires
                x == 0,
                z == 0,
        ;
    }
}

/// Computes `missing`.
pub fn spawn_count(current: usize, max: usize) -> (n: usize)
    ensures
        n == missing(current as int, max as int),
{
    if current >= max {
        0
    } else {
        max - current
    }
}

/// Tests `is_direction`.
pub fn direction_ok(cos: i64, sin: i64) -> (b: bool)
    ensures
        b == is_direction(cos, sin),
{
    (cos != 0 || sin != 0) && -2 * COORD_LIMIT <= cos && cos <= 2 * COORD_LIMIT && -2 * COORD_LIMIT
        <= sin && sin <= 2 * COORD_LIMIT
}

/// Computes `point_around` for the `x` and `z` of `pos`.
pub fn position_around(pos: &Vec3, dist: i64, cos: i64, sin: i64) -> (p: (i64, i64))
    requires
        is_direction(cos, sin),
        0 <= dist,
    ensures
        p == point_around(pos.x, pos.z, dist, cos, sin),
{
    let step: Vec3 = Vec3 { x: cos, y: 0, z: sin }.scaled_to(dist as u64);
    (saturate(pos.x as i128 + step.x as i128), saturate(pos.z as i128 + step.z as i128))
}

/// A point of the ring around `pos` in the plane `y = 0`: in the direction
/// `(cos, sin)`, at a distance drawn from `low..high`. Its `x` and `z` come
/// back. Where no coordinate can saturate, the point is nearer than `high`
/// and less than three grid units inside `low`.
pub fn get_random_position_around(
    rng: &mut StdRng,
    pos: &Vec3,
    low: i64,
    high: i64,
    cos: i64,
    sin: i64,
) -> (p: (i64, i64))
    requires
        0 <= low < high,
        is_direction(cos, sin),
    ensures
        exists|dist: i64|
            low <= dist < high && p == #[trigger] point_around(pos.x, pos.z, dist, cos, sin),
        within_reach(pos.x, pos.z, high) ==> planar_dist2(pos.x, pos.z, p) < high * high,
        within_reach(pos.x, pos.z, high) && low >= 3 ==> (low - 3) * (low - 3) <= planar_dist2(
            pos.x,
            pos.z,
            p,
        ),
{
    let dist: i64 = draw_range(rng, low, high);
    proof {
        if within_reach(pos.x, pos.z, high) {
            lemma_point_around_distance(pos.x, pos.z, dist, cos, sin);
            assert(dist * dist < high * high) by (nonlinear_arith)
                requires
                    0 <= dist < high,
            ;
            if low >= 3 {
                assert((low - 3) * (low - 3) <= (dist - 3) * (dist - 3)) by (nonlinear_arith)
                    requires
                        3 <= low <= dist,
                ;
            }
        }
    }
    position_around(pos, dist, cos, sin)
}

/// A direction in the plane `y = 0`: a vector with `x` and `z` drawn from
/// `[-1, 1)`, given the length of one world unit; zero if the draw is zero.
pub fn get_random_unit_vector(rng: &mut StdRng) -> (v: Vec3)
    ensures
        exists|x: i64, z: i64|
            -SCALE <= x < SCALE && -SCALE <= z < SCALE && v == #[trigger] planar_unit(x, z),
        v.y == 0,
        v.norm2() <= SCALE * SCALE,
        v == (Vec3 { x: 0, y: 0, z: 0 }) || (SCALE - 3) * (SCALE - 3) <= v.norm2(),
{
    let x: i64 = draw_range(rng, -SCALE, SCALE);
    let z: i64 = draw_range(rng, -SCALE, SCALE);
    proof {
        lemma_planar_unit_length(x, z);
    }
    unit_in_plane(x, z)
}

/// Computes `planar_unit`.
pub fn unit_in_plane(x: i64, z: i64) -> (v: Vec3)
    requires
        -2 * COORD_LIMIT <= x <= 2 * COORD_LIMIT,
        -2 * COORD_LIMIT <= z <= 2 * COORD_LIMIT,
    ensures
        v == planar_unit(x, z),
{
    let drawn = Vec3 { x, y: 0, z };
    drawn.scaled_to(SCALE as u64)
}

} // verus!
