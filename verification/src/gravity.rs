//! Inverse-square attraction of bodies by attractors.
//!
//! Every attractor pulls every body towards itself with a force of magnitude
//! `gain * m_a * m_b / (d^2 + epsilon)`, where `d` is their distance. The
//! pull is added to the body's accumulator, which the integrator resets
//! between ticks; this module never resets it. Attractors do not pull each
//! other.
//!
//! With `gain = UNIT_GAIN` the accumulated quantity is the plain
//! inverse-square term in world units; with `gain = NEWTON_GAIN` it is scaled
//! by the gravitational constant.

use crate::vector::{
    lemma_square_bound, lemma_with_length_along_x, lemma_with_length_bound, Vec3,
};
use vstd::prelude::*;

verus! {

/// The gain that makes the accumulated pull `m_a * m_b / d^2` in world
/// units: the cube of the grid scale.
pub const UNIT_GAIN: u64 = 281474976710656;

/// The gain that scales the pull by the gravitational constant
/// `6.6743e-11`, rounded to the grid.
pub const NEWTON_GAIN: u64 = 18786;

/// The softening term used by default: a thousandth of a square world unit.
pub const DEFAULT_EPSILON: u64 = 4294967;

/// A body that pulls.
#[derive(Clone, Copy, Debug, PartialEq, Eq, Structural)]
pub struct Attractor {
    pub position: Vec3,
    pub mass: u32,
}

/// A body that is pulled, with the accumulator that the pulls are added to.
#[derive(Clone, Copy, Debug, PartialEq, Eq, Structural)]
pub struct Body {
    pub position: Vec3,
    pub mass: u32,
    pub acceleration: Vec3,
}

/// The constants of the attraction.
#[derive(Clone, Copy, Debug, PartialEq, Eq, Structural)]
pub struct GravityParams {
    /// Factor of the product of the masses.
    pub gain: u64,
    /// Added to the squared distance, so that the pull stays finite; not
    /// zero.
    pub epsilon: u64,
    /// Whether the pull is confined to the plane `y = 0`.
    pub planar: bool,
}

/// Why a step was refused.
#[derive(Clone, Copy, Debug, PartialEq, Eq, Structural)]
pub enum GravityError {
    /// `epsilon` is zero.
    ZeroEpsilon,
    /// There is no attractor.
    NoAttractors,
    /// There is no body.
    NoBodies,
    /// An attractor has no mass or lies outside the coordinate limit.
    BadAttractor,
    /// A body has no mass or lies outside the coordinate limit.
    BadBody,
}

impl Attractor {
    /// The mass is positive and the position within the coordinate limit.
    pub open spec fn wf(self) -> bool {
        self.mass > 0 && self.position.in_bounds()
    }
}

impl Body {
    /// The mass is positive and the position within the coordinate limit.
    pub open spec fn wf(self) -> bool {
        self.mass > 0 && self.position.in_bounds()
    }
}

/// The magnitude of the pull between masses `ma` and `mb` at squared
/// distance `d2`, capped at the largest `i64`.
pub open spec fn magnitude(params: GravityParams, ma: u32, mb: u32, d2: int) -> int {
    let raw = (params.gain * ma * mb) / (d2 + params.epsilon);
    if raw > i64::MAX {
        i64::MAX as int
    } else {
        raw
    }
}

/// The pull of attractor `a` on a body of mass `mass` at `position`: the
/// offset from the body to the attractor, given the length `magnitude` as
/// `with_length` gives it; none where the two coincide. A pull confined to
/// the plane is that vector without its `y`.
pub open spec fn pull(params: GravityParams, a: Attractor, position: Vec3, mass: u32) -> Vec3 {
    let offset = a.position.sub_spec(position);
    let full = offset.with_length(magnitude(params, a.mass, mass, offset.norm2()));
    if params.planar {
        Vec3 { x: full.x, y: 0, z: full.z }
    } else {
        full
    }
}

/// The accumulator `start` after the pulls of all `attractors`, added in
/// order.
pub open spec fn total_pull(
    params: GravityParams,
    attractors: Seq<Attractor>,
    position: Vec3,
    mass: u32,
    start: Vec3,
) -> Vec3
    decreases attractors.len(),
{
    if attractors.len() == 0 {
        start
    } else {
        total_pull(params, attractors.drop_last(), position, mass, start).add_spec(
            pull(params, attractors.last(), position, mass),
        )
    }
}

/// Which error, if any, a step gives; the first that applies.
pub open spec fn gravity_error(
    params: GravityParams,
    attractors: Seq<Attractor>,
    bodies: Seq<Body>,
) -> Option<GravityError> {
    if params.epsilon == 0 {
        Some(GravityError::ZeroEpsilon)
    } else if attractors.len() == 0 {
        Some(GravityError::NoAttractors)
    } else if bodies.len() == 0 {
        Some(GravityError::NoBodies)
    } else if exists|i: int| 0 <= i < attractors.len() && !(#[trigger] attractors[i]).wf() {
        Some(GravityError::BadAttractor)
    } else if exists|i: int| 0 <= i < bodies.len() && !(#[trigger] bodies[i]).wf() {
        Some(GravityError::BadBody)
    } else {
        None
    }
}

/// The body after a step: its accumulator has taken the pulls, the rest is
/// as before.
pub open spec fn stepped(params: GravityParams, attractors: Seq<Attractor>, b: Body) -> Body {
    Body {
        position: b.position,
        mass: b.mass,
        acceleration: total_pull(params, attractors, b.position, b.mass, b.acceleration),
    }
}

/// The magnitude of a pull is not negative.
pub proof fn lemma_magnitude_bounds(params: GravityParams, ma: u32, mb: u32, d2: int)
    requires
        params.epsilon > 0,
        0 <= d2,
    ensures
        0 <= magnitude(params, ma, mb, d2) <= i64::MAX,
{
    let k = params.gain * ma * mb;
    assert(0 <= k) by (nonlinear_arith)
        requires
            k == params.gain * ma * mb,
            0 <= params.gain,
            0 <= ma,
            0 <= mb,
    ;
    vstd::arithmetic::div_mod::lemma_div_pos_is_pos(k, d2 + params.epsilon);
}

/// Each component of a pull points from the body towards the attractor, or
/// is zero, and is no larger than the magnitude of the pull.
pub proof fn lemma_pull_direction(params: GravityParams, a: Attractor, position: Vec3, mass: u32)
    requires
        params.epsilon > 0,
        a.position.in_bounds(),
        position.in_bounds(),
    ensures
        ({
            let f = pull(params, a, position, mass);
            let m = magnitude(params, a.mass, mass, a.position.dist2(position));
            &&& a.position.x >= position.x ==> 0 <= f.x <= m
            &&& a.position.x <= position.x ==> -m <= f.x <= 0
            &&& a.position.z >= position.z ==> 0 <= f.z <= m
            &&& a.position.z <= position.z ==> -m <= f.z <= 0
            &&& params.planar ==> f.y == 0
            &&& !params.planar && a.position.y >= position.y ==> 0 <= f.y <= m
            &&& !params.planar && a.position.y <= position.y ==> -m <= f.y <= 0
        }),
{
    let off = a.position.sub_spec(position);
    let d2 = off.norm2();
    assert(d2 == a.position.dist2(position));
    lemma_square_bound(off.x as int, 0x8000_0000);
    lemma_square_bound(off.y as int, 0x8000_0000);
    lemma_square_bound(off.z as int, 0x8000_0000);
    lemma_magnitude_bounds(params, a.mass, mass, d2);
    lemma_with_length_bound(off, magnitude(params, a.mass, mass, d2));
}

/// A pull has the inverse-square magnitude as its length, up to rounding: it
/// is never longer, and less than three grid units shorter. The latter holds
/// where attractor and body lie apart and, for a pull confined to the plane,
/// at the same height.
pub proof fn lemma_pull_strength(params: GravityParams, a: Attractor, position: Vec3, mass: u32)
    requires
        params.epsilon > 0,
        a.position.in_bounds(),
        position.in_bounds(),
    ensures
        ({
            let m = magnitude(params, a.mass, mass, a.position.dist2(position));
            &&& pull(params, a, position, mass).norm2() <= m * m
            &&& a.position != position && m >= 3 && (!params.planar || a.position.y
                == position.y) ==> (m - 3) * (m - 3) <= pull(params, a, position, mass).norm2()
        }),
{
    let off = a.position.sub_spec(position);
    let d2 = off.norm2();
    assert(d2 == a.position.dist2(position));
    lemma_square_bound(off.x as int, 0x8000_0000);
    lemma_square_bound(off.y as int, 0x8000_0000);
    lemma_square_bound(off.z as int, 0x8000_0000);
    let m = magnitude(params, a.mass, mass, d2);
    lemma_magnitude_bounds(params, a.mass, mass, d2);
    lemma_with_length_bound(off, m);
    let full = off.with_length(m);
    if params.planar {
        let flat = Vec3 { x: full.x, y: 0, z: full.z };
        assert(flat.norm2() <= full.norm2()) by (nonlinear_arith)
            requires
                flat.norm2() == flat.x * flat.x + flat.y * flat.y + flat.z * flat.z,
                full.norm2() == full.x * full.x + full.y * full.y + full.z * full.z,
                flat.x == full.x,
                flat.y == 0,
                flat.z == full.z,
        ;
    }
    if a.position != position {
        assert(d2 > 0) by (nonlinear_arith)
            requires
                d2 == off.x * off.x + off.y * off.y + off.z * off.z,
                off.x != 0 || off.y != 0 || off.z != 0,
        ;
    }
}

/// An attractor at distance `d` along the x axis pulls with the full
/// magnitude along that axis: for masses `ma` and `mb` that is
/// `gain * ma * mb / (d^2 + epsilon)`, as long as that fits an `i64`.
pub proof fn lemma_pull_along_axis(
    params: GravityParams,
    a: Attractor,
    position: Vec3,
    mass: u32,
    d: int,
)
    requires
        params.epsilon > 0,
        a.position.in_bounds(),
        position.in_bounds(),
        d > 0,
        a.position.x == position.x + d,
        a.position.y == position.y,
        a.position.z == position.z,
    ensures
        pull(params, a, position, mass) == (Vec3 {
            x: magnitude(params, a.mass, mass, d * d) as i64,
            y: 0,
            z: 0,
        }),
        0 <= magnitude(params, a.mass, mass, d * d) <= i64::MAX,
        (params.gain * a.mass * mass) / (d * d + params.epsilon) <= i64::MAX ==> magnitude(
            params,
            a.mass,
            mass,
            d * d,
        ) == (params.gain * a.mass * mass) / (d * d + params.epsilon),
{
    let off = a.position.sub_spec(position);
    assert(off == Vec3 { x: d as i64, y: 0, z: 0 });
    assert(off.norm2() == d * d) by (nonlinear_arith)
        requires
            off.norm2() == off.x * off.x + off.y * off.y + off.z * off.z,
            off.x == d,
            off.y == 0,
            off.z == 0,
    ;
    assert(0 <= d * d) by (nonlinear_arith);
    let m = magnitude(params, a.mass, mass, d * d);
    lemma_magnitude_bounds(params, a.mass, mass, d * d);
    lemma_with_length_along_x(off, m);
}

/// The inverse-square law: at twice the distance the pull is a quarter,
/// up to rounding and the softening term. With `near` the magnitude at
/// squared distance `d2` and `far` the magnitude at `4 * d2`, `far` is at
/// least `near / 4`, and `far * (4 * d2 + epsilon)` stays below
/// `(near + 1) * (d2 + epsilon)`.
pub proof fn lemma_inverse_square(params: GravityParams, ma: u32, mb: u32, d2: int)
    requires
        params.epsilon > 0,
        0 <= d2,
        magnitude(params, ma, mb, d2) < i64::MAX,
    ensures
        magnitude(params, ma, mb, d2) / 4 <= magnitude(params, ma, mb, 4 * d2),
        magnitude(params, ma, mb, 4 * d2) <= magnitude(params, ma, mb, d2),
        magnitude(params, ma, mb, 4 * d2) * (4 * d2 + params.epsilon) < (magnitude(
            params,
            ma,
            mb,
            d2,
        ) + 1) * (d2 + params.epsilon),
{
    let k = params.gain * ma * mb;
    let e = params.epsilon as int;
    assert(0 <= k) by (nonlinear_arith)
        requires
            k == params.gain * ma * mb,
            0 <= params.gain,
            0 <= ma,
            0 <= mb,
    ;
    let near = k / (d2 + e);
    let far = k / (4 * d2 + e);
    let quarter = k / (4 * (d2 + e));
    vstd::arithmetic::div_mod::lemma_div_is_ordered_by_denominator(k, d2 + e, 4 * d2 + e);
    vstd::arithmetic::div_mod::lemma_div_is_ordered_by_denominator(k, 4 * d2 + e, 4 * (d2 + e));
    vstd::arithmetic::div_mod::lemma_div_denominator(k, d2 + e, 4);
    assert((d2 + e) * 4 == 4 * (d2 + e));
    assert(quarter == near / 4);
    vstd::arithmetic::div_mod::lemma_fundamental_div_mod(k, d2 + e);
    vstd::arithmetic::div_mod::lemma_fundamental_div_mod(k, 4 * d2 + e);
    vstd::arithmetic::div_mod::lemma_mod_bound(k, d2 + e);
    vstd::arithmetic::div_mod::lemma_mod_bound(k, 4 * d2 + e);
    assert(far * (4 * d2 + e) <= k) by (nonlinear_arith)
        requires
            k == (4 * d2 + e) * far + k % (4 * d2 + e),
            0 <= k % (4 * d2 + e),
    ;
    assert(k < (near + 1) * (d2 + e)) by (nonlinear_arith)
        requires
            k == (d2 + e) * near + k % (d2 + e),
            k % (d2 + e) < d2 + e,
    ;
}

/// The inverse-square law for a pull in any direction. Of two attractors of
/// one mass in the same direction from a body, the second twice as far as
/// the first, the magnitudes are as `lemma_inverse_square` says, and each
/// pull has its magnitude as its length, up to three grid units.
pub proof fn lemma_inverse_square_pull(
    params: GravityParams,
    near: Attractor,
    far: Attractor,
    position: Vec3,
    mass: u32,
)
    requires
        params.epsilon > 0,
        near.position.in_bounds(),
        far.position.in_bounds(),
        position.in_bounds(),
        near.position != position,
        near.mass == far.mass,
        far.position.x - position.x == 2 * (near.position.x - position.x),
        far.position.y - position.y == 2 * (near.position.y - position.y),
        far.position.z - position.z == 2 * (near.position.z - position.z),
        !params.planar || near.position.y == position.y,
        magnitude(params, near.mass, mass, near.position.dist2(position)) < i64::MAX,
    ensures
        ({
            let d2 = near.position.dist2(position);
            let m_near = magnitude(params, near.mass, mass, d2);
            let m_far = magnitude(params, far.mass, mass, far.position.dist2(position));
            let f_near = pull(params, near, position, mass);
            let f_far = pull(params, far, position, mass);
            &&& far.position.dist2(position) == 4 * d2
            &&& m_near / 4 <= m_far <= m_near
            &&& m_far * (4 * d2 + params.epsilon) < (m_near + 1) * (d2 + params.epsilon)
            &&& f_near.norm2() <= m_near * m_near
            &&& f_far.norm2() <= m_far * m_far
            &&& m_near >= 3 ==> (m_near - 3) * (m_near - 3) <= f_near.norm2()
            &&& m_far >= 3 ==> (m_far - 3) * (m_far - 3) <= f_far.norm2()
        }),
{
    let d2 = near.position.dist2(position);
    let dx = near.position.x - position.x;
    let dy = near.position.y - position.y;
    let dz = near.position.z - position.z;
    assert(far.position.dist2(position) == 4 * d2) by (nonlinear_arith)
        requires
            d2 == dx * dx + dy * dy + dz * dz,
            far.position.dist2(position) == (2 * dx) * (2 * dx) + (2 * dy) * (2 * dy) + (2 * dz)
                * (2 * dz),
    ;
    assert(0 <= d2) by (nonlinear_arith)
        requires
            d2 == dx * dx + dy * dy + dz * dz,
    ;
    lemma_inverse_square(params, near.mass, mass, d2);
    lemma_pull_strength(params, near, position, mass);
    lemma_pull_strength(params, far, position, mass);
}

/// The sum of the pulls of all `attractors` on a body, component by
/// component, without saturation.
pub open spec fn pull_sum(
    params: GravityParams,
    attractors: Seq<Attractor>,
    position: Vec3,
    mass: u32,
) -> (int, int, int)
    decreases attractors.len(),
{
    if attractors.len() == 0 {
        (0, 0, 0)
    } else {
        let rest = pull_sum(params, attractors.drop_last(), position, mass);
        let f = pull(params, attractors.last(), position, mass);
        (rest.0 + f.x, rest.1 + f.y, rest.2 + f.z)
    }
}

/// Whether `start` plus `sum` fits the accumulator, component by component.
pub open spec fn sum_fits(start: Vec3, sum: (int, int, int)) -> bool {
    &&& i64::MIN <= start.x + sum.0 <= i64::MAX
    &&& i64::MIN <= start.y + sum.1 <= i64::MAX
    &&& i64::MIN <= start.z + sum.2 <= i64::MAX
}

/// The net pull is the vector sum of the single pulls: as long as no partial
/// sum leaves the range of the accumulator, the accumulator after a step is
/// what it was plus the sum of the pulls of all attractors.
pub proof fn lemma_total_pull_is_sum(
    params: GravityParams,
    attractors: Seq<Attractor>,
    position: Vec3,
    mass: u32,
    start: Vec3,
)
    requires
        forall|k: int|
            0 <= k <= attractors.len() ==> sum_fits(
                start,
                #[trigger] pull_sum(params, attractors.take(k), position, mass),
            ),
    ensures
        total_pull(params, attractors, position, mass, start).x == start.x + pull_sum(
            params,
            attractors,
            position,
            mass,
        ).0,
        total_pull(params, attractors, position, mass, start).y == start.y + pull_sum(
            params,
            attractors,
            position,
            mass,
        ).1,
        total_pull(params, attractors, position, mass, start).z == start.z + pull_sum(
            params,
            attractors,
            position,
            mass,
        ).2,
    decreases attractors.len(),
{
    assert(attractors.take(attractors.len() as int) =~= attractors);
    if attractors.len() > 0 {
        let rest = attractors.drop_last();
        assert forall|k: int| 0 <= k <= rest.len() implies sum_fits(
            start,
            #[trigger] pull_sum(params, rest.take(k), position, mass),
        ) by {
            assert(rest.take(k) =~= attractors.take(k));
        }
        lemma_total_pull_is_sum(params, rest, position, mass, start);
    }
}

/// Computes `magnitude`.
pub fn pull_magnitude(params: &GravityParams, ma: u32, mb: u32, d2: u64) -> (m: u64)
    requires
        params.epsilon > 0,
    ensures
        m == magnitude(*params, ma, mb, d2 as int),
        m <= i64::MAX,
{
    assert(params.gain * ma * mb <= 0xffff_ffff_ffff_ffff * 0xffff_ffff * 0xffff_ffff)
        by (nonlinear_arith)
        requires
            0 <= params.gain <= 0xffff_ffff_ffff_ffff,
            0 <= ma <= 0xffff_ffff,
            0 <= mb <= 0xffff_ffff,
    ;
    assert(params.gain * ma <= 0xffff_ffff_ffff_ffff * 0xffff_ffff) by (nonlinear_arith)
        requires
            0 <= params.gain <= 0xffff_ffff_ffff_ffff,
            0 <= ma <= 0xffff_ffff,
    ;
    let num: u128 = (params.gain as u128) * (ma as u128) * (mb as u128);
    let den: u128 = d2 as u128 + params.epsilon as u128;
    let raw: u128 = num / den;
    if raw > i64::MAX as u128 {
        i64::MAX as u64
    } else {
        raw as u64
    }
}

/// Computes `pull`.
pub fn pull_on(params: &GravityParams, a: &Attractor, position: &Vec3, mass: u32) -> (f: Vec3)
    requires
        params.epsilon > 0,
        a.position.in_bounds(),
        position.in_bounds(),
    ensures
        f == pull(*params, *a, *position, mass),
{
    let offset: Vec3 = a.position.offset_from(position);
    let d2: u64 = offset.length_squared();
    let mag: u64 = pull_magnitude(params, a.mass, mass, d2);
    let full: Vec3 = offset.scaled_to(mag);
    if params.planar {
        Vec3 { x: full.x, y: 0, z: full.z }
    } else {
        full
    }
}

fn all_attractors_valid(attractors: &Vec<Attractor>) -> (ok: bool)
    ensures
        ok <==> forall|i: int| 0 <= i < attractors.len() ==> (#[trigger] attractors[i]).wf(),
{
    let mut i: usize = 0;
    while i < attractors.len()
        invariant
            i <= attractors.len(),
            forall|k: int| 0 <= k < i ==> (#[trigger] attractors[k]).wf(),
        decreases attractors.len() - i,
    {
        if attractors[i].mass == 0 || !attractors[i].position.is_in_bounds() {
            return false;
        }
        i += 1;
    }
    true
}

fn all_bodies_valid(bodies: &Vec<Body>) -> (ok: bool)
    ensures
        ok <==> forall|i: int| 0 <= i < bodies.len() ==> (#[trigger] bodies[i]).wf(),
{
    let mut i: usize = 0;
    while i < bodies.len()
        invariant
            i <= bodies.len(),
            forall|k: int| 0 <= k < i ==> (#[trigger] bodies[k]).wf(),
        decreases bodies.len() - i,
    {
        if bodies[i].mass == 0 || !bodies[i].position.is_in_bounds() {
            return false;
        }
        i += 1;
    }
    true
}

/// Adds to the accumulator of `body` the pulls of all attractors, in order.
pub fn attract(params: &GravityParams, attractors: &Vec<Attractor>, body: &Body) -> (after: Body)
    requires
        params.epsilon > 0,
        body.position.in_bounds(),
        forall|i: int| 0 <= i < attractors.len() ==> (#[trigger] attractors[i]).wf(),
    ensures
        after == stepped(*params, attractors@, *body),
{
    let mut acc: Vec3 = body.acceleration;
    let mut j: usize = 0;
    while j < attractors.len()
        invariant
            j <= attractors.len(),
            params.epsilon > 0,
            body.position.in_bounds(),
            forall|i: int| 0 <= i < attractors.len() ==> (#[trigger] attractors[i]).wf(),
            acc == total_pull(
                *params,
                attractors@.take(j as int),
                body.position,
                body.mass,
                body.acceleration,
            ),
        decreases attractors.len() - j,
    {
        let f: Vec3 = pull_on(params, &attractors[j], &body.position, body.mass);
        proof {
            assert(attractors@.take(j + 1).drop_last() =~= attractors@.take(j as int));
        }
        acc = acc.saturating_add(&f);
        j += 1;
    }
    proof {
        assert(attractors@.take(attractors.len() as int) =~= attractors@);
    }
    Body { position: body.position, mass: body.mass, acceleration: acc }
}

/// One tick of attraction: adds to the accumulator of every body the pull of
/// every attractor. Nothing is changed where the step is refused.
pub fn apply_gravity(
    params: &GravityParams,
    attractors: &Vec<Attractor>,
    bodies: &mut Vec<Body>,
) -> (res: Result<(), GravityError>)
    ensures
        res is Err <==> gravity_error(*params, attractors@, old(bodies)@) is Some,
        res matches Err(e) ==> gravity_error(*params, attractors@, old(bodies)@) == Some(e)
            && final(bodies)@ == old(bodies)@,
        res is Ok ==> final(bodies)@.len() == old(bodies)@.len() && forall|i: int|
            0 <= i < old(bodies)@.len() ==> #[trigger] final(bodies)@[i] == stepped(
                *params,
                attractors@,
                old(bodies)@[i],
            ),
{
    if params.epsilon == 0 {
        return Err(GravityError::ZeroEpsilon);
    }
    if attractors.len() == 0 {
        return Err(GravityError::NoAttractors);
    }
    if bodies.len() == 0 {
        return Err(GravityError::NoBodies);
    }
    if !all_attractors_valid(attractors) {
        return Err(GravityError::BadAttractor);
    }
    if !all_bodies_valid(bodies) {
        return Err(GravityError::BadBody);
    }
    let n: usize = bodies.len();
    let mut i: usize = 0;
    while i < n
        invariant
            i <= n,
            n == bodies.len(),
            n == old(bodies).len(),
            params.epsilon > 0,
            forall|k: int| 0 <= k < attractors.len() ==> (#[trigger] attractors[k]).wf(),
            forall|k: int| 0 <= k < n ==> (#[trigger] old(bodies)@[k]).wf(),
            forall|k: int|
                0 <= k < i ==> #[trigger] bodies@[k] == stepped(
                    *params,
                    attractors@,
                    old(bodies)@[k],
                ),
            forall|k: int| i <= k < n ==> #[trigger] bodies@[k] == old(bodies)@[k],
        decreases n - i,
    {
        let before: Body = bodies[i];
        let after: Body = attract(params, attractors, &before);
        bodies.set(i, after);
        i += 1;
    }
    Ok(())
}

} // verus!
