//! Placing bodies so that none overlaps another.
//!
//! Candidates are taken one by one. A candidate is accepted if it keeps, from
//! every body accepted before it, a distance of at least the sum of the two
//! exclusion radii. The number of candidates tried is capped, so fewer bodies
//! than were asked for may come back.

use crate::random::draw_range;
use crate::vector::{lemma_square_bound, Vec3, COORD_LIMIT, SCALE};
use rand::rngs::StdRng;
use vstd::prelude::*;

verus! {

/// Number of planets of a world.
pub const NUM_PLANETS: usize = 20;

/// Candidates tried per planet asked for.
pub const ATTEMPTS_PER_BODY: usize = 10;

/// Planets are spawned with `x` and `z` in `[-500, 500)` world units.
pub const SPAWN_LOW: i64 = -500 * SCALE;

pub const SPAWN_HIGH: i64 = 500 * SCALE;

/// A planet of scale `s` excludes others within `2 * s`; scales are drawn
/// from `[15.5, 25.5)` world units.
pub const PLANET_RADIUS_LOW: i64 = 31 * SCALE;

pub const PLANET_RADIUS_HIGH: i64 = 51 * SCALE;

/// Number of stars of the background.
pub const STAR_COUNT: usize = 2500;

/// Stars lie within 250 world units of the plane of play.
pub const STAR_LOW_Y: i64 = -250 * SCALE;

pub const STAR_HIGH_Y: i64 = 250 * SCALE;

/// Stars have a radius of 0.1 to 0.5 world units.
pub const STAR_SIZE_LOW: i64 = 6554;

pub const STAR_SIZE_HIGH: i64 = 32768;

/// A body with the radius inside which no other body may be.
#[derive(Clone, Copy, Debug, PartialEq, Eq, Structural)]
pub struct Placement {
    pub position: Vec3,
    pub radius: i64,
}

/// An axis-aligned box; on each axis it holds `min <= c < max`.
#[derive(Clone, Copy, Debug, PartialEq, Eq, Structural)]
pub struct BoxRegion {
    pub min: Vec3,
    pub max: Vec3,
}

/// Why nothing was placed.
#[derive(Clone, Copy, Debug, PartialEq, Eq, Structural)]
pub enum PlacementError {
    /// A corner of the region lies outside the coordinate limit.
    RegionOutOfBounds,
    /// On some axis the region holds no coordinate.
    EmptyRegion,
    /// No radius lies in the range given, or one of them is negative or
    /// above the coordinate limit.
    BadRadiusRange,
}

impl Placement {
    /// The position is within the coordinate limit, and the radius is not
    /// negative and not above it.
    pub open spec fn wf(self) -> bool {
        self.position.in_bounds() && 0 <= self.radius <= COORD_LIMIT
    }

    /// Tests `wf`.
    pub fn is_valid(&self) -> (b: bool)
        ensures
            b == self.wf(),
    {
        self.position.is_in_bounds() && 0 <= self.radius && self.radius <= COORD_LIMIT
    }
}

impl BoxRegion {
    /// Both corners are within the coordinate limit and the box is not
    /// empty.
    pub open spec fn wf(self) -> bool {
        self.error() is None
    }

    /// Which error, if any, the region gives.
    pub open spec fn error(self) -> Option<PlacementError> {
        if !self.min.in_bounds() || !self.max.in_bounds() {
            Some(PlacementError::RegionOutOfBounds)
        } else if self.min.x >= self.max.x || self.min.y >= self.max.y || self.min.z
            >= self.max.z {
            Some(PlacementError::EmptyRegion)
        } else {
            None
        }
    }

    /// Whether `p` lies in the box.
    pub open spec fn contains(self, p: Vec3) -> bool {
        &&& self.min.x <= p.x < self.max.x
        &&& self.min.y <= p.y < self.max.y
        &&& self.min.z <= p.z < self.max.z
    }

    /// Checks the region.
    pub fn validate(&self) -> (res: Result<(), PlacementError>)
        ensures
            res is Ok <==> self.wf(),
            res matches Err(e) ==> self.error() == Some(e),
    {
        if !self.min.is_in_bounds() || !self.max.is_in_bounds() {
            Err(PlacementError::RegionOutOfBounds)
        } else if self.min.x >= self.max.x || self.min.y >= self.max.y || self.min.z
            >= self.max.z {
            Err(PlacementError::EmptyRegion)
        } else {
            Ok(())
        }
    }

    /// Draws a point of the box, each coordinate by itself.
    pub fn draw(&self, rng: &mut StdRng) -> (p: Vec3)
        requires
            self.wf(),
        ensures
            self.contains(p),
            p.in_bounds(),
    {
        let x: i64 = draw_range(rng, self.min.x, self.max.x);
        let y: i64 = draw_range(rng, self.min.y, self.max.y);
        let z: i64 = draw_range(rng, self.min.z, self.max.z);
        Vec3 { x, y, z }
    }
}

/// The two bodies are at least the sum of their radii apart.
pub open spec fn separated(a: Placement, b: Placement) -> bool {
    a.position.dist2(b.position) >= (a.radius + b.radius) * (a.radius + b.radius)
}

/// `cand` is separated from every body of `placed`.
pub open spec fn fits(placed: Seq<Placement>, cand: Placement) -> bool {
    forall|i: int| 0 <= i < placed.len() ==> separated(#[trigger] placed[i], cand)
}

/// Every two bodies of `s` are separated.
pub open spec fn pairwise_separated(s: Seq<Placement>) -> bool {
    forall|i: int, j: int| 0 <= i < j < s.len() ==> separated(#[trigger] s[i], #[trigger] s[j])
}

/// The bodies accepted from `cands`, taken in order, when `count` are asked
/// for: a candidate is accepted while fewer than `count` are, if it is well
/// formed and separated from all accepted before it.
pub open spec fn accepted(cands: Seq<Placement>, count: nat) -> Seq<Placement>
    decreases cands.len(),
{
    if cands.len() == 0 {
        Seq::empty()
    } else {
        let prev = accepted(cands.drop_last(), count);
        let c = cands.last();
        if prev.len() < count && c.wf() && fits(prev, c) {
            prev.push(c)
        } else {
            prev
        }
    }
}

/// Whether `c` is a candidate that `place` may draw: a point of `region`
/// with a radius from `radius_min..radius_max`.
pub open spec fn drawn_in(
    region: BoxRegion,
    radius_min: i64,
    radius_max: i64,
    c: Placement,
) -> bool {
    region.contains(c.position) && radius_min <= c.radius < radius_max
}

/// The slab of unit height on the plane `y = 0` in which planets are laid
/// out.
pub open spec fn planet_region() -> BoxRegion {
    BoxRegion {
        min: Vec3 { x: SPAWN_LOW, y: 0, z: SPAWN_LOW },
        max: Vec3 { x: SPAWN_HIGH, y: 1, z: SPAWN_HIGH },
    }
}

/// Which error, if any, the arguments of `place` give.
pub open spec fn place_error(region: BoxRegion, radius_min: i64, radius_max: i64) -> Option<
    PlacementError,
> {
    if region.error() is Some {
        region.error()
    } else if radius_min < 0 || radius_min >= radius_max || radius_max > COORD_LIMIT {
        Some(PlacementError::BadRadiusRange)
    } else {
        None
    }
}

/// At most `count` bodies are accepted, and no more than there are
/// candidates.
pub proof fn lemma_accepted_len(cands: Seq<Placement>, count: nat)
    ensures
        accepted(cands, count).len() <= count,
        accepted(cands, count).len() <= cands.len(),
    decreases cands.len(),
{
    if cands.len() > 0 {
        lemma_accepted_len(cands.drop_last(), count);
    }
}

/// Every accepted body is one of the candidates, and well formed.
pub proof fn lemma_accepted_members(cands: Seq<Placement>, count: nat, i: int)
    requires
        0 <= i < accepted(cands, count).len(),
    ensures
        accepted(cands, count)[i].wf(),
        exists|k: int| 0 <= k < cands.len() && cands[k] == accepted(cands, count)[i],
    decreases cands.len(),
{
    if cands.len() > 0 {
        let rest = cands.drop_last();
        let prev = accepted(rest, count);
        if i < prev.len() {
            lemma_accepted_members(rest, count, i);
            let k = choose|k: int| 0 <= k < rest.len() && rest[k] == prev[i];
            assert(cands[k] == accepted(cands, count)[i]);
        } else {
            assert(cands[cands.len() - 1] == accepted(cands, count)[i]);
        }
    }
}

/// No two accepted bodies are closer than the sum of their radii.
pub proof fn lemma_accepted_separated(cands: Seq<Placement>, count: nat)
    ensures
        pairwise_separated(accepted(cands, count)),
    decreases cands.len(),
{
    if cands.len() > 0 {
        lemma_accepted_separated(cands.drop_last(), count);
    }
}

/// Tests `separated`.
pub fn is_separated(a: &Placement, b: &Placement) -> (ok: bool)
    requires
        a.wf(),
        b.wf(),
    ensures
        ok == separated(*a, *b),
{
    let d: u64 = a.position.distance_squared(&b.position);
    let r: i64 = a.radius + b.radius;
    proof {
        lemma_square_bound(r as int, 0x8000_0000);
    }
    let rr: u64 = (r * r) as u64;
    d >= rr
}

/// Tests `fits`.
pub fn fits_among(placed: &Vec<Placement>, cand: &Placement) -> (ok: bool)
    requires
        cand.wf(),
        forall|i: int| 0 <= i < placed.len() ==> (#[trigger] placed[i]).wf(),
    ensures
        ok == fits(placed@, *cand),
{
    let mut i: usize = 0;
    while i < placed.len()
        invariant
            i <= placed.len(),
            cand.wf(),
            forall|k: int| 0 <= k < placed.len() ==> (#[trigger] placed[k]).wf(),
            forall|k: int| 0 <= k < i ==> separated(#[trigger] placed[k], *cand),
        decreases placed.len() - i,
    {
        if !is_separated(&placed[i], cand) {
            return false;
        }
        i += 1;
    }
    true
}

/// Accepts candidates in order until `count` are accepted or the candidates
/// are used up.
pub fn place_from(candidates: &Vec<Placement>, count: usize) -> (placed: Vec<Placement>)
    ensures
        placed@ == accepted(candidates@, count as nat),
        placed.len() <= count,
        pairwise_separated(placed@),
{
    let mut placed: Vec<Placement> = Vec::new();
    let mut i: usize = 0;
    while i < candidates.len()
        invariant
            i <= candidates.len(),
            placed@ == accepted(candidates@.take(i as int), count as nat),
            forall|k: int| 0 <= k < placed.len() ==> (#[trigger] placed[k]).wf(),
        decreases candidates.len() - i,
    {
        let cand: Placement = candidates[i];
        proof {
            assert(candidates@.take(i + 1).drop_last() =~= candidates@.take(i as int));
            lemma_accepted_len(candidates@.take(i as int), count as nat);
        }
        if placed.len() < count && cand.is_valid() && fits_among(&placed, &cand) {
            placed.push(cand);
        }
        i += 1;
    }
    proof {
        assert(candidates@.take(candidates.len() as int) =~= candidates@);
        lemma_accepted_len(candidates@, count as nat);
        lemma_accepted_separated(candidates@, count as nat);
    }
    placed
}

/// Places up to `count` bodies in `region`, with radii drawn from
/// `radius_min..radius_max`, trying at most `max_attempts` candidates.
///
/// Candidates are drawn one at a time, as long as fewer than `count` bodies
/// are placed and fewer than `max_attempts` candidates were drawn; what comes
/// back is what `accepted` keeps of the candidates drawn. The first candidate
/// is always kept.
pub fn place(
    rng: &mut StdRng,
    count: usize,
    region: &BoxRegion,
    radius_min: i64,
    radius_max: i64,
    max_attempts: usize,
) -> (res: Result<Vec<Placement>, PlacementError>)
    ensures
        res is Err <==> place_error(*region, radius_min, radius_max) is Some,
        res matches Err(e) ==> place_error(*region, radius_min, radius_max) == Some(e),
        res matches Ok(placed) ==> {
            &&& placed.len() <= count
            &&& placed.len() <= max_attempts
            &&& pairwise_separated(placed@)
            &&& forall|i: int|
                0 <= i < placed.len() ==> region.contains((#[trigger] placed[i]).position)
                    && radius_min <= placed[i].radius < radius_max
            &&& count > 0 && max_attempts > 0 ==> placed.len() >= 1
            &&& exists|cands: Seq<Placement>|
                {
                    &&& cands.len() <= max_attempts
                    &&& forall|k: int|
                        0 <= k < cands.len() ==> drawn_in(
                            *region,
                            radius_min,
                            radius_max,
                            #[trigger] cands[k],
                        )
                    &&& placed@ == #[trigger] accepted(cands, count as nat)
                    &&& cands.len() < max_attempts ==> placed.len() == count
                }
        },
{
    match region.validate() {
        Ok(()) => {},
        Err(e) => {
            return Err(e);
        },
    }
    if radius_min < 0 || radius_min >= radius_max || radius_max > COORD_LIMIT {
        return Err(PlacementError::BadRadiusRange);
    }
    let mut placed: Vec<Placement> = Vec::new();
    let mut attempts: usize = 0;
    let ghost mut drawn: Seq<Placement> = Seq::empty();
    while placed.len() < count && attempts < max_attempts
        invariant
            region.wf(),
            0 <= radius_min < radius_max <= COORD_LIMIT,
            attempts <= max_attempts,
            drawn.len() == attempts,
            forall|k: int|
                0 <= k < drawn.len() ==> drawn_in(
                    *region,
                    radius_min,
                    radius_max,
                    #[trigger] drawn[k],
                ),
            placed@ == accepted(drawn, count as nat),
            placed.len() <= count,
            placed.len() <= attempts,
            attempts > 0 ==> placed.len() >= 1,
            pairwise_separated(placed@),
            forall|i: int| 0 <= i < placed.len() ==> (#[trigger] placed[i]).wf(),
            forall|i: int|
                0 <= i < placed.len() ==> region.contains((#[trigger] placed[i]).position)
                    && radius_min <= placed[i].radius < radius_max,
        decreases max_attempts - attempts,
    {
        attempts += 1;
        let position: Vec3 = region.draw(rng);
        let radius: i64 = draw_range(rng, radius_min, radius_max);
        let cand = Placement { position, radius };
        proof {
            assert(drawn.push(cand).drop_last() =~= drawn);
            drawn = drawn.push(cand);
        }
        if fits_among(&placed, &cand) {
            placed.push(cand);
        }
    }
    Ok(placed)
}

/// Draws `count` bodies in `region`, with sizes from `size_min..size_max`,
/// wherever they fall: they may overlap.
pub fn scatter(
    rng: &mut StdRng,
    count: usize,
    region: &BoxRegion,
    size_min: i64,
    size_max: i64,
) -> (res: Result<Vec<Placement>, PlacementError>)
    ensures
        res is Err <==> place_error(*region, size_min, size_max) is Some,
        res matches Err(e) ==> place_error(*region, size_min, size_max) == Some(e),
        res matches Ok(placed) ==> {
            &&& placed.len() == count
            &&& forall|i: int|
                0 <= i < placed.len() ==> region.contains((#[trigger] placed[i]).position)
                    && size_min <= placed[i].radius < size_max
        },
{
    match region.validate() {
        Ok(()) => {},
        Err(e) => {
            return Err(e);
        },
    }
    if size_min < 0 || size_min >= size_max || size_max > COORD_LIMIT {
        return Err(PlacementError::BadRadiusRange);
    }
    let mut placed: Vec<Placement> = Vec::new();
    while placed.len() < count
        invariant
            region.wf(),
            size_min < size_max,
            placed.len() <= count,
            forall|i: int|
                0 <= i < placed.len() ==> region.contains((#[trigger] placed[i]).position)
                    && size_min <= placed[i].radius < size_max,
        decreases count - placed.len(),
    {
        let position: Vec3 = region.draw(rng);
        let radius: i64 = draw_range(rng, size_min, size_max);
        placed.push(Placement { position, radius });
    }
    Ok(placed)
}

/// Scatters the stars of the background: `STAR_COUNT` of them, in a slab
/// around the plane of play.
pub fn star_layout(rng: &mut StdRng) -> (stars: Vec<Placement>)
    ensures
        stars.len() == STAR_COUNT,
        forall|i: int|
            0 <= i < stars.len() ==> {
                &&& SPAWN_LOW <= (#[trigger] stars[i]).position.x < SPAWN_HIGH
                &&& STAR_LOW_Y <= stars[i].position.y < STAR_HIGH_Y
                &&& SPAWN_LOW <= stars[i].position.z < SPAWN_HIGH
                &&& STAR_SIZE_LOW <= stars[i].radius < STAR_SIZE_HIGH
            },
{
    let region = BoxRegion {
        min: Vec3 { x: SPAWN_LOW, y: STAR_LOW_Y, z: SPAWN_LOW },
        max: Vec3 { x: SPAWN_HIGH, y: STAR_HIGH_Y, z: SPAWN_HIGH },
    };
    match scatter(rng, STAR_COUNT, &region, STAR_SIZE_LOW, STAR_SIZE_HIGH) {
        Ok(stars) => stars,
        Err(_) => {
            // The constants above pass the checks of `scatter`.
            proof {
                assert(false);
            }
            Vec::new()
        },
    }
}

/// Lays out the planets of a world: up to `NUM_PLANETS` of them on the plane
/// `y = 0`, trying `ATTEMPTS_PER_BODY` candidates for each.
///
/// What comes back is what `accepted` keeps of the candidates drawn in
/// `planet_region`; fewer than `NUM_PLANETS` come back only where all the
/// attempts were used, and at least one planet always does.
pub fn planet_layout(rng: &mut StdRng) -> (planets: Vec<Placement>)
    ensures
        1 <= planets.len() <= NUM_PLANETS,
        pairwise_separated(planets@),
        forall|i: int|
            0 <= i < planets.len() ==> {
                &&& SPAWN_LOW <= (#[trigger] planets[i]).position.x < SPAWN_HIGH
                &&& planets[i].position.y == 0
                &&& SPAWN_LOW <= planets[i].position.z < SPAWN_HIGH
                &&& PLANET_RADIUS_LOW <= planets[i].radius < PLANET_RADIUS_HIGH
            },
        exists|cands: Seq<Placement>|
            {
                &&& cands.len() <= NUM_PLANETS * ATTEMPTS_PER_BODY
                &&& forall|k: int|
                    0 <= k < cands.len() ==> drawn_in(
                        planet_region(),
                        PLANET_RADIUS_LOW,
                        PLANET_RADIUS_HIGH,
                        #[trigger] cands[k],
                    )
                &&& planets@ == #[trigger] accepted(cands, NUM_PLANETS as nat)
                &&& cands.len() < NUM_PLANETS * ATTEMPTS_PER_BODY ==> planets.len() == NUM_PLANETS
            },
{
    let region = BoxRegion {
        min: Vec3 { x: SPAWN_LOW, y: 0, z: SPAWN_LOW },
        max: Vec3 { x: SPAWN_HIGH, y: 1, z: SPAWN_HIGH },
    };
    assert(region == planet_region());
    match place(
        rng,
        NUM_PLANETS,
        &region,
        PLANET_RADIUS_LOW,
        PLANET_RADIUS_HIGH,
        NUM_PLANETS * ATTEMPTS_PER_BODY,
    ) {
        Ok(planets) => planets,
        Err(_) => {
            // The region and the radii above pass the checks of `place`.
            proof {
                assert(false);
            }
            Vec::new()
        },
    }
}

} // verus!
