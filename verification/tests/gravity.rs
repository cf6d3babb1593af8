use jumpy::gravity::{
    apply_gravity, attract, pull_magnitude, pull_on, Attractor, Body, GravityError, GravityParams,
    DEFAULT_EPSILON, NEWTON_GAIN, UNIT_GAIN,
};
use jumpy::placement::{place, BoxRegion};
use jumpy::vector::{Vec3, COORD_LIMIT, SCALE};
use rand::rngs::StdRng;
use rand::SeedableRng;

fn v(x: i64, y: i64, z: i64) -> Vec3 {
    Vec3 { x, y, z }
}

fn unit() -> GravityParams {
    GravityParams { gain: UNIT_GAIN, epsilon: DEFAULT_EPSILON, planar: false }
}

fn body_at(position: Vec3, mass: u32) -> Body {
    Body { position, mass, acceleration: v(0, 0, 0) }
}

#[test]
fn constants_follow_the_grid_scale() {
    assert_eq!(UNIT_GAIN as i128, (SCALE as i128).pow(3));
    assert_eq!(DEFAULT_EPSILON as f64, ((SCALE as f64) * (SCALE as f64) * 0.001).floor());
    assert_eq!(NEWTON_GAIN as f64, (6.6743e-11 * (SCALE as f64).powi(3)).round());
}

#[test]
fn equal_masses_on_an_axis_pull_with_the_inverse_square_magnitude() {
    let a = Attractor { position: v(100 * SCALE, 0, 0), mass: 1000 };
    let f = pull_on(&unit(), &a, &v(0, 0, 0), 1000);
    // 2^48 * 1000 * 1000 / ((100 * 65536)^2 + 4294967)
    assert_eq!(f, v(6553599, 0, 0));
    assert_eq!(pull_magnitude(&unit(), 1000, 1000, (100 * SCALE * 100 * SCALE) as u64), 6553599);
    let world = f.x as f64 / SCALE as f64;
    assert!((world - 1000.0 * 1000.0 / (100.0 * 100.0 + 0.001)).abs() < 1e-4);
}

#[test]
fn pull_points_from_the_body_to_the_attractor() {
    let a = Attractor { position: v(-100 * SCALE, 0, 0), mass: 1000 };
    assert_eq!(pull_on(&unit(), &a, &v(0, 0, 0), 1000), v(-6553599, 0, 0));
    let a = Attractor { position: v(3 * SCALE, 7 * SCALE, -4 * SCALE), mass: 5000 };
    assert_eq!(pull_on(&unit(), &a, &v(0, 0, 0), 1), v(1544250, 3603250, -2059000));
    let a = Attractor { position: v(3 * SCALE, 0, 4 * SCALE), mass: 5000 };
    assert_eq!(pull_on(&unit(), &a, &v(0, 0, 0), 1), v(7864005, 0, 10485340));
}

#[test]
fn doubling_the_distance_quarters_the_pull() {
    let origin = v(0, 0, 0);
    let at_100 = Attractor { position: v(100 * SCALE, 0, 0), mass: 1000 };
    let at_200 = Attractor { position: v(200 * SCALE, 0, 0), mass: 1000 };
    let near = pull_on(&unit(), &at_100, &origin, 1000);
    let far = pull_on(&unit(), &at_200, &origin, 1000);
    assert_eq!(far, v(1638399, 0, 0));
    let ratio = near.x as f64 / far.x as f64;
    assert!((ratio - 4.0).abs() < 1e-5);
    assert!(far.x >= near.x / 4);
}

#[test]
fn planar_pull_has_no_vertical_part() {
    let params = GravityParams { planar: true, ..unit() };
    let a = Attractor { position: v(3 * SCALE, 7 * SCALE, 4 * SCALE), mass: 5000 };
    assert_eq!(pull_on(&params, &a, &v(0, 0, 0), 1), v(1544250, 0, 2059000));
}

#[test]
fn zero_distance_gives_no_pull() {
    let a = Attractor { position: v(5, 5, 5), mass: 5000 };
    assert_eq!(pull_on(&unit(), &a, &v(5, 5, 5), 2), v(0, 0, 0));
    assert_eq!(pull_magnitude(&unit(), 5000, 2, 0), 655360045166);
}

#[test]
fn newton_gain_scales_by_the_gravitational_constant() {
    let params = GravityParams { gain: NEWTON_GAIN, epsilon: DEFAULT_EPSILON, planar: true };
    let a = Attractor { position: v(10 * SCALE, 0, 0), mass: 335103216 };
    assert_eq!(pull_on(&params, &a, &v(0, 0, 0), 4), v(58, 0, 0));
}

#[test]
fn magnitude_is_capped() {
    let params = GravityParams { gain: u64::MAX, epsilon: 1, planar: false };
    let a = Attractor { position: v(1, 0, 0), mass: u32::MAX };
    assert_eq!(pull_on(&params, &a, &v(0, 0, 0), u32::MAX), v(i64::MAX, 0, 0));
}

#[test]
fn step_adds_to_the_accumulator_and_keeps_the_rest() {
    let attractors = vec![
        Attractor { position: v(100 * SCALE, 0, 0), mass: 1000 },
        Attractor { position: v(-200 * SCALE, 0, 0), mass: 1000 },
    ];
    let mut bodies = vec![
        Body { position: v(0, 0, 0), mass: 1000, acceleration: v(10, 20, 30) },
        body_at(v(0, 0, 0), 1000),
    ];
    assert_eq!(apply_gravity(&unit(), &attractors, &mut bodies), Ok(()));
    assert_eq!(bodies[0].acceleration, v(10 + 6553599 - 1638399, 20, 30));
    assert_eq!(bodies[0].position, v(0, 0, 0));
    assert_eq!(bodies[0].mass, 1000);
    assert_eq!(bodies[1].acceleration, v(6553599 - 1638399, 0, 0));
    // A second tick without a reset accumulates again.
    assert_eq!(apply_gravity(&unit(), &attractors, &mut bodies), Ok(()));
    assert_eq!(bodies[1].acceleration, v(2 * (6553599 - 1638399), 0, 0));
}

#[test]
fn accumulator_saturates() {
    let attractors = vec![Attractor { position: v(100 * SCALE, 0, 0), mass: 1000 }];
    let start = Body { position: v(0, 0, 0), mass: 1000, acceleration: v(i64::MAX - 5, 0, 0) };
    let after = attract(&unit(), &attractors, &start);
    assert_eq!(after.acceleration, v(i64::MAX, 0, 0));
}

#[test]
fn step_refuses_bad_input_and_changes_nothing() {
    let good = vec![Attractor { position: v(SCALE, 0, 0), mass: 1 }];
    let mut bodies = vec![Body { position: v(0, 0, 0), mass: 1, acceleration: v(1, 2, 3) }];
    let before = bodies.clone();

    let zero_eps = GravityParams { gain: 1, epsilon: 0, planar: false };
    assert_eq!(apply_gravity(&zero_eps, &good, &mut bodies), Err(GravityError::ZeroEpsilon));
    assert_eq!(apply_gravity(&zero_eps, &vec![], &mut bodies), Err(GravityError::ZeroEpsilon));
    assert_eq!(apply_gravity(&unit(), &vec![], &mut bodies), Err(GravityError::NoAttractors));
    assert_eq!(apply_gravity(&unit(), &vec![], &mut vec![]), Err(GravityError::NoAttractors));
    assert_eq!(apply_gravity(&unit(), &good, &mut vec![]), Err(GravityError::NoBodies));

    let massless = vec![good[0], Attractor { position: v(0, 0, 0), mass: 0 }];
    assert_eq!(apply_gravity(&unit(), &massless, &mut bodies), Err(GravityError::BadAttractor));
    let far = vec![Attractor { position: v(COORD_LIMIT + 1, 0, 0), mass: 1 }];
    assert_eq!(apply_gravity(&unit(), &far, &mut bodies), Err(GravityError::BadAttractor));
    assert_eq!(bodies, before);

    let mut bad_bodies = vec![bodies[0], body_at(v(0, -COORD_LIMIT - 1, 0), 1)];
    let bad_before = bad_bodies.clone();
    assert_eq!(apply_gravity(&unit(), &good, &mut bad_bodies), Err(GravityError::BadBody));
    assert_eq!(bad_bodies, bad_before);
    let mut massless_body = vec![body_at(v(0, 0, 0), 0)];
    assert_eq!(
        apply_gravity(&unit(), &massless, &mut massless_body),
        Err(GravityError::BadAttractor)
    );
    assert_eq!(apply_gravity(&unit(), &good, &mut massless_body), Err(GravityError::BadBody));
}

#[test]
fn positions_at_the_coordinate_limit_are_accepted() {
    let corner = v(COORD_LIMIT, COORD_LIMIT, COORD_LIMIT);
    let attractors = vec![Attractor { position: corner, mass: 1 }];
    let mut bodies = vec![body_at(v(-COORD_LIMIT, -COORD_LIMIT, -COORD_LIMIT), 1)];
    assert_eq!(apply_gravity(&unit(), &attractors, &mut bodies), Ok(()));
    // 2^48 / (3 * 2^62 + eps) rounds down to zero.
    assert_eq!(bodies[0].acceleration, v(0, 0, 0));
}

#[test]
fn three_attractors_pull_a_unit_body_by_the_sum_of_their_pulls() {
    let mut rng = StdRng::seed_from_u64(42);
    let region = BoxRegion {
        min: v(-500 * SCALE, 0, -500 * SCALE),
        max: v(500 * SCALE, 1, 500 * SCALE),
    };
    let spots = place(&mut rng, 3, &region, 31 * SCALE, 51 * SCALE, 30).unwrap();
    assert_eq!(spots.len(), 3);
    let masses = [5000u32, 10000, 15000];
    let attractors: Vec<Attractor> = spots
        .iter()
        .zip(masses)
        .map(|(s, mass)| Attractor { position: s.position, mass })
        .collect();
    assert!(attractors[0].position != attractors[1].position);
    assert!(attractors[1].position != attractors[2].position);
    assert!(attractors[0].position != attractors[2].position);

    let mut bodies = vec![body_at(v(0, 0, 0), 1)];
    assert_eq!(apply_gravity(&unit(), &attractors, &mut bodies), Ok(()));

    // The sum of the three pulls, each taken by itself.
    let mut sum = v(0, 0, 0);
    for a in &attractors {
        sum = sum.saturating_add(&pull_on(&unit(), a, &v(0, 0, 0), 1));
    }
    let got = bodies[0].acceleration;
    assert_eq!(got, sum);
    assert_eq!(got.y, 0);

    // The same sum recomputed in floating point, in world units.
    let mut float_sum = [0f64; 3];
    for a in &attractors {
        let w = [a.position.x, a.position.y, a.position.z].map(|c| c as f64 / SCALE as f64);
        let d = (w[0] * w[0] + w[1] * w[1] + w[2] * w[2]).sqrt();
        let m = a.mass as f64 / (d * d + 0.001);
        for k in 0..3 {
            float_sum[k] += w[k] / d * m;
        }
    }
    let got_world = [got.x, got.y, got.z].map(|c| c as f64 / SCALE as f64);
    for k in 0..3 {
        // Each pull is rounded down twice, by less than a grid unit each time.
        assert!((got_world[k] - float_sum[k]).abs() < 8.0 / SCALE as f64);
    }
}

#[test]
fn pull_is_never_stronger_than_its_magnitude() {
    let params = unit();
    for (x, y, z) in [(1, 1, 1), (3, -7, 4), (-100, 2, 0), (65536, 65537, -65535), (0, 0, 9)] {
        let a = Attractor { position: v(x, y, z), mass: 40000 };
        let f = pull_on(&params, &a, &v(0, 0, 0), 3);
        let d2 = (x * x + y * y + z * z) as u64;
        let m = pull_magnitude(&params, 40000, 3, d2) as i128;
        let n2 = (f.x as i128).pow(2) + (f.y as i128).pow(2) + (f.z as i128).pow(2);
        assert!(n2 <= m * m);
        assert!(n2 > 0);
        assert_eq!(f.x.signum(), x.signum());
        assert_eq!(f.y.signum(), y.signum());
        assert_eq!(f.z.signum(), z.signum());
    }
}

#[test]
fn short_range_pull_off_the_axis_has_its_full_magnitude() {
    // One grid unit along x and along z: the pull is the magnitude divided
    // by the square root of two on each of them.
    let a = Attractor { position: v(1, 0, 1), mass: 1 };
    let f = pull_on(&unit(), &a, &v(0, 0, 0), 1);
    assert_eq!(pull_magnitude(&unit(), 1, 1, 2), 65535973);
    assert_eq!(f, v(46340930, 0, 46340930));
    let length = ((f.x as f64).powi(2) + (f.z as f64).powi(2)).sqrt();
    assert!((length - 65535973.0).abs() < 3.0);
}

#[test]
fn doubling_the_distance_quarters_the_pull_in_any_direction() {
    let origin = v(0, 0, 0);
    let near = Attractor { position: v(30 * SCALE, 10 * SCALE, -20 * SCALE), mass: 1000 };
    let far = Attractor { position: v(60 * SCALE, 20 * SCALE, -40 * SCALE), mass: 1000 };
    let f_near = pull_on(&unit(), &near, &origin, 1000);
    let f_far = pull_on(&unit(), &far, &origin, 1000);
    assert_eq!(f_near, v(37532614, 12510871, -25021743));
    assert_eq!(f_far, v(9383158, 3127719, -6255439));
    let length = |f: Vec3| {
        ((f.x as f64).powi(2) + (f.y as f64).powi(2) + (f.z as f64).powi(2)).sqrt()
    };
    let ratio = length(f_near) / length(f_far);
    // (4 d^2 + eps) / (d^2 + eps) with d^2 = 1400 and eps = 0.001.
    assert!((ratio - (5600.0 + 0.001) / (1400.0 + 0.001)).abs() < 1e-6);
    assert!((length(f_near) - 46811395.0).abs() < 3.0);
    assert!((length(f_far) - 11702855.0).abs() < 3.0);
}
