use jumpy::controls::{
    steer, Keys, Steering, SPACESHIP_ROLL_SPEED, SPACESHIP_ROTATION_SPEED, SPACESHIP_SPEED,
};
use jumpy::placement::{scatter, star_layout, BoxRegion, PlacementError, STAR_COUNT};
use jumpy::vector::{Vec3, SCALE};
use rand::rngs::StdRng;
use rand::SeedableRng;

fn none() -> Keys {
    Keys {
        turn_left: false,
        turn_right: false,
        backward: false,
        forward: false,
        roll_left: false,
        roll_right: false,
    }
}

#[test]
fn idle_keys_ask_for_nothing() {
    assert_eq!(steer(&none()), Steering { rotation: 0, roll: 0, movement: 0 });
}

#[test]
fn each_key_drives_its_axis() {
    assert_eq!(SPACESHIP_SPEED, 10 * SCALE);
    assert_eq!(SPACESHIP_ROLL_SPEED as f64, 2.5 * SCALE as f64);
    assert_eq!(steer(&Keys { turn_left: true, ..none() }).rotation, SPACESHIP_ROTATION_SPEED);
    assert_eq!(steer(&Keys { turn_right: true, ..none() }).rotation, -SPACESHIP_ROTATION_SPEED);
    assert_eq!(steer(&Keys { forward: true, ..none() }).movement, SPACESHIP_SPEED);
    assert_eq!(steer(&Keys { backward: true, ..none() }).movement, -SPACESHIP_SPEED);
    assert_eq!(steer(&Keys { roll_left: true, ..none() }).roll, SPACESHIP_ROLL_SPEED);
    assert_eq!(steer(&Keys { roll_right: true, ..none() }).roll, -SPACESHIP_ROLL_SPEED);
}

#[test]
fn opposite_keys_have_a_winner() {
    let all = Keys {
        turn_left: true,
        turn_right: true,
        backward: true,
        forward: true,
        roll_left: true,
        roll_right: true,
    };
    assert_eq!(
        steer(&all),
        Steering {
            rotation: SPACESHIP_ROTATION_SPEED,
            roll: SPACESHIP_ROLL_SPEED,
            movement: -SPACESHIP_SPEED,
        }
    );
}

#[test]
fn scatter_draws_exactly_the_count() {
    let region = BoxRegion {
        min: Vec3 { x: -5, y: -5, z: -5 },
        max: Vec3 { x: 5, y: 5, z: 5 },
    };
    let mut rng = StdRng::seed_from_u64(21);
    let placed = scatter(&mut rng, 50, &region, 1, 3).unwrap();
    assert_eq!(placed.len(), 50);
    for p in &placed {
        assert!(-5 <= p.position.x && p.position.x < 5);
        assert!(-5 <= p.position.y && p.position.y < 5);
        assert!(-5 <= p.position.z && p.position.z < 5);
        assert!(p.radius == 1 || p.radius == 2);
    }
    assert_eq!(scatter(&mut rng, 0, &region, 1, 3).unwrap().len(), 0);
    assert_eq!(scatter(&mut rng, 5, &region, 3, 3), Err(PlacementError::BadRadiusRange));
    let flat = BoxRegion { min: region.min, max: Vec3 { x: 5, y: -5, z: 5 } };
    assert_eq!(scatter(&mut rng, 5, &flat, 1, 3), Err(PlacementError::EmptyRegion));
}

#[test]
fn stars_fill_the_slab() {
    let mut rng = StdRng::seed_from_u64(22);
    let stars = star_layout(&mut rng);
    assert_eq!(stars.len(), STAR_COUNT);
    assert_eq!(stars.len(), 2500);
    let mut above = false;
    for s in &stars {
        assert!(-500 * SCALE <= s.position.x && s.position.x < 500 * SCALE);
        assert!(-250 * SCALE <= s.position.y && s.position.y < 250 * SCALE);
        assert!(-500 * SCALE <= s.position.z && s.position.z < 500 * SCALE);
        let size = s.radius as f64 / SCALE as f64;
        assert!(0.1 <= size && size < 0.5);
        above |= s.position.y > 0;
    }
    assert!(above);
}
