//! What the ship does for the keys that are held down.

use crate::vector::SCALE;
use vstd::prelude::*;

verus! {

/// Thrust of the ship, in world units.
pub const SPACESHIP_SPEED: i64 = 10 * SCALE;

/// Torque about the vertical axis.
pub const SPACESHIP_ROTATION_SPEED: i64 = 10 * SCALE;

/// Torque about the long axis: 2.5.
pub const SPACESHIP_ROLL_SPEED: i64 = 163840;

/// The keys that steer the ship, each held down or not.
#[derive(Clone, Copy, Debug, PartialEq, Eq, Structural)]
pub struct Keys {
    pub turn_left: bool,
    pub turn_right: bool,
    pub backward: bool,
    pub forward: bool,
    pub roll_left: bool,
    pub roll_right: bool,
}

/// What the ship is asked to do.
#[derive(Clone, Copy, Debug, PartialEq, Eq, Structural)]
pub struct Steering {
    pub rotation: i64,
    pub roll: i64,
    pub movement: i64,
}

/// The value of one axis: `amount` for the first key, `-amount` for the
/// second, nothing for neither; the first key wins over the second.
pub open spec fn axis(first: bool, second: bool, amount: i64) -> int {
    if first {
        amount as int
    } else if second {
        -amount
    } else {
        0
    }
}

/// The steering that the keys ask for. Backward wins over forward.
pub open spec fn steering_of(keys: Keys) -> Steering {
    Steering {
        rotation: axis(keys.turn_left, keys.turn_right, SPACESHIP_ROTATION_SPEED) as i64,
        roll: axis(keys.roll_left, keys.roll_right, SPACESHIP_ROLL_SPEED) as i64,
        movement: axis(keys.forward && !keys.backward, keys.backward, SPACESHIP_SPEED) as i64,
    }
}

/// Computes `steering_of`.
pub fn steer(keys: &Keys) -> (s: Steering)
    ensures
        s == steering_of(*keys),
{
    let rotation: i64 = if keys.turn_left {
        SPACESHIP_ROTATION_SPEED
    } else if keys.turn_right {
        -SPACESHIP_ROTATION_SPEED
    } else {
        0
    };
    let movement: i64 = if keys.backward {
        -SPACESHIP_SPEED
    } else if keys.forward {
        SPACESHIP_SPEED
    } else {
        0
    };
    let roll: i64 = if keys.roll_left {
        SPACESHIP_ROLL_SPEED
    } else if keys.roll_right {
        -SPACESHIP_ROLL_SPEED
    } else {
        0
    };
    Steering { rotation, roll, movement }
}

} // verus!
