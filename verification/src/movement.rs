//! Mass, velocity and acceleration of a moving body, and the integration
//! step that turns one into the next.

use crate::vector::Vec3;
use vstd::prelude::*;

verus! {

/// The constant pull along `z`: -9.81 world units per second squared.
pub const GRAVITY_Z: i64 = -642908;

/// The mass of a body.
#[derive(Clone, Copy, Debug, PartialEq, Eq, Structural)]
pub struct Mass {
    pub value: u32,
}

/// The velocity of a body, in grid units per second.
#[derive(Clone, Copy, Debug, PartialEq, Eq, Structural)]
pub struct Velocity {
    pub value: Vec3,
}

/// The acceleration accumulated for a body during a tick.
#[derive(Clone, Copy, Debug, PartialEq, Eq, Structural)]
pub struct Acceleration {
    pub value: Vec3,
}

impl Mass {
    pub fn new(value: u32) -> (m: Mass)
        ensures
            m.value == value,
    {
        Mass { value }
    }
}

impl Velocity {
    pub fn new(value: Vec3) -> (v: Velocity)
        ensures
            v.value == value,
    {
        Velocity { value }
    }
}

impl Acceleration {
    pub fn new(value: Vec3) -> (a: Acceleration)
        ensures
            a.value == value,
    {
        Acceleration { value }
    }
}

/// Adds to the velocity what the acceleration gives over `dt`, and resets
/// the accumulator for the next tick. `dt` is in units of `1 / SCALE`
/// seconds.
pub fn update_velocity(acceleration: &mut Acceleration, velocity: &mut Velocity, dt: u32)
    ensures
        final(velocity).value == old(velocity).value.advanced(old(acceleration).value, dt),
        final(acceleration).value == (Vec3 { x: 0, y: 0, z: 0 }),
{
    velocity.value = velocity.value.advance(&acceleration.value, dt);
    acceleration.value = Vec3::zero();
}

/// Adds the constant downward pull along `z` to the accumulator.
pub fn update_gravity(acceleration: &mut Acceleration)
    ensures
        final(acceleration).value == old(acceleration).value.add_spec(
            Vec3 { x: 0, y: 0, z: GRAVITY_Z },
        ),
{
    acceleration.value = acceleration.value.saturating_add(&Vec3 { x: 0, y: 0, z: GRAVITY_Z });
}

/// Moves the position by what the velocity gives over `dt`.
pub fn update_positions(velocity: &Velocity, position: &mut Vec3, dt: u32)
    ensures
        *final(position) == old(position).advanced(velocity.value, dt),
{
    *position = position.advance(&velocity.value, dt);
}

} // verus!
