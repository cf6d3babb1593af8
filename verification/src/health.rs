//! Health of an entity and the damage it takes from contacts.

use crate::vector::{clamp_to_i64, saturate};
use vstd::prelude::*;

verus! {

/// What is left of an entity's health; it is dead at zero or below.
#[derive(Clone, Copy, Debug, PartialEq, Eq, Structural)]
pub struct Health {
    pub value: i64,
}

/// The damage an entity takes from each contact.
#[derive(Clone, Copy, Debug, PartialEq, Eq, Structural)]
pub struct CollisionDamage {
    pub amount: i64,
}

impl Health {
    pub fn new(value: i64) -> (h: Health)
        ensures
            h.value == value,
    {
        Health { value }
    }

    /// Whether the entity is to be removed.
    pub open spec fn dead(self) -> bool {
        self.value <= 0
    }

    /// Tests `dead`.
    pub fn is_dead(&self) -> (b: bool)
        ensures
            b == self.dead(),
    {
        self.value <= 0
    }
}

impl CollisionDamage {
    pub fn new(amount: i64) -> (d: CollisionDamage)
        ensures
            d.amount == amount,
    {
        CollisionDamage { amount }
    }
}

/// Takes the damage once for each of the `active_contacts` contacts that
/// touch the entity, saturating.
pub fn apply_collision_damage(health: &mut Health, damage: &CollisionDamage, active_contacts: u32)
    ensures
        final(health).value == clamp_to_i64(old(health).value - damage.amount * active_contacts),
{
    assert(-0x8000_0000_0000_0000 * 0x1_0000_0000 <= damage.amount * active_contacts
        <= 0x8000_0000_0000_0000 * 0x1_0000_0000) by (nonlinear_arith)
        requires
            -0x8000_0000_0000_0000 <= damage.amount <= 0x8000_0000_0000_0000,
            0 <= active_contacts <= 0x1_0000_0000,
    ;
    let total: i128 = (damage.amount as i128) * (active_contacts as i128);
    health.value = saturate(health.value as i128 - total);
}

} // verus!
