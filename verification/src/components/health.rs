use vstd::prelude::*;

verus! {

/// Health left after `damage`: the difference, or zero where the damage is
/// at least the health.
pub open spec fn updated_health(health: u32, damage: u32) -> u32 {
    if health < damage {
        0
    } else {
        (health - damage) as u32
    }
}

/// The health that is left after `damage`; it never goes below zero.
pub fn get_updated_health(health: u32, damage: u32) -> (updated: u32)
    ensures
        updated == updated_health(health, damage),
{
    if health < damage {
        0
    } else {
        health - damage
    }
}

/// Something that has health and can take damage.
pub trait Health: Sized {
    /// The health this value holds.
    spec fn health(&self) -> u32;

    /// This value after `damage` has been applied to it.
    spec fn damaged(self, damage: u32) -> Self;

    fn get_health(&self) -> (health: u32)
        ensures
            health == self.health(),
    ;

    fn apply_damage(&mut self, damage: u32) -> (ret: &mut Self)
        ensures
            *ret == old(self).damaged(damage),
            *final(self) == *final(ret),
            ret.health() == updated_health(old(self).health(), damage),
    ;
}

} // verus!
