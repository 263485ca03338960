//! Local-only bullet bookkeeping.
//!
//! A bullet is never networked: it is a local simulation record used to
//! attribute a hit to a shooter (and so to exclude self-damage) and to age
//! the bullet out.  Direction and speed are opaque 32-bit lanes the engine
//! interprets; the core only carries them.

use vstd::prelude::*;

use crate::wire::Vec3Bits;

verus! {

/// How long a bullet lives when it hits nothing, in microseconds.
pub const BULLET_LIFETIME_US: u64 = 2000000;

/// The local record of one bullet in flight.
#[derive(Clone, Copy, PartialEq, Eq, Structural, Debug)]
pub struct BulletState {
    /// Entity identity of the shooter; the self-hit exclusion key.
    pub shooter: u64,
    /// Flight direction lanes, carried for the engine.
    pub direction: Vec3Bits,
    /// Speed lane, carried for the engine.
    pub speed: u32,
    /// Remaining lifetime in microseconds; the bullet despawns at zero.
    pub remaining_us: u64,
}

impl BulletState {
    /// A bullet just fired by `shooter`, with a full lifetime ahead of it.
    pub fn spawn(shooter: u64, direction: Vec3Bits, speed: u32) -> (b: BulletState)
        ensures
            b.shooter == shooter,
            b.direction == direction,
            b.speed == speed,
            b.remaining_us == BULLET_LIFETIME_US,
    {
        BulletState { shooter, direction, speed, remaining_us: BULLET_LIFETIME_US }
    }

    /// Ages the bullet by one tick's elapsed time; reports whether its
    /// lifetime is spent, at which point it must despawn regardless of any
    /// collision outcome.
    pub fn tick(&mut self, delta_us: u64) -> (expired: bool)
        ensures
            final(self).remaining_us == if old(self).remaining_us >= delta_us {
                old(self).remaining_us - delta_us
            } else {
                0
            },
            expired == (final(self).remaining_us == 0),
            final(self).shooter == old(self).shooter,
            final(self).direction == old(self).direction,
            final(self).speed == old(self).speed,
    {
        match self.remaining_us.checked_sub(delta_us) {
            Some(rem) => {
                self.remaining_us = rem;
            },
            None => {
                self.remaining_us = 0;
            },
        }
        self.remaining_us == 0
    }

    /// Whether the bullet's lifetime is spent.
    pub fn expired(&self) -> (r: bool)
        ensures
            r == (self.remaining_us == 0),
    {
        self.remaining_us == 0
    }
}

} // verus!
