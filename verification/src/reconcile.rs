//! Hit/death reconciliation: the game-level meaning of a physics collision.
//!
//! The physics collaborator only reports that two entity volumes began to
//! overlap; the application classifies each side from its engine state and
//! hands the pair here.  One call decides everything the notification means:
//! whether the bullet despawns, whether a name joins the death roster,
//! whether a throttled roster update goes out, and whether this very hit
//! makes every tracked opposing entity dead — the local, non-authoritative
//! win, declared at most once per session.

use vstd::prelude::*;

use crate::roster::clone_bytes;
use crate::roster::spec_insert;
use crate::session::Session;
use crate::throttle::spec_send_allowed;
use crate::wire::spec_encode;
use crate::wire::wf_message;
use crate::wire::MessageV;
use crate::wire::QuatBits;
use crate::wire::Vec3Bits;

verus! {

/// One side of a collision notification, as the application classifies it.
pub enum EntityRef {
    /// A live bullet, with its recorded shooter identity.
    Bullet { shooter: u64 },
    /// A wall or other level geometry.
    Wall,
    /// A live opposing entity, with its entity identity and display name.
    Enemy { id: u64, name: Vec<u8> },
    /// Anything else; the notification does not concern a bullet hit.
    Other,
}

/// Model of one collision side: the name abstracted to its byte sequence.
pub enum EntityRefV {
    Bullet { shooter: u64 },
    Wall,
    Enemy { id: u64, name: Seq<u8> },
    Other,
}

impl View for EntityRef {
    type V = EntityRefV;

    open spec fn view(&self) -> EntityRefV {
        match self {
            EntityRef::Bullet { shooter } => EntityRefV::Bullet { shooter: *shooter },
            EntityRef::Wall => EntityRefV::Wall,
            EntityRef::Enemy { id, name } => EntityRefV::Enemy { id: *id, name: name@ },
            EntityRef::Other => EntityRefV::Other,
        }
    }
}

/// Which of the two colliding entities is a bullet, and what it struck.  A
/// notification with no bullet side is unrelated (a wall scrape, two
/// players) and is ignored.
pub open spec fn spec_pick_bullet(a: EntityRefV, b: EntityRefV) -> Option<(u64, EntityRefV)> {
    match a {
        EntityRefV::Bullet { shooter } => Some((shooter, b)),
        _ => match b {
            EntityRefV::Bullet { shooter } => Some((shooter, a)),
            _ => None,
        },
    }
}

/// The win condition checked after a hit: the session is not already
/// finished and the dead names are at least as many as the tracked opposing
/// entities.
pub open spec fn spec_win_now(finished: bool, roster_len: int, opposing_count: int) -> bool {
    !finished && roster_len >= opposing_count
}

/// Everything one collision notification was decided to mean.
pub struct HitEffects {
    /// The bullet must despawn: it hit a wall or scored a hit.
    pub despawn_bullet: bool,
    /// A scored hit's victim: its name was just reconciled into the roster
    /// and its entity subtree must despawn.
    pub victim: Option<Vec<u8>>,
    /// The encoded roster update to transmit, when the throttle allowed one.
    pub datagram: Option<Vec<u8>>,
    /// This very hit completed the roster and declared the local win.
    pub won: bool,
}

impl HitEffects {
    /// The notification meant nothing: no despawn, no roster change, no
    /// send, no win.
    pub open spec fn is_noop(&self) -> bool {
        &&& !self.despawn_bullet
        &&& self.victim is None
        &&& self.datagram is None
        &&& !self.won
    }
}

/// Everything a scored hit means, relating the session before (`old_s`) and
/// after (`new_s`) the call: the bullet despawns; the victim's name is
/// reconciled into the roster; one roster update goes out if the throttle
/// allows and the roster fits the wire format, and only then does the send
/// time reset; the win is declared exactly when the session was not finished
/// and the roster now covers every tracked opposing entity.
pub open spec fn spec_hit_outcome(
    old_s: Session,
    new_s: Session,
    e: HitEffects,
    name: Seq<u8>,
    position: Vec3Bits,
    rotation: QuatBits,
    now_us: u64,
    opposing_count: int,
) -> bool {
    let new_roster = spec_insert(old_s.roster@, name);
    let upd = MessageV::PlayerUpdate { position, rotation, dead_roster: new_roster };
    &&& e.despawn_bullet
    &&& new_s.roster@ == new_roster
    &&& e.victim matches Some(v) && v@ == name
    &&& e.won == spec_win_now(old_s.finished, new_roster.len() as int, opposing_count)
    &&& new_s.finished == (old_s.finished || e.won)
    &&& match e.datagram {
        Some(bytes) => spec_send_allowed(old_s.throttle.last_sent, now_us, old_s.throttle.interval)
            && wf_message(upd) && bytes@ == spec_encode(upd) && new_s.throttle.last_sent == now_us,
        None => !(spec_send_allowed(old_s.throttle.last_sent, now_us, old_s.throttle.interval)
            && wf_message(upd)) && new_s.throttle.last_sent == old_s.throttle.last_sent,
    }
}

/// The do-nothing outcome.
fn no_effects() -> (e: HitEffects)
    ensures
        e.is_noop(),
{
    HitEffects { despawn_bullet: false, victim: None, datagram: None, won: false }
}

impl Session {
    /// Reconciles one collision notification, in order: identify the bullet
    /// side, or ignore the pair; a wall impact despawns the bullet and
    /// nothing more; a hit on an enemy whose identity equals the bullet's
    /// recorded shooter is excluded entirely; a true hit despawns the
    /// bullet, inserts the victim into the roster (idempotently), attempts
    /// one throttled roster update, and declares the win — once per session
    /// at most — exactly when the roster now covers every tracked opposing
    /// entity.
    pub fn on_collision(
        &mut self,
        first: &EntityRef,
        second: &EntityRef,
        position: Vec3Bits,
        rotation: QuatBits,
        now_us: u64,
        opposing_count: usize,
    ) -> (e: HitEffects)
        requires
            old(self).wf(),
        ensures
            final(self).wf(),
            final(self).local_name == old(self).local_name,
            final(self).remotes == old(self).remotes,
            final(self).throttle.interval == old(self).throttle.interval,
            (match spec_pick_bullet(first@, second@) {
                None => e.is_noop() && *final(self) == *old(self),
                Some((shooter, target)) => match target {
                    EntityRefV::Wall => e.despawn_bullet && e.victim is None && e.datagram is None
                        && !e.won && *final(self) == *old(self),
                    EntityRefV::Enemy { id, name } => if id == shooter {
                        e.is_noop() && *final(self) == *old(self)
                    } else {
                        spec_hit_outcome(
                            *old(self),
                            *final(self),
                            e,
                            name,
                            position,
                            rotation,
                            now_us,
                            opposing_count as int,
                        )
                    },
                    _ => e.is_noop() && *final(self) == *old(self),
                },
            }),
    {
        let (shooter, target): (u64, &EntityRef) = match first {
            EntityRef::Bullet { shooter } => (*shooter, second),
            _ => match second {
                EntityRef::Bullet { shooter } => (*shooter, first),
                _ => {
                    return no_effects();
                },
            },
        };
        match target {
            EntityRef::Wall => HitEffects {
                despawn_bullet: true,
                victim: None,
                datagram: None,
                won: false,
            },
            EntityRef::Enemy { id, name } => {
                if *id == shooter {
                    no_effects()
                } else {
                    let roster_name = clone_bytes(name);
                    self.roster.insert(roster_name);
                    let datagram = self.tick_outbound(position, rotation, now_us);
                    let roster_len = self.roster.len();
                    let won = if !self.finished && roster_len >= opposing_count {
                        self.finished = true;
                        true
                    } else {
                        false
                    };
                    let victim = clone_bytes(name);
                    HitEffects { despawn_bullet: true, victim: Some(victim), datagram, won }
                }
            },
            _ => no_effects(),
        }
    }
}

/// Law: the win path triggers at most once.  A hit that declares the win
/// leaves the session finished, and the win condition can never hold again
/// afterwards, whatever the roster or the opposing count become.
pub proof fn lemma_win_at_most_once(finished: bool, len1: int, len2: int, opposing: int)
    ensures
        spec_win_now(finished, len1, opposing) ==> !spec_win_now(
            finished || spec_win_now(finished, len1, opposing),
            len2,
            opposing,
        ),
{
}

} // verus!
