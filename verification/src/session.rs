//! The transport session and the inbound message pump.
//!
//! The session owns the state shared across the simulation loop: the local
//! name chosen at connect time, the outbound throttle, the tracked remote
//! peers and the death roster, and whether the local win has been declared.
//! Socket I/O stays with the application: `connect` hands back the Join
//! datagram to transmit, `tick_outbound` hands back a throttled update
//! datagram, `handle_datagram` consumes one received datagram, and
//! `leave_datagram` is the best-effort goodbye sent at shutdown.  The
//! application maps each remote source address to a stable `u64` key and
//! applies datagrams in arrival order; no reordering is performed, so a stale
//! update applied later wins on position while roster merging is unaffected.

use vstd::prelude::*;

use crate::roster::clone_bytes;
use crate::roster::spec_merge;
use crate::roster::DeathRoster;
use crate::throttle::spec_send_allowed;
use crate::throttle::Throttle;
use crate::throttle::THROTTLE_INTERVAL_US;
use crate::wire::decode;
use crate::wire::encode;
use crate::wire::spec_decode;
use crate::wire::spec_encode;
use crate::wire::wf_message;
use crate::wire::Message;
use crate::wire::MessageV;
use crate::wire::QuatBits;
use crate::wire::Transform;
use crate::wire::Vec3Bits;
use crate::wire::MAX_NAME_LEN;

verus! {

/// A remote peer as locally tracked: the transport key the application
/// assigned to its source address, the display name its Join carried (empty
/// until one arrives), and the last received transform.
pub struct Remote {
    pub key: u64,
    pub name: Vec<u8>,
    pub transform: Option<Transform>,
}

/// Model of a remote peer: the name abstracted to its byte sequence.
pub struct RemoteV {
    pub key: u64,
    pub name: Seq<u8>,
    pub transform: Option<Transform>,
}

impl View for Remote {
    type V = RemoteV;

    open spec fn view(&self) -> RemoteV {
        RemoteV { key: self.key, name: self.name@, transform: self.transform }
    }
}

/// The model of the tracked remote list.
pub open spec fn remotes_view(r: Seq<Remote>) -> Seq<RemoteV> {
    Seq::new(r.len(), |i: int| r[i]@)
}

/// Whether some tracked remote carries this transport key.
pub open spec fn has_key(remotes: Seq<RemoteV>, key: u64) -> bool {
    exists|i: int| 0 <= i < remotes.len() && remotes[i].key == key
}

/// The position of the remote with this key (unique while keys are distinct).
pub open spec fn key_index(remotes: Seq<RemoteV>, key: u64) -> int {
    choose|i: int| 0 <= i < remotes.len() && remotes[i].key == key
}

/// A Join from `sender`: record its display name, keeping any transform
/// already received; a first Join starts tracking the peer.
pub open spec fn spec_join(remotes: Seq<RemoteV>, sender: u64, name: Seq<u8>) -> Seq<RemoteV> {
    if has_key(remotes, sender) {
        let i = key_index(remotes, sender);
        remotes.update(i, RemoteV { key: sender, name, transform: remotes[i].transform })
    } else {
        remotes.push(RemoteV { key: sender, name, transform: None })
    }
}

/// An update from `sender`: last write wins on the transform; an update from
/// an unknown peer starts tracking it with an empty name.
pub open spec fn spec_update_remote(remotes: Seq<RemoteV>, sender: u64, t: Transform) -> Seq<
    RemoteV,
> {
    if has_key(remotes, sender) {
        let i = key_index(remotes, sender);
        remotes.update(i, RemoteV { key: sender, name: remotes[i].name, transform: Some(t) })
    } else {
        remotes.push(RemoteV { key: sender, name: Seq::empty(), transform: Some(t) })
    }
}

/// A Leave from `sender`: stop tracking the peer.
pub open spec fn spec_leave(remotes: Seq<RemoteV>, sender: u64) -> Seq<RemoteV> {
    if has_key(remotes, sender) {
        remotes.remove(key_index(remotes, sender))
    } else {
        remotes
    }
}

/// One inbound message applied to the local state, in arrival order.
pub open spec fn spec_apply(
    remotes: Seq<RemoteV>,
    roster: Seq<Seq<u8>>,
    sender: u64,
    m: MessageV,
) -> (Seq<RemoteV>, Seq<Seq<u8>>) {
    match m {
        MessageV::Join { name } => (spec_join(remotes, sender, name), roster),
        MessageV::Leave => (spec_leave(remotes, sender), roster),
        MessageV::PlayerUpdate { position, rotation, dead_roster } => (
            spec_update_remote(remotes, sender, Transform { position, rotation }),
            spec_merge(roster, dead_roster),
        ),
    }
}

/// The handshake send failed at startup: the chosen name cannot be carried
/// by the wire format.
#[derive(Clone, Copy, PartialEq, Eq, Structural, Debug)]
pub enum ConnectError {
    NameTooLong,
}

/// The logical connection and the state it synchronizes.
pub struct Session {
    /// The local player's name, chosen at connect time and immutable for the
    /// session's lifetime.
    pub local_name: Vec<u8>,
    /// The outbound update throttle.
    pub throttle: Throttle,
    /// The tracked remote peers, keys distinct.
    pub remotes: Vec<Remote>,
    /// The local death roster.
    pub roster: DeathRoster,
    /// Set once the local win has been declared; it never triggers twice.
    pub finished: bool,
}

impl Session {
    /// The session invariant: the roster holds no duplicate name and no two
    /// tracked remotes share a transport key.
    pub open spec fn wf(&self) -> bool {
        &&& self.roster.wf()
        &&& forall|i: int, j: int|
            0 <= i < j < self.remotes@.len() ==> self.remotes@[i].key != self.remotes@[j].key
    }

    /// Establishes the logical session.  The handshake is fire-and-forget:
    /// the returned datagram is the Join to transmit, no reply is awaited,
    /// and the session is usable immediately.  Fails exactly when the chosen
    /// name cannot be carried by the wire format.
    pub fn connect(local_name: Vec<u8>, now_us: u64) -> (r: Result<
        (Session, Vec<u8>),
        ConnectError,
    >)
        ensures
            local_name@.len() <= MAX_NAME_LEN ==> (r matches Ok(p) && p.0.wf()
                && p.0.local_name@ == local_name@ && p.0.throttle == (Throttle {
                last_sent: now_us,
                interval: THROTTLE_INTERVAL_US,
            }) && p.0.remotes@.len() == 0 && p.0.roster@ == Seq::<Seq<u8>>::empty()
                && p.0.finished == false && p.1@ == spec_encode(
                MessageV::Join { name: local_name@ },
            )),
            local_name@.len() > MAX_NAME_LEN ==> r is Err,
    {
        let join_name = clone_bytes(&local_name);
        match encode(&Message::Join { name: join_name }) {
            Ok(datagram) => {
                let session = Session {
                    local_name,
                    throttle: Throttle::new(THROTTLE_INTERVAL_US, now_us),
                    remotes: Vec::new(),
                    roster: DeathRoster::new(),
                    finished: false,
                };
                Ok((session, datagram))
            },
            Err(_) => Err(ConnectError::NameTooLong),
        }
    }

    /// The best-effort Leave datagram transmitted once at shutdown.
    pub fn leave_datagram(&self) -> (d: Vec<u8>)
        ensures
            d@ == spec_encode(MessageV::Leave),
    {
        match encode(&Message::Leave) {
            Ok(d) => d,
            Err(_) => vstd::pervasive::unreached(),
        }
    }

    /// Finds the tracked remote with this key, if any.
    fn find_remote(&self, key: u64) -> (r: Option<usize>)
        requires
            self.wf(),
        ensures
            match r {
                Some(i) => i < self.remotes@.len() && self.remotes@[i as int].key == key && has_key(
                    remotes_view(self.remotes@),
                    key,
                ) && i as int == key_index(remotes_view(self.remotes@), key),
                None => !has_key(remotes_view(self.remotes@), key),
            },
    {
        let ghost rv = remotes_view(self.remotes@);
        let mut i: usize = 0;
        while i < self.remotes.len()
            invariant
                self.wf(),
                i <= self.remotes@.len(),
                rv == remotes_view(self.remotes@),
                forall|j: int| 0 <= j < i ==> rv[j].key != key,
            decreases self.remotes@.len() - i,
        {
            if self.remotes[i].key == key {
                proof {
                    assert(rv[i as int].key == key);
                    assert(has_key(rv, key));
                    let j = key_index(rv, key);
                    if j != i as int {
                        assert(self.remotes@[j].key == self.remotes@[i as int].key);
                    }
                }
                return Some(i);
            }
            i = i + 1;
        }
        proof {
            assert(!has_key(rv, key));
        }
        None
    }

    /// Applies one decoded message to the local state.
    pub fn apply_message(&mut self, sender: u64, m: Message)
        requires
            old(self).wf(),
        ensures
            final(self).wf(),
            final(self).local_name == old(self).local_name,
            final(self).throttle == old(self).throttle,
            final(self).finished == old(self).finished,
            (remotes_view(final(self).remotes@), final(self).roster@) == spec_apply(
                remotes_view(old(self).remotes@),
                old(self).roster@,
                sender,
                m@,
            ),
    {
        let ghost rv0 = remotes_view(self.remotes@);
        match m {
            Message::Join { name } => {
                let ghost nv = name@;
                match self.find_remote(sender) {
                    Some(i) => {
                        let ghost t0 = self.remotes@[i as int].transform;
                        let slot = &mut self.remotes[i];
                        slot.name = name;
                        proof {
                            assert(remotes_view(self.remotes@) =~= rv0.update(
                                i as int,
                                RemoteV { key: sender, name: nv, transform: t0 },
                            ));
                        }
                    },
                    None => {
                        self.remotes.push(Remote { key: sender, name, transform: None });
                        proof {
                            assert(remotes_view(self.remotes@) =~= rv0.push(
                                RemoteV { key: sender, name: nv, transform: None },
                            ));
                            assert forall|a: int, b: int|
                                0 <= a < b < self.remotes@.len() implies self.remotes@[a].key
                                != self.remotes@[b].key by {
                                if b == self.remotes@.len() - 1 {
                                    assert(rv0[a].key == self.remotes@[a].key);
                                }
                            }
                        }
                    },
                }
            },
            Message::Leave => {
                match self.find_remote(sender) {
                    Some(i) => {
                        self.remotes.remove(i);
                        proof {
                            assert(remotes_view(self.remotes@) =~= rv0.remove(i as int));
                        }
                    },
                    None => {},
                }
            },
            Message::PlayerUpdate { position, rotation, dead_roster } => {
                let t = Transform { position, rotation };
                match self.find_remote(sender) {
                    Some(i) => {
                        let ghost n0 = self.remotes@[i as int].name@;
                        let slot = &mut self.remotes[i];
                        slot.transform = Some(t);
                        proof {
                            assert(remotes_view(self.remotes@) =~= rv0.update(
                                i as int,
                                RemoteV { key: sender, name: n0, transform: Some(t) },
                            ));
                        }
                    },
                    None => {
                        self.remotes.push(Remote { key: sender, name: Vec::new(), transform: Some(t) });
                        proof {
                            assert(remotes_view(self.remotes@) =~= rv0.push(
                                RemoteV { key: sender, name: Seq::empty(), transform: Some(t) },
                            ));
                            assert forall|a: int, b: int|
                                0 <= a < b < self.remotes@.len() implies self.remotes@[a].key
                                != self.remotes@[b].key by {
                                if b == self.remotes@.len() - 1 {
                                    assert(rv0[a].key == self.remotes@[a].key);
                                }
                            }
                        }
                    },
                }
                self.roster.merge_from(&dead_roster);
            },
        }
    }

    /// Pumps one received datagram: decodes it and applies it in arrival
    /// order.  A datagram that fails to decode is skipped — dropped and
    /// reported to the caller for logging, never an error that unwinds into
    /// the simulation loop.
    pub fn handle_datagram(&mut self, sender: u64, datagram: &Vec<u8>) -> (applied: bool)
        requires
            old(self).wf(),
        ensures
            final(self).wf(),
            final(self).local_name == old(self).local_name,
            final(self).throttle == old(self).throttle,
            final(self).finished == old(self).finished,
            (match spec_decode(datagram@) {
                Some(m) => applied && (remotes_view(final(self).remotes@), final(self).roster@)
                    == spec_apply(
                    remotes_view(old(self).remotes@),
                    old(self).roster@,
                    sender,
                    m,
                ),
                None => !applied && final(self).remotes == old(self).remotes && final(self).roster
                    == old(self).roster,
            }),
    {
        match decode(datagram) {
            Ok(m) => {
                self.apply_message(sender, m);
                true
            },
            Err(_) => false,
        }
    }

    /// Builds and throttles one outbound update carrying the local transform
    /// and the current roster.  The datagram comes back exactly when the
    /// interval has elapsed and the roster fits the wire format; only then
    /// does the send time reset.  An unencodable roster spoils that send
    /// attempt alone.
    pub fn tick_outbound(&mut self, position: Vec3Bits, rotation: QuatBits, now_us: u64) -> (d:
        Option<Vec<u8>>)
        requires
            old(self).wf(),
        ensures
            final(self).wf(),
            final(self).local_name == old(self).local_name,
            final(self).remotes == old(self).remotes,
            final(self).roster == old(self).roster,
            final(self).finished == old(self).finished,
            final(self).throttle.interval == old(self).throttle.interval,
            (match d {
                Some(bytes) => spec_send_allowed(
                    old(self).throttle.last_sent,
                    now_us,
                    old(self).throttle.interval,
                ) && wf_message(
                    MessageV::PlayerUpdate { position, rotation, dead_roster: old(self).roster@ },
                ) && bytes@ == spec_encode(
                    MessageV::PlayerUpdate { position, rotation, dead_roster: old(self).roster@ },
                ) && final(self).throttle.last_sent == now_us,
                None => !(spec_send_allowed(
                    old(self).throttle.last_sent,
                    now_us,
                    old(self).throttle.interval,
                ) && wf_message(
                    MessageV::PlayerUpdate { position, rotation, dead_roster: old(self).roster@ },
                )) && final(self).throttle.last_sent == old(self).throttle.last_sent,
            }),
    {
        if self.throttle.allows(now_us) {
            let dead_roster = self.roster.export();
            match encode(&Message::PlayerUpdate { position, rotation, dead_roster }) {
                Ok(bytes) => {
                    self.throttle.record_send(now_us);
                    Some(bytes)
                },
                Err(_) => None,
            }
        } else {
            None
        }
    }
}

} // verus!
