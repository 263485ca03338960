use multiplayer_fps::bullet::{BulletState, BULLET_LIFETIME_US};
use multiplayer_fps::reconcile::EntityRef;
use multiplayer_fps::roster::DeathRoster;
use multiplayer_fps::session::Session;
use multiplayer_fps::throttle::{Throttle, THROTTLE_INTERVAL_US};
use multiplayer_fps::wire::{decode, encode, Message, QuatBits, Vec3Bits};

fn name(s: &str) -> Vec<u8> {
    s.as_bytes().to_vec()
}

fn pos(x: u32, y: u32, z: u32) -> Vec3Bits {
    Vec3Bits { x, y, z }
}

fn rot(x: u32, y: u32, z: u32, w: u32) -> QuatBits {
    QuatBits { x, y, z, w }
}

fn update_datagram(position: Vec3Bits, rotation: QuatBits, roster: Vec<Vec<u8>>) -> Vec<u8> {
    encode(&Message::PlayerUpdate { position, rotation, dead_roster: roster }).unwrap()
}

#[test]
fn roster_insert_is_idempotent() {
    let mut roster = DeathRoster::new();
    roster.insert(name("Ann"));
    roster.insert(name("Ann"));
    assert_eq!(roster.len(), 1);
    assert!(roster.contains(&name("Ann")));
}

#[test]
fn roster_merge_is_commutative_as_sets() {
    let a = vec![name("Ann"), name("Bob")];
    let b = vec![name("Bob"), name("Cid")];

    let mut ab = DeathRoster::new();
    ab.merge_from(&a);
    ab.merge_from(&b);

    let mut ba = DeathRoster::new();
    ba.merge_from(&b);
    ba.merge_from(&a);

    assert_eq!(ab.len(), 3);
    assert_eq!(ba.len(), 3);
    for n in ["Ann", "Bob", "Cid"] {
        assert!(ab.contains(&name(n)));
        assert!(ba.contains(&name(n)));
    }
}

#[test]
fn roster_merge_is_monotonic() {
    let mut roster = DeathRoster::new();
    roster.merge_from(&vec![name("Ann"), name("Bob")]);
    let before = roster.len();
    roster.merge_from(&vec![name("Bob")]);
    assert!(roster.len() >= before);
    assert!(roster.contains(&name("Ann")));
    assert!(roster.contains(&name("Bob")));
}

#[test]
fn roster_remerge_is_noop() {
    let mut roster = DeathRoster::new();
    let incoming = vec![name("Ann"), name("Bob")];
    roster.merge_from(&incoming);
    assert_eq!(roster.len(), 2);
    roster.merge_from(&incoming);
    assert_eq!(roster.len(), 2);
}

#[test]
fn throttle_blocks_close_requests() {
    let mut t = Throttle::new(THROTTLE_INTERVAL_US, 0);
    assert!(t.try_send(THROTTLE_INTERVAL_US));
    assert!(!t.try_send(THROTTLE_INTERVAL_US + THROTTLE_INTERVAL_US / 2));
}

#[test]
fn throttle_allows_separated_requests() {
    let mut t = Throttle::new(THROTTLE_INTERVAL_US, 0);
    assert!(t.try_send(THROTTLE_INTERVAL_US));
    assert!(t.try_send(2 * THROTTLE_INTERVAL_US));
}

#[test]
fn throttle_rejects_backwards_clock() {
    let mut t = Throttle::new(THROTTLE_INTERVAL_US, 1_000_000);
    assert!(!t.try_send(0));
}

#[test]
fn bullet_ages_out() {
    let mut b = BulletState::spawn(7, pos(0, 0, 0x3F800000), 0x41A00000);
    assert_eq!(b.remaining_us, BULLET_LIFETIME_US);
    assert!(!b.tick(BULLET_LIFETIME_US / 2));
    assert!(!b.expired());
    assert!(b.tick(BULLET_LIFETIME_US));
    assert!(b.expired());
    assert_eq!(b.remaining_us, 0);
    assert_eq!(b.shooter, 7);
}

#[test]
fn session_join_without_reply_stays_usable() {
    // The handshake is fire-and-forget: no reply arrives, nothing is drained,
    // and the session still ticks and sends.
    let (mut session, join) = Session::connect(name("Ann"), 0).unwrap();
    assert_eq!(decode(&join), Ok(Message::Join { name: name("Ann") }));
    assert_eq!(session.remotes.len(), 0);
    assert_eq!(session.roster.len(), 0);

    let d = session.tick_outbound(pos(1, 2, 3), rot(4, 5, 6, 7), THROTTLE_INTERVAL_US);
    let bytes = d.expect("first tick after one interval should send");
    assert_eq!(
        decode(&bytes),
        Ok(Message::PlayerUpdate {
            position: pos(1, 2, 3),
            rotation: rot(4, 5, 6, 7),
            dead_roster: vec![],
        })
    );
}

#[test]
fn connect_rejects_overlong_name() {
    assert!(Session::connect(vec![b'x'; 0x10000], 0).is_err());
}

#[test]
fn leave_datagram_decodes_to_leave() {
    let (session, _) = Session::connect(name("Ann"), 0).unwrap();
    assert_eq!(decode(&session.leave_datagram()), Ok(Message::Leave));
}

#[test]
fn updates_apply_in_arrival_order() {
    // Two updates from the same peer: the second one's transform wins and
    // the rosters union.
    let (mut session, _) = Session::connect(name("Ann"), 0).unwrap();
    let a = update_datagram(pos(1, 1, 1), rot(0, 0, 0, 1), vec![name("Bob")]);
    let b = update_datagram(pos(2, 2, 2), rot(0, 0, 0, 2), vec![name("Bob"), name("Cid")]);

    assert!(session.handle_datagram(42, &a));
    assert!(session.handle_datagram(42, &b));

    assert_eq!(session.remotes.len(), 1);
    assert_eq!(session.remotes[0].key, 42);
    let t = session.remotes[0].transform.unwrap();
    assert_eq!(t.position, pos(2, 2, 2));
    assert_eq!(t.rotation, rot(0, 0, 0, 2));

    assert_eq!(session.roster.len(), 2);
    assert!(session.roster.contains(&name("Bob")));
    assert!(session.roster.contains(&name("Cid")));
}

#[test]
fn join_then_leave_removes_remote() {
    let (mut session, _) = Session::connect(name("Ann"), 0).unwrap();
    let join = encode(&Message::Join { name: name("Bob") }).unwrap();
    assert!(session.handle_datagram(42, &join));
    assert_eq!(session.remotes.len(), 1);
    assert_eq!(session.remotes[0].name, name("Bob"));

    let leave = encode(&Message::Leave).unwrap();
    assert!(session.handle_datagram(42, &leave));
    assert_eq!(session.remotes.len(), 0);
}

#[test]
fn update_from_unknown_peer_starts_tracking() {
    let (mut session, _) = Session::connect(name("Ann"), 0).unwrap();
    let upd = update_datagram(pos(7, 8, 9), rot(1, 2, 3, 4), vec![]);
    assert!(session.handle_datagram(42, &upd));
    assert_eq!(session.remotes.len(), 1);
    assert_eq!(session.remotes[0].key, 42);
    assert_eq!(session.remotes[0].name, Vec::<u8>::new());
    assert_eq!(session.remotes[0].transform.unwrap().position, pos(7, 8, 9));
}

#[test]
fn join_after_update_sets_name_and_keeps_transform() {
    let (mut session, _) = Session::connect(name("Ann"), 0).unwrap();
    let upd = update_datagram(pos(7, 8, 9), rot(1, 2, 3, 4), vec![]);
    assert!(session.handle_datagram(42, &upd));
    let join = encode(&Message::Join { name: name("Bob") }).unwrap();
    assert!(session.handle_datagram(42, &join));
    assert_eq!(session.remotes.len(), 1);
    assert_eq!(session.remotes[0].name, name("Bob"));
    assert_eq!(session.remotes[0].transform.unwrap().position, pos(7, 8, 9));
}

#[test]
fn tick_outbound_is_throttled() {
    let (mut session, _) = Session::connect(name("Ann"), 0).unwrap();
    let t1 = THROTTLE_INTERVAL_US;
    assert!(session.tick_outbound(pos(0, 0, 0), rot(0, 0, 0, 0), t1).is_some());
    assert!(session.tick_outbound(pos(0, 0, 0), rot(0, 0, 0, 0), t1 + 1).is_none());
    assert!(session.tick_outbound(pos(0, 0, 0), rot(0, 0, 0, 0), 2 * t1).is_some());
}

#[test]
fn malformed_datagram_is_dropped() {
    let (mut session, _) = Session::connect(name("Ann"), 0).unwrap();
    let garbage = vec![9u8, 1, 2, 3];
    assert!(!session.handle_datagram(42, &garbage));
    assert_eq!(session.remotes.len(), 0);
    assert_eq!(session.roster.len(), 0);
}

#[test]
fn self_hit_changes_nothing() {
    // A bullet whose recorded shooter identity equals the target's identity:
    // no roster insertion, and no despawn by this path either.
    let (mut session, _) = Session::connect(name("Ann"), 0).unwrap();
    let bullet = EntityRef::Bullet { shooter: 5 };
    let target = EntityRef::Enemy { id: 5, name: name("Ann") };
    let e = session.on_collision(&bullet, &target, pos(0, 0, 0), rot(0, 0, 0, 0), 0, 1);
    assert!(!e.despawn_bullet);
    assert!(e.victim.is_none());
    assert!(e.datagram.is_none());
    assert!(!e.won);
    assert_eq!(session.roster.len(), 0);
}

#[test]
fn wall_impact_despawns_bullet_only() {
    let (mut session, _) = Session::connect(name("Ann"), 0).unwrap();
    let bullet = EntityRef::Bullet { shooter: 5 };
    let e = session.on_collision(&bullet, &EntityRef::Wall, pos(0, 0, 0), rot(0, 0, 0, 0), 0, 1);
    assert!(e.despawn_bullet);
    assert!(e.victim.is_none());
    assert!(e.datagram.is_none());
    assert!(!e.won);
    assert_eq!(session.roster.len(), 0);
}

#[test]
fn unrelated_collision_is_ignored() {
    let (mut session, _) = Session::connect(name("Ann"), 0).unwrap();
    let e = session.on_collision(
        &EntityRef::Wall,
        &EntityRef::Other,
        pos(0, 0, 0),
        rot(0, 0, 0, 0),
        0,
        1,
    );
    assert!(!e.despawn_bullet);
    assert!(e.victim.is_none());
    assert_eq!(session.roster.len(), 0);
}

#[test]
fn hit_inserts_victim_and_sends() {
    let (mut session, _) = Session::connect(name("Ann"), 0).unwrap();
    let bullet = EntityRef::Bullet { shooter: 5 };
    let target = EntityRef::Enemy { id: 9, name: name("Bob") };
    let e = session.on_collision(
        &bullet,
        &target,
        pos(1, 2, 3),
        rot(4, 5, 6, 7),
        THROTTLE_INTERVAL_US,
        2,
    );
    assert!(e.despawn_bullet);
    assert_eq!(e.victim, Some(name("Bob")));
    assert!(!e.won, "one dead name of two opponents is no win");
    assert!(session.roster.contains(&name("Bob")));
    let bytes = e.datagram.expect("throttle had a full interval elapsed");
    assert_eq!(
        decode(&bytes),
        Ok(Message::PlayerUpdate {
            position: pos(1, 2, 3),
            rotation: rot(4, 5, 6, 7),
            dead_roster: vec![name("Bob")],
        })
    );
}

#[test]
fn second_hit_within_interval_is_not_sent() {
    let (mut session, _) = Session::connect(name("Ann"), 0).unwrap();
    let bullet = EntityRef::Bullet { shooter: 5 };
    let t1 = THROTTLE_INTERVAL_US;
    let t2 = t1 + THROTTLE_INTERVAL_US / 2;
    let e1 = session.on_collision(
        &bullet,
        &EntityRef::Enemy { id: 9, name: name("Bob") },
        pos(0, 0, 0),
        rot(0, 0, 0, 0),
        t1,
        3,
    );
    assert!(e1.datagram.is_some());
    let e2 = session.on_collision(
        &bullet,
        &EntityRef::Enemy { id: 10, name: name("Cid") },
        pos(0, 0, 0),
        rot(0, 0, 0, 0),
        t2,
        3,
    );
    assert!(e2.datagram.is_none(), "second send within the interval is throttled");
    assert!(session.roster.contains(&name("Cid")), "the roster still reconciles the hit");
}

#[test]
fn win_triggers_exactly_once() {
    let (mut session, _) = Session::connect(name("Ann"), 0).unwrap();
    let bullet = EntityRef::Bullet { shooter: 5 };
    let e1 = session.on_collision(
        &bullet,
        &EntityRef::Enemy { id: 9, name: name("Bob") },
        pos(0, 0, 0),
        rot(0, 0, 0, 0),
        0,
        1,
    );
    assert!(e1.won, "every tracked opponent is dead");
    assert!(session.finished);
    let e2 = session.on_collision(
        &bullet,
        &EntityRef::Enemy { id: 9, name: name("Bob") },
        pos(0, 0, 0),
        rot(0, 0, 0, 0),
        0,
        1,
    );
    assert!(!e2.won, "the win path never triggers twice");
    assert!(session.finished);
}
