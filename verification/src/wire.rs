//! The wire protocol: the tagged message set exchanged between peers and its
//! binary encoding.
//!
//! Every datagram carries exactly one message.  The encoding is deterministic
//! and self-delimiting: a one-byte tag, then a fixed layout per variant, with
//! all multi-byte integers little-endian and all byte strings length-prefixed.
//! `decode` accepts a payload if and only if it is byte-for-byte the encoding
//! of some well-formed message; everything else is `MalformedMessage`.

use vstd::prelude::*;

verus! {

/// Wire tag of `Message::Join`.
pub const TAG_JOIN: u8 = 1;

/// Wire tag of `Message::Leave`.
pub const TAG_LEAVE: u8 = 2;

/// Wire tag of `Message::PlayerUpdate`.
pub const TAG_UPDATE: u8 = 3;

/// Longest name (in bytes) the length-prefixed wire format can carry.
pub const MAX_NAME_LEN: usize = 0xFFFF;

/// Most roster entries one update datagram can carry.
pub const MAX_ROSTER_LEN: usize = 0xFFFF;

/// Little-endian byte pair of a 16-bit value.
pub open spec fn enc_u16(v: u16) -> Seq<u8> {
    seq![(v % 256) as u8, (v / 256) as u8]
}

/// The 16-bit value a little-endian byte pair stands for.
pub open spec fn u16_of(b0: u8, b1: u8) -> int {
    b0 + 256 * b1
}

/// Appends the little-endian bytes of `v` to `out`.
fn push_u16(out: &mut Vec<u8>, v: u16)
    ensures
        final(out)@ == old(out)@ + enc_u16(v),
{
    out.push((v % 256) as u8);
    out.push((v / 256) as u8);
    proof {
        assert(out@ =~= old(out)@ + enc_u16(v));
    }
}

/// Reads the 16-bit value encoded by two wire bytes.
fn read_u16(b0: u8, b1: u8) -> (r: u16)
    ensures
        r == u16_of(b0, b1),
        enc_u16(r) == seq![b0, b1],
{
    let r: u16 = b0 as u16 + 256 * (b1 as u16);
    proof {
        assert(enc_u16(r) =~= seq![b0, b1]);
    }
    r
}

/// Little-endian byte quadruple of a 32-bit value.
pub open spec fn enc_u32(v: u32) -> Seq<u8> {
    seq![
        (v % 256) as u8,
        ((v / 256) % 256) as u8,
        ((v / 65536) % 256) as u8,
        (v / 16777216) as u8,
    ]
}

/// The 32-bit value a little-endian byte quadruple stands for.
pub open spec fn u32_of(b0: u8, b1: u8, b2: u8, b3: u8) -> int {
    b0 + 256 * b1 + 65536 * b2 + 16777216 * b3
}

/// Appends the little-endian bytes of `v` to `out`.
fn push_u32(out: &mut Vec<u8>, v: u32)
    ensures
        final(out)@ == old(out)@ + enc_u32(v),
{
    out.push((v % 256) as u8);
    out.push(((v / 256) % 256) as u8);
    out.push(((v / 65536) % 256) as u8);
    out.push((v / 16777216) as u8);
    proof {
        assert(out@ =~= old(out)@ + enc_u32(v));
    }
}

/// Reads the 32-bit value encoded by four wire bytes.
fn read_u32(b0: u8, b1: u8, b2: u8, b3: u8) -> (r: u32)
    ensures
        r == u32_of(b0, b1, b2, b3),
        enc_u32(r) == seq![b0, b1, b2, b3],
{
    let r: u32 = b0 as u32 + 256 * (b1 as u32) + 65536 * (b2 as u32) + 16777216 * (b3 as u32);
    proof {
        assert(r % 256 == b0 as u32 && (r / 256) % 256 == b1 as u32 && (r / 65536) % 256 == b2
            as u32 && r / 16777216 == b3 as u32) by (bit_vector)
            requires
                r == b0 as u32 + 256 * (b1 as u32) + 65536 * (b2 as u32) + 16777216 * (b3 as u32),
        ;
        assert(enc_u32(r) =~= seq![b0, b1, b2, b3]);
    }
    r
}

/// The three lanes of a position vector, each carried as an opaque 32-bit
/// pattern.  The core never interprets the lanes; the application layer
/// converts them to and from its own floating-point representation.
#[derive(Clone, Copy, PartialEq, Eq, Structural, Debug)]
pub struct Vec3Bits {
    pub x: u32,
    pub y: u32,
    pub z: u32,
}

/// The four lanes of a rotation quaternion, carried as opaque 32-bit patterns.
#[derive(Clone, Copy, PartialEq, Eq, Structural, Debug)]
pub struct QuatBits {
    pub x: u32,
    pub y: u32,
    pub z: u32,
    pub w: u32,
}

/// A full transform: position and rotation, as carried on the wire.
#[derive(Clone, Copy, PartialEq, Eq, Structural, Debug)]
pub struct Transform {
    pub position: Vec3Bits,
    pub rotation: QuatBits,
}

/// The wire envelope: the closed set of messages peers exchange.
#[derive(Clone, PartialEq, Eq, Debug)]
pub enum Message {
    /// Sent once at connection establishment; carries the sender's name.
    Join { name: Vec<u8> },
    /// Sent once, best-effort, at shutdown.
    Leave,
    /// Sent repeatedly; carries the sender's transform and its current view
    /// of everyone known to be dead.
    PlayerUpdate { position: Vec3Bits, rotation: QuatBits, dead_roster: Vec<Vec<u8>> },
}

/// Mathematical model of a `Message`: names become byte sequences.
pub enum MessageV {
    Join { name: Seq<u8> },
    Leave,
    PlayerUpdate { position: Vec3Bits, rotation: QuatBits, dead_roster: Seq<Seq<u8>> },
}

/// The model of a list of names: each entry abstracted to its byte sequence.
pub open spec fn roster_view(r: Seq<Vec<u8>>) -> Seq<Seq<u8>> {
    Seq::new(r.len(), |i: int| r[i]@)
}

impl View for Message {
    type V = MessageV;

    open spec fn view(&self) -> MessageV {
        match self {
            Message::Join { name } => MessageV::Join { name: name@ },
            Message::Leave => MessageV::Leave,
            Message::PlayerUpdate { position, rotation, dead_roster } => MessageV::PlayerUpdate {
                position: *position,
                rotation: *rotation,
                dead_roster: roster_view(dead_roster@),
            },
        }
    }
}

/// A message the length-prefixed wire format can carry: every name fits a
/// 16-bit length field and a roster fits a 16-bit count field.
pub open spec fn wf_message(m: MessageV) -> bool {
    match m {
        MessageV::Join { name } => name.len() <= MAX_NAME_LEN,
        MessageV::Leave => true,
        MessageV::PlayerUpdate { dead_roster, .. } => dead_roster.len() <= MAX_ROSTER_LEN
            && forall|i: int|
                0 <= i < dead_roster.len() ==> (#[trigger] dead_roster[i]).len() <= MAX_NAME_LEN,
    }
}

/// Encoding of one name: 16-bit length, then the bytes themselves.
pub open spec fn enc_name(n: Seq<u8>) -> Seq<u8> {
    enc_u16(n.len() as u16) + n
}

/// Encoding of a roster: each name in order, length-prefixed.
pub open spec fn enc_roster(r: Seq<Seq<u8>>) -> Seq<u8>
    decreases r.len(),
{
    if r.len() == 0 {
        Seq::empty()
    } else {
        enc_name(r[0]) + enc_roster(r.drop_first())
    }
}

/// The encoding of a whole message: tag byte, then the variant's payload.
pub open spec fn spec_encode(m: MessageV) -> Seq<u8> {
    match m {
        MessageV::Join { name } => seq![TAG_JOIN] + enc_name(name),
        MessageV::Leave => seq![TAG_LEAVE],
        MessageV::PlayerUpdate { position, rotation, dead_roster } => seq![TAG_UPDATE]
            + enc_u32(position.x) + enc_u32(position.y) + enc_u32(position.z)
            + enc_u32(rotation.x) + enc_u32(rotation.y) + enc_u32(rotation.z)
            + enc_u32(rotation.w) + enc_u16(dead_roster.len() as u16) + enc_roster(dead_roster),
    }
}

/// Everything of an update datagram that precedes the roster entries:
/// tag, seven transform lanes, and the 16-bit roster count.
pub open spec fn update_header(position: Vec3Bits, rotation: QuatBits, cnt: u16) -> Seq<u8> {
    seq![TAG_UPDATE] + enc_u32(position.x) + enc_u32(position.y) + enc_u32(position.z) + enc_u32(
        rotation.x,
    ) + enc_u32(rotation.y) + enc_u32(rotation.z) + enc_u32(rotation.w) + enc_u16(cnt)
}

/// Appending one name to a roster appends its encoding to the roster's.
pub proof fn lemma_enc_roster_snoc(r: Seq<Seq<u8>>, x: Seq<u8>)
    ensures
        enc_roster(r.push(x)) == enc_roster(r) + enc_name(x),
    decreases r.len(),
{
    if r.len() == 0 {
        assert(r.push(x)[0] == x);
        assert(r.push(x).drop_first() =~= Seq::<Seq<u8>>::empty());
        assert(enc_roster(r.push(x).drop_first()) == Seq::<u8>::empty());
        assert(enc_roster(r) == Seq::<u8>::empty());
        assert(enc_roster(r.push(x)) =~= enc_roster(r) + enc_name(x));
    } else {
        assert(r.push(x).drop_first() =~= r.drop_first().push(x));
        lemma_enc_roster_snoc(r.drop_first(), x);
        assert(enc_roster(r.push(x)) =~= enc_roster(r) + enc_name(x));
    }
}

/// Serialization of an outbound message failed; the message exceeds what the
/// wire format's length fields can carry.
#[derive(Clone, Copy, PartialEq, Eq, Structural, Debug)]
pub enum EncodeError {
    MessageTooLarge,
}

/// An undecodable datagram: truncated, trailing bytes, or an unknown tag.
#[derive(Clone, Copy, PartialEq, Eq, Structural, Debug)]
pub enum DecodeError {
    MalformedMessage,
}

/// Appends all of `b` to `out`.
fn push_bytes(out: &mut Vec<u8>, b: &Vec<u8>)
    ensures
        final(out)@ == old(out)@ + b@,
{
    let mut i: usize = 0;
    while i < b.len()
        invariant
            i <= b@.len(),
            out@ == old(out)@ + b@.subrange(0, i as int),
        decreases b@.len() - i,
    {
        out.push(b[i]);
        i = i + 1;
        proof {
            assert(out@ =~= old(out)@ + b@.subrange(0, i as int));
        }
    }
    proof {
        assert(out@ =~= old(out)@ + b@);
    }
}

/// Appends the length-prefixed encoding of `name` to `out`.
fn push_name(out: &mut Vec<u8>, name: &Vec<u8>)
    requires
        name@.len() <= MAX_NAME_LEN,
    ensures
        final(out)@ == old(out)@ + enc_name(name@),
{
    push_u16(out, name.len() as u16);
    push_bytes(out, name);
    proof {
        assert(out@ =~= old(out)@ + enc_name(name@));
    }
}

/// Serializes a message into the bytes of one datagram.
///
/// Succeeds on exactly the well-formed messages and then returns precisely
/// the deterministic encoding `spec_encode`.
pub fn encode(m: &Message) -> (r: Result<Vec<u8>, EncodeError>)
    ensures
        wf_message(m@) ==> (r matches Ok(bytes) && bytes@ == spec_encode(m@)),
        !wf_message(m@) ==> r is Err,
{
    match m {
        Message::Join { name } => {
            if name.len() > MAX_NAME_LEN {
                return Err(EncodeError::MessageTooLarge);
            }
            let mut out: Vec<u8> = Vec::new();
            out.push(TAG_JOIN);
            push_name(&mut out, name);
            proof {
                assert(out@ =~= spec_encode(m@));
            }
            Ok(out)
        },
        Message::Leave => {
            let mut out: Vec<u8> = Vec::new();
            out.push(TAG_LEAVE);
            proof {
                assert(out@ =~= spec_encode(m@));
            }
            Ok(out)
        },
        Message::PlayerUpdate { position, rotation, dead_roster } => {
            if dead_roster.len() > MAX_ROSTER_LEN {
                return Err(EncodeError::MessageTooLarge);
            }
            let mut out: Vec<u8> = Vec::new();
            out.push(TAG_UPDATE);
            push_u32(&mut out, position.x);
            push_u32(&mut out, position.y);
            push_u32(&mut out, position.z);
            push_u32(&mut out, rotation.x);
            push_u32(&mut out, rotation.y);
            push_u32(&mut out, rotation.z);
            push_u32(&mut out, rotation.w);
            push_u16(&mut out, dead_roster.len() as u16);
            proof {
                assert(out@ =~= update_header(*position, *rotation, dead_roster@.len() as u16));
            }
            let ghost names = roster_view(dead_roster@);
            let mut i: usize = 0;
            while i < dead_roster.len()
                invariant
                    i <= dead_roster@.len(),
                    dead_roster@.len() <= MAX_ROSTER_LEN,
                    names == roster_view(dead_roster@),
                    m@ == (MessageV::PlayerUpdate {
                        position: *position,
                        rotation: *rotation,
                        dead_roster: names,
                    }),
                    forall|j: int| 0 <= j < i ==> (#[trigger] names[j]).len() <= MAX_NAME_LEN,
                    out@ == update_header(*position, *rotation, dead_roster@.len() as u16)
                        + enc_roster(names.subrange(0, i as int)),
                decreases dead_roster@.len() - i,
            {
                let name = &dead_roster[i];
                if name.len() > MAX_NAME_LEN {
                    assert(names[i as int].len() > MAX_NAME_LEN);
                    return Err(EncodeError::MessageTooLarge);
                }
                push_name(&mut out, name);
                i = i + 1;
                proof {
                    assert(names.subrange(0, i as int) =~= names.subrange(0, i as int - 1).push(
                        names[i as int - 1],
                    ));
                    lemma_enc_roster_snoc(names.subrange(0, i as int - 1), names[i as int - 1]);
                }
            }
            proof {
                assert(names.subrange(0, names.len() as int) =~= names);
                assert(wf_message(m@));
            }
            Ok(out)
        },
    }
}

/// Reads a 16-bit value at position `i`; yields the value and the position
/// just past it, or nothing if fewer than two bytes remain.
pub open spec fn dec_u16(b: Seq<u8>, i: int) -> Option<(u16, int)> {
    if 0 <= i && i + 2 <= b.len() {
        Some((u16_of(b[i], b[i + 1]) as u16, i + 2))
    } else {
        None
    }
}

/// Reads a 32-bit value at position `i`.
pub open spec fn dec_u32(b: Seq<u8>, i: int) -> Option<(u32, int)> {
    if 0 <= i && i + 4 <= b.len() {
        Some((u32_of(b[i], b[i + 1], b[i + 2], b[i + 3]) as u32, i + 4))
    } else {
        None
    }
}

/// Reads one length-prefixed name at position `i`.
pub open spec fn dec_name(b: Seq<u8>, i: int) -> Option<(Seq<u8>, int)> {
    match dec_u16(b, i) {
        Some((len, j)) => if j + len <= b.len() {
            Some((b.subrange(j, j + len), j + len))
        } else {
            None
        },
        None => None,
    }
}

/// Reads `n` consecutive length-prefixed names starting at position `i`.
pub open spec fn dec_roster(b: Seq<u8>, i: int, n: int) -> Option<(Seq<Seq<u8>>, int)>
    decreases n,
{
    if n <= 0 {
        Some((Seq::empty(), i))
    } else {
        match dec_name(b, i) {
            Some((name, j)) => match dec_roster(b, j, n - 1) {
                Some((rest, k)) => Some((seq![name] + rest, k)),
                None => None,
            },
            None => None,
        }
    }
}

/// Reads three 32-bit position lanes at position `i`.
pub open spec fn dec_vec3(b: Seq<u8>, i: int) -> Option<(Vec3Bits, int)> {
    match dec_u32(b, i) {
        Some((x, i1)) => match dec_u32(b, i1) {
            Some((y, i2)) => match dec_u32(b, i2) {
                Some((z, i3)) => Some((Vec3Bits { x, y, z }, i3)),
                None => None,
            },
            None => None,
        },
        None => None,
    }
}

/// Reads four 32-bit rotation lanes at position `i`.
pub open spec fn dec_quat(b: Seq<u8>, i: int) -> Option<(QuatBits, int)> {
    match dec_u32(b, i) {
        Some((x, i1)) => match dec_u32(b, i1) {
            Some((y, i2)) => match dec_u32(b, i2) {
                Some((z, i3)) => match dec_u32(b, i3) {
                    Some((w, i4)) => Some((QuatBits { x, y, z, w }, i4)),
                    None => None,
                },
                None => None,
            },
            None => None,
        },
        None => None,
    }
}

/// The message a datagram stands for, if any: the datagram must carry a known
/// tag, parse completely, and leave no trailing bytes.
pub open spec fn spec_decode(b: Seq<u8>) -> Option<MessageV> {
    if b.len() == 0 {
        None
    } else if b[0] == TAG_JOIN {
        match dec_name(b, 1) {
            Some((name, j)) => if j == b.len() {
                Some(MessageV::Join { name })
            } else {
                None
            },
            None => None,
        }
    } else if b[0] == TAG_LEAVE {
        if b.len() == 1 {
            Some(MessageV::Leave)
        } else {
            None
        }
    } else if b[0] == TAG_UPDATE {
        match dec_vec3(b, 1) {
            Some((position, i1)) => match dec_quat(b, i1) {
                Some((rotation, i2)) => match dec_u16(b, i2) {
                    Some((cnt, i3)) => match dec_roster(b, i3, cnt as int) {
                        Some((dead_roster, i4)) => if i4 == b.len() {
                            Some(MessageV::PlayerUpdate { position, rotation, dead_roster })
                        } else {
                            None
                        },
                        None => None,
                    },
                    None => None,
                },
                None => None,
            },
            None => None,
        }
    } else {
        None
    }
}

/// Copies `len` bytes of `b` starting at `start` into a fresh vector.
fn copy_range(b: &Vec<u8>, start: usize, len: usize) -> (r: Vec<u8>)
    requires
        start + len <= b@.len(),
    ensures
        r@ == b@.subrange(start as int, start as int + len as int),
{
    let n = b.len();
    let mut r: Vec<u8> = Vec::new();
    let mut k: usize = 0;
    while k < len
        invariant
            k <= len,
            n == b@.len(),
            start + len <= n,
            r@ == b@.subrange(start as int, start as int + k as int),
        decreases len - k,
    {
        r.push(b[start + k]);
        k = k + 1;
        proof {
            assert(r@ =~= b@.subrange(start as int, start as int + k as int));
        }
    }
    r
}

/// Reads a 16-bit value at cursor `i`, as `dec_u16` describes.
fn read_u16_at(b: &Vec<u8>, i: usize) -> (r: Option<(u16, usize)>)
    requires
        i <= b@.len(),
    ensures
        match r {
            Some((v, j)) => dec_u16(b@, i as int) == Some((v, j as int)) && i < j <= b@.len(),
            None => dec_u16(b@, i as int) is None,
        },
{
    if b.len() - i >= 2 {
        let v = read_u16(b[i], b[i + 1]);
        Some((v, i + 2))
    } else {
        None
    }
}

/// Reads a 32-bit value at cursor `i`, as `dec_u32` describes.
fn read_u32_at(b: &Vec<u8>, i: usize) -> (r: Option<(u32, usize)>)
    requires
        i <= b@.len(),
    ensures
        match r {
            Some((v, j)) => dec_u32(b@, i as int) == Some((v, j as int)) && i < j <= b@.len(),
            None => dec_u32(b@, i as int) is None,
        },
{
    if b.len() - i >= 4 {
        let v = read_u32(b[i], b[i + 1], b[i + 2], b[i + 3]);
        Some((v, i + 4))
    } else {
        None
    }
}

/// Reads one length-prefixed name at cursor `i`, as `dec_name` describes.
fn read_name(b: &Vec<u8>, i: usize) -> (r: Option<(Vec<u8>, usize)>)
    requires
        i <= b@.len(),
    ensures
        match r {
            Some((name, j)) => dec_name(b@, i as int) == Some((name@, j as int)) && i < j
                <= b@.len() && name@.len() <= MAX_NAME_LEN,
            None => dec_name(b@, i as int) is None,
        },
{
    match read_u16_at(b, i) {
        Some((len, j)) => {
            if b.len() - j >= len as usize {
                let name = copy_range(b, j, len as usize);
                Some((name, j + len as usize))
            } else {
                None
            }
        },
        None => None,
    }
}

/// Glues a decoded prefix onto the outcome of decoding the rest of a roster.
pub open spec fn roster_prepend(prefix: Seq<Seq<u8>>, r: Option<(Seq<Seq<u8>>, int)>) -> Option<
    (Seq<Seq<u8>>, int),
> {
    match r {
        Some((rest, end)) => Some((prefix + rest, end)),
        None => None,
    }
}

/// Reads `cnt` length-prefixed names at cursor `start`, as `dec_roster`
/// describes.
fn read_roster(b: &Vec<u8>, start: usize, cnt: u16) -> (r: Option<(Vec<Vec<u8>>, usize)>)
    requires
        start <= b@.len(),
    ensures
        match r {
            Some((names, j)) => dec_roster(b@, start as int, cnt as int) == Some(
                (roster_view(names@), j as int),
            ) && j <= b@.len() && names@.len() == cnt as int && forall|ix: int|
                0 <= ix < names@.len() ==> (#[trigger] roster_view(names@)[ix]).len()
                    <= MAX_NAME_LEN,
            None => dec_roster(b@, start as int, cnt as int) is None,
        },
{
    let mut acc: Vec<Vec<u8>> = Vec::new();
    let mut cur: usize = start;
    let mut k: u16 = 0;
    while k < cnt
        invariant
            k <= cnt,
            cur <= b@.len(),
            acc@.len() == k as int,
            forall|ix: int|
                0 <= ix < acc@.len() ==> (#[trigger] roster_view(acc@)[ix]).len() <= MAX_NAME_LEN,
            dec_roster(b@, start as int, cnt as int) == roster_prepend(
                roster_view(acc@),
                dec_roster(b@, cur as int, cnt as int - k as int),
            ),
        decreases cnt - k,
    {
        match read_name(b, cur) {
            Some((name, j)) => {
                proof {
                    let tail = dec_roster(b@, j as int, cnt as int - k as int - 1);
                    match tail {
                        Some((rest, end)) => {
                            assert(roster_view(acc@.push(name)) =~= roster_view(acc@).push(name@));
                            assert(roster_view(acc@) + (seq![name@] + rest) =~= roster_view(
                                acc@.push(name),
                            ) + rest);
                        },
                        None => {},
                    }
                }
                let ghost nv = name@;
                let ghost prev_acc = acc@;
                acc.push(name);
                cur = j;
                k = k + 1;
                proof {
                    assert forall|ix: int| 0 <= ix < acc@.len() implies (#[trigger] roster_view(
                        acc@,
                    )[ix]).len() <= MAX_NAME_LEN by {
                        assert(roster_view(acc@)[ix] == acc@[ix]@);
                        if ix < acc@.len() - 1 {
                            assert(acc@[ix] == prev_acc[ix]);
                            assert(roster_view(prev_acc)[ix] == prev_acc[ix]@);
                        } else {
                            assert(acc@[ix]@ == nv);
                        }
                    }
                }
            },
            None => {
                return None;
            },
        }
    }
    proof {
        assert(dec_roster(b@, cur as int, 0) == Some((Seq::<Seq<u8>>::empty(), cur as int)));
        assert(roster_view(acc@) + Seq::<Seq<u8>>::empty() =~= roster_view(acc@));
    }
    Some((acc, cur))
}

/// Reads three position lanes at cursor `i`, as `dec_vec3` describes.
fn read_vec3_at(b: &Vec<u8>, i: usize) -> (r: Option<(Vec3Bits, usize)>)
    requires
        i <= b@.len(),
    ensures
        match r {
            Some((v, j)) => dec_vec3(b@, i as int) == Some((v, j as int)) && i < j <= b@.len(),
            None => dec_vec3(b@, i as int) is None,
        },
{
    match read_u32_at(b, i) {
        Some((x, i1)) => match read_u32_at(b, i1) {
            Some((y, i2)) => match read_u32_at(b, i2) {
                Some((z, i3)) => Some((Vec3Bits { x, y, z }, i3)),
                None => None,
            },
            None => None,
        },
        None => None,
    }
}

/// Reads four rotation lanes at cursor `i`, as `dec_quat` describes.
fn read_quat_at(b: &Vec<u8>, i: usize) -> (r: Option<(QuatBits, usize)>)
    requires
        i <= b@.len(),
    ensures
        match r {
            Some((v, j)) => dec_quat(b@, i as int) == Some((v, j as int)) && i < j <= b@.len(),
            None => dec_quat(b@, i as int) is None,
        },
{
    match read_u32_at(b, i) {
        Some((x, i1)) => match read_u32_at(b, i1) {
            Some((y, i2)) => match read_u32_at(b, i2) {
                Some((z, i3)) => match read_u32_at(b, i3) {
                    Some((w, i4)) => Some((QuatBits { x, y, z, w }, i4)),
                    None => None,
                },
                None => None,
            },
            None => None,
        },
        None => None,
    }
}

/// Parses the bytes of one datagram back into a message.
///
/// Total and panic-free: returns `Ok` exactly when the bytes are the complete
/// encoding of some message (`spec_decode`), and `MalformedMessage` on every
/// truncated, trailing-garbage, or unknown-tag payload.
pub fn decode(b: &Vec<u8>) -> (r: Result<Message, DecodeError>)
    ensures
        match r {
            Ok(m) => spec_decode(b@) == Some(m@) && wf_message(m@),
            Err(e) => spec_decode(b@) is None && e == DecodeError::MalformedMessage,
        },
{
    if b.len() == 0 {
        return Err(DecodeError::MalformedMessage);
    }
    let tag = b[0];
    if tag == TAG_JOIN {
        match read_name(b, 1) {
            Some((name, j)) => {
                if j == b.len() {
                    Ok(Message::Join { name })
                } else {
                    Err(DecodeError::MalformedMessage)
                }
            },
            None => Err(DecodeError::MalformedMessage),
        }
    } else if tag == TAG_LEAVE {
        if b.len() == 1 {
            Ok(Message::Leave)
        } else {
            Err(DecodeError::MalformedMessage)
        }
    } else if tag == TAG_UPDATE {
        match read_vec3_at(b, 1) {
            Some((position, i1)) => match read_quat_at(b, i1) {
                Some((rotation, i2)) => match read_u16_at(b, i2) {
                    Some((cnt, i3)) => match read_roster(b, i3, cnt) {
                        Some((dead_roster, i4)) => {
                            if i4 == b.len() {
                                Ok(Message::PlayerUpdate { position, rotation, dead_roster })
                            } else {
                                Err(DecodeError::MalformedMessage)
                            }
                        },
                        None => Err(DecodeError::MalformedMessage),
                    },
                    None => Err(DecodeError::MalformedMessage),
                },
                None => Err(DecodeError::MalformedMessage),
            },
            None => Err(DecodeError::MalformedMessage),
        }
    } else {
        Err(DecodeError::MalformedMessage)
    }
}

/// A 16-bit value is read back from its own little-endian bytes.
proof fn lemma_dec_u16_at(b: Seq<u8>, i: int, v: u16)
    requires
        0 <= i,
        i + 2 <= b.len(),
        b.subrange(i, i + 2) == enc_u16(v),
    ensures
        dec_u16(b, i) == Some((v, i + 2)),
{
    assert(b[i] == enc_u16(v)[0]);
    assert(b[i + 1] == enc_u16(v)[1]);
}

/// A 32-bit value is read back from its own little-endian bytes.
proof fn lemma_dec_u32_at(b: Seq<u8>, i: int, v: u32)
    requires
        0 <= i,
        i + 4 <= b.len(),
        b.subrange(i, i + 4) == enc_u32(v),
    ensures
        dec_u32(b, i) == Some((v, i + 4)),
{
    assert(b[i] == enc_u32(v)[0]);
    assert(b[i + 1] == enc_u32(v)[1]);
    assert(b[i + 2] == enc_u32(v)[2]);
    assert(b[i + 3] == enc_u32(v)[3]);
    assert(v % 256 + 256 * ((v / 256) % 256) + 65536 * ((v / 65536) % 256) + 16777216 * (v
        / 16777216) == v) by (bit_vector);
}

/// A name is read back from its own length-prefixed encoding.
proof fn lemma_dec_name_at(b: Seq<u8>, i: int, n: Seq<u8>)
    requires
        0 <= i,
        n.len() <= MAX_NAME_LEN,
        i + 2 + n.len() <= b.len(),
        b.subrange(i, i + 2 + n.len()) == enc_name(n),
    ensures
        dec_name(b, i) == Some((n, i + 2 + n.len())),
{
    let v = n.len() as u16;
    let e = enc_name(n);
    assert forall|j: int| i <= j < i + 2 + n.len() implies #[trigger] b[j] == e[j - i] by {
        assert(b.subrange(i, i + 2 + n.len() as int)[j - i] == e[j - i]);
    }
    assert(b.subrange(i, i + 2) =~= enc_u16(v));
    lemma_dec_u16_at(b, i, v);
    assert(b.subrange(i + 2, i + 2 + n.len()) =~= n);
}

/// A roster is read back, entry by entry, from its own encoding.
proof fn lemma_dec_roster_at(b: Seq<u8>, i: int, r: Seq<Seq<u8>>)
    requires
        0 <= i,
        forall|ix: int| 0 <= ix < r.len() ==> (#[trigger] r[ix]).len() <= MAX_NAME_LEN,
        i + enc_roster(r).len() <= b.len(),
        b.subrange(i, i + enc_roster(r).len()) == enc_roster(r),
    ensures
        dec_roster(b, i, r.len() as int) == Some((r, i + enc_roster(r).len())),
    decreases r.len(),
{
    if r.len() == 0 {
        assert(r =~= Seq::<Seq<u8>>::empty());
    } else {
        let head = r[0];
        let tail = r.drop_first();
        let l0 = 2 + head.len();
        let lrest = enc_roster(tail).len();
        assert(enc_roster(r) == enc_name(head) + enc_roster(tail));
        assert(enc_name(head).len() == l0);
        assert forall|j: int| i <= j < i + l0 + lrest implies #[trigger] b[j] == enc_roster(r)[j
            - i] by {
            assert(b.subrange(i, i + enc_roster(r).len() as int)[j - i] == enc_roster(r)[j - i]);
        }
        assert(b.subrange(i, i + l0) =~= enc_name(head));
        lemma_dec_name_at(b, i, head);
        assert(b.subrange(i + l0, i + l0 + lrest) =~= enc_roster(tail));
        lemma_dec_roster_at(b, i + l0, tail);
        assert(seq![head] + tail =~= r);
    }
}

/// What a successfully read 16-bit value says of the bytes: they are its
/// encoding, and exactly two were consumed.
proof fn lemma_exact_u16(b: Seq<u8>, i: int, v: u16, j: int)
    requires
        dec_u16(b, i) == Some((v, j)),
    ensures
        0 <= i,
        j == i + 2,
        j <= b.len(),
        b.subrange(i, j) == enc_u16(v),
{
    assert(b.subrange(i, i + 2) =~= seq![b[i], b[i + 1]]);
    assert(enc_u16(v) =~= seq![b[i], b[i + 1]]);
}

/// What a successfully read 32-bit value says of the bytes.
proof fn lemma_exact_u32(b: Seq<u8>, i: int, v: u32, j: int)
    requires
        dec_u32(b, i) == Some((v, j)),
    ensures
        0 <= i,
        j == i + 4,
        j <= b.len(),
        b.subrange(i, j) == enc_u32(v),
{
    let b0 = b[i];
    let b1 = b[i + 1];
    let b2 = b[i + 2];
    let b3 = b[i + 3];
    assert(v == b0 as u32 + 256 * (b1 as u32) + 65536 * (b2 as u32) + 16777216 * (b3 as u32));
    assert(v % 256 == b0 as u32 && (v / 256) % 256 == b1 as u32 && (v / 65536) % 256 == b2
        as u32 && v / 16777216 == b3 as u32) by (bit_vector)
        requires
            v == b0 as u32 + 256 * (b1 as u32) + 65536 * (b2 as u32) + 16777216 * (b3 as u32),
    ;
    assert(b.subrange(i, i + 4) =~= seq![b0, b1, b2, b3]);
    assert(enc_u32(v) =~= seq![b0, b1, b2, b3]);
}

/// What a successfully read name says of the bytes: they are its
/// length-prefixed encoding, and the name fits the wire format.
proof fn lemma_exact_name(b: Seq<u8>, i: int, n: Seq<u8>, j: int)
    requires
        dec_name(b, i) == Some((n, j)),
    ensures
        0 <= i,
        i + 2 <= j <= b.len(),
        n.len() == j - i - 2,
        n.len() <= MAX_NAME_LEN,
        b.subrange(i, j) == enc_name(n),
{
    match dec_u16(b, i) {
        Some((len, mid)) => {
            lemma_exact_u16(b, i, len, mid);
            assert(n == b.subrange(mid, mid + len));
            assert(n.len() as u16 == len);
            assert(b.subrange(i, j) =~= b.subrange(i, mid) + b.subrange(mid, j));
            assert(enc_name(n) =~= enc_u16(len) + n);
        },
        None => {
            assert(false);
        },
    }
}

/// What a successfully read roster says of the bytes, entry by entry.
proof fn lemma_exact_roster(b: Seq<u8>, i: int, cnt: int, r: Seq<Seq<u8>>, j: int)
    requires
        0 <= i <= b.len(),
        dec_roster(b, i, cnt) == Some((r, j)),
    ensures
        r.len() == if cnt >= 0 {
            cnt
        } else {
            0
        },
        i <= j <= b.len(),
        b.subrange(i, j) == enc_roster(r),
        forall|ix: int| 0 <= ix < r.len() ==> (#[trigger] r[ix]).len() <= MAX_NAME_LEN,
    decreases cnt,
{
    if cnt <= 0 {
        assert(r =~= Seq::<Seq<u8>>::empty());
        assert(b.subrange(i, i) =~= Seq::<u8>::empty());
        assert(enc_roster(r) == Seq::<u8>::empty());
    } else {
        match dec_name(b, i) {
            Some((head, mid)) => {
                lemma_exact_name(b, i, head, mid);
                match dec_roster(b, mid, cnt - 1) {
                    Some((rest, end)) => {
                        lemma_exact_roster(b, mid, cnt - 1, rest, end);
                        assert(r == seq![head] + rest);
                        assert(r[0] == head);
                        assert(r.drop_first() =~= rest);
                        assert(b.subrange(i, j) =~= b.subrange(i, mid) + b.subrange(mid, j));
                        assert(enc_roster(r) == enc_name(r[0]) + enc_roster(r.drop_first()));
                        assert forall|ix: int| 0 <= ix < r.len() implies (#[trigger] r[ix]).len()
                            <= MAX_NAME_LEN by {
                            if ix > 0 {
                                assert(r[ix] == rest[ix - 1]);
                            }
                        }
                    },
                    None => {
                        assert(false);
                    },
                }
            },
            None => {
                assert(false);
            },
        }
    }
}

/// Exactness for the update variant: a datagram the update parse accepts is
/// byte-for-byte the encoding of what it parsed.
#[verifier::rlimit(100)]
proof fn lemma_decode_exact_update(b: Seq<u8>, m: MessageV)
    requires
        b.len() > 0,
        b[0] == TAG_UPDATE,
        spec_decode(b) == Some(m),
    ensures
        wf_message(m),
        b == spec_encode(m),
{
    match dec_vec3(b, 1) {
        Some((position, i1)) => match dec_quat(b, i1) {
            Some((rotation, i2)) => match dec_u16(b, i2) {
                Some((cnt, i3)) => match dec_roster(b, i3, cnt as int) {
                    Some((dead_roster, i4)) => {
                        assert(m == MessageV::PlayerUpdate { position, rotation, dead_roster });
                        assert(i4 == b.len());
                        match dec_u32(b, 1) {
                            Some((px, o1)) => match dec_u32(b, o1) {
                                Some((py, o2)) => match dec_u32(b, o2) {
                                    Some((pz, o3)) => {
                                        lemma_exact_u32(b, 1, px, o1);
                                        lemma_exact_u32(b, o1, py, o2);
                                        lemma_exact_u32(b, o2, pz, o3);
                                        assert(position == Vec3Bits { x: px, y: py, z: pz });
                                    },
                                    None => {
                                        assert(false);
                                    },
                                },
                                None => {
                                    assert(false);
                                },
                            },
                            None => {
                                assert(false);
                            },
                        }
                        match dec_u32(b, 13) {
                            Some((rx, o4)) => match dec_u32(b, o4) {
                                Some((ry, o5)) => match dec_u32(b, o5) {
                                    Some((rz, o6)) => match dec_u32(b, o6) {
                                        Some((rw, o7)) => {
                                            lemma_exact_u32(b, 13, rx, o4);
                                            lemma_exact_u32(b, o4, ry, o5);
                                            lemma_exact_u32(b, o5, rz, o6);
                                            lemma_exact_u32(b, o6, rw, o7);
                                            assert(rotation == QuatBits {
                                                x: rx,
                                                y: ry,
                                                z: rz,
                                                w: rw,
                                            });
                                        },
                                        None => {
                                            assert(false);
                                        },
                                    },
                                    None => {
                                        assert(false);
                                    },
                                },
                                None => {
                                    assert(false);
                                },
                            },
                            None => {
                                assert(false);
                            },
                        }
                        lemma_exact_u16(b, i2, cnt, i3);
                        lemma_exact_roster(b, i3, cnt as int, dead_roster, i4);
                        assert(dead_roster.len() == cnt as int);
                        assert(dead_roster.len() as u16 == cnt);
                        assert(wf_message(m));
                        assert(b =~= seq![TAG_UPDATE] + b.subrange(1, 5) + b.subrange(5, 9)
                            + b.subrange(9, 13) + b.subrange(13, 17) + b.subrange(17, 21)
                            + b.subrange(21, 25) + b.subrange(25, 29) + b.subrange(29, 31)
                            + b.subrange(31, b.len() as int));
                    },
                    None => {
                        assert(false);
                    },
                },
                None => {
                    assert(false);
                },
            },
            None => {
                assert(false);
            },
        },
        None => {
            assert(false);
        },
    }
}

/// Exactness: a datagram `decode` accepts is byte-for-byte the encoding of
/// the message it returns.  Together with `lemma_round_trip` this pins the
/// codec completely: the decodable payloads are exactly the encodings of
/// well-formed messages, and everything else — truncated, padded, or
/// foreign bytes — is malformed.
pub proof fn lemma_decode_exact(b: Seq<u8>, m: MessageV)
    requires
        spec_decode(b) == Some(m),
    ensures
        wf_message(m),
        b == spec_encode(m),
{
    assert(b.len() > 0);
    if b[0] == TAG_JOIN {
        match dec_name(b, 1) {
            Some((name, j)) => {
                assert(m == MessageV::Join { name });
                assert(j == b.len());
                lemma_exact_name(b, 1, name, j);
                assert(b =~= seq![TAG_JOIN] + b.subrange(1, b.len() as int));
            },
            None => {
                assert(false);
            },
        }
    } else if b[0] == TAG_LEAVE {
        assert(b.len() == 1);
        assert(b =~= seq![TAG_LEAVE]);
    } else {
        assert(b[0] == TAG_UPDATE);
        lemma_decode_exact_update(b, m);
    }
}

/// Round trip for the update variant: the header's fixed lanes and the
/// roster are read back from their own encoding.
#[verifier::rlimit(100)]
proof fn lemma_round_trip_update(position: Vec3Bits, rotation: QuatBits, dead_roster: Seq<Seq<u8>>)
    requires
        wf_message(MessageV::PlayerUpdate { position, rotation, dead_roster }),
    ensures
        spec_decode(spec_encode(MessageV::PlayerUpdate { position, rotation, dead_roster }))
            == Some(MessageV::PlayerUpdate { position, rotation, dead_roster }),
{
    let m = MessageV::PlayerUpdate { position, rotation, dead_roster };
    let b = spec_encode(m);
    let cnt = dead_roster.len() as u16;
    assert(b[0] == TAG_UPDATE);
    assert(b.subrange(1, 5) =~= enc_u32(position.x));
    assert(b.subrange(5, 9) =~= enc_u32(position.y));
    assert(b.subrange(9, 13) =~= enc_u32(position.z));
    assert(b.subrange(13, 17) =~= enc_u32(rotation.x));
    assert(b.subrange(17, 21) =~= enc_u32(rotation.y));
    assert(b.subrange(21, 25) =~= enc_u32(rotation.z));
    assert(b.subrange(25, 29) =~= enc_u32(rotation.w));
    assert(b.subrange(29, 31) =~= enc_u16(cnt));
    lemma_dec_u32_at(b, 1, position.x);
    lemma_dec_u32_at(b, 5, position.y);
    lemma_dec_u32_at(b, 9, position.z);
    lemma_dec_u32_at(b, 13, rotation.x);
    lemma_dec_u32_at(b, 17, rotation.y);
    lemma_dec_u32_at(b, 21, rotation.z);
    lemma_dec_u32_at(b, 25, rotation.w);
    lemma_dec_u16_at(b, 29, cnt);
    assert(dec_vec3(b, 1) == Some((position, 13int)));
    assert(dec_quat(b, 13) == Some((rotation, 29int)));
    assert(b.len() == 31 + enc_roster(dead_roster).len());
    assert(b.subrange(31, 31 + enc_roster(dead_roster).len() as int) =~= enc_roster(dead_roster));
    lemma_dec_roster_at(b, 31, dead_roster);
}

/// A 16-bit read that succeeds on a prefix succeeds identically on the full
/// buffer.
proof fn lemma_transfer_u16(b: Seq<u8>, k: int, i: int, v: u16, j: int)
    requires
        0 <= k <= b.len(),
        dec_u16(b.subrange(0, k), i) == Some((v, j)),
    ensures
        dec_u16(b, i) == Some((v, j)),
{
    assert(b.subrange(0, k)[i] == b[i]);
    assert(b.subrange(0, k)[i + 1] == b[i + 1]);
}

/// A 32-bit read that succeeds on a prefix succeeds identically on the full
/// buffer.
proof fn lemma_transfer_u32(b: Seq<u8>, k: int, i: int, v: u32, j: int)
    requires
        0 <= k <= b.len(),
        dec_u32(b.subrange(0, k), i) == Some((v, j)),
    ensures
        dec_u32(b, i) == Some((v, j)),
{
    assert(b.subrange(0, k)[i] == b[i]);
    assert(b.subrange(0, k)[i + 1] == b[i + 1]);
    assert(b.subrange(0, k)[i + 2] == b[i + 2]);
    assert(b.subrange(0, k)[i + 3] == b[i + 3]);
}

/// A name read that succeeds on a prefix succeeds identically on the full
/// buffer.
proof fn lemma_transfer_name(b: Seq<u8>, k: int, i: int, n: Seq<u8>, j: int)
    requires
        0 <= k <= b.len(),
        dec_name(b.subrange(0, k), i) == Some((n, j)),
    ensures
        dec_name(b, i) == Some((n, j)),
{
    let p = b.subrange(0, k);
    match dec_u16(p, i) {
        Some((len, mid)) => {
            lemma_transfer_u16(b, k, i, len, mid);
            assert(p.subrange(mid, mid + len) =~= b.subrange(mid, mid + len));
        },
        None => {
            assert(false);
        },
    }
}

/// A roster read that succeeds on a prefix succeeds identically on the full
/// buffer.
proof fn lemma_transfer_roster(b: Seq<u8>, k: int, i: int, cnt: int, r: Seq<Seq<u8>>, j: int)
    requires
        0 <= k <= b.len(),
        dec_roster(b.subrange(0, k), i, cnt) == Some((r, j)),
    ensures
        dec_roster(b, i, cnt) == Some((r, j)),
    decreases cnt,
{
    if cnt > 0 {
        let p = b.subrange(0, k);
        match dec_name(p, i) {
            Some((head, mid)) => {
                lemma_transfer_name(b, k, i, head, mid);
                match dec_roster(p, mid, cnt - 1) {
                    Some((rest, end)) => {
                        lemma_transfer_roster(b, k, mid, cnt - 1, rest, end);
                    },
                    None => {
                        assert(false);
                    },
                }
            },
            None => {
                assert(false);
            },
        }
    }
}

/// Self-delimitation: no strict prefix of a valid datagram is itself
/// accepted.  With `lemma_round_trip` and `lemma_decode_exact` this
/// completes the decoder's characterization: one datagram carries exactly
/// one message, and a truncated one is malformed.
pub proof fn lemma_prefix_rejected(m: MessageV, k: int)
    requires
        wf_message(m),
        0 <= k < spec_encode(m).len(),
    ensures
        spec_decode(spec_encode(m).subrange(0, k)) is None,
{
    let b = spec_encode(m);
    let p = b.subrange(0, k);
    lemma_round_trip(m);
    if spec_decode(p) is Some {
        assert(p.len() == k);
        assert(p[0] == b[0]);
        match m {
            MessageV::Join { name } => {
                match dec_name(p, 1) {
                    Some((n2, j2)) => {
                        assert(j2 == k);
                        lemma_transfer_name(b, k, 1, n2, j2);
                        // The same read on the full datagram stops short of
                        // its end, so the full datagram would be rejected —
                        // against the round trip.
                        assert(spec_decode(b) is None);
                        assert(false);
                    },
                    None => {},
                }
            },
            MessageV::Leave => {
                assert(b.len() == 1);
            },
            MessageV::PlayerUpdate { position, rotation, dead_roster } => {
                match dec_vec3(p, 1) {
                    Some((p2, i1)) => match dec_quat(p, i1) {
                        Some((q2, i2)) => match dec_u16(p, i2) {
                            Some((cnt2, i3)) => match dec_roster(p, i3, cnt2 as int) {
                                Some((r2, i4)) => {
                                    assert(i4 == k);
                                    lemma_transfer_vec3(b, k, 1, p2, i1);
                                    lemma_transfer_quat(b, k, i1, q2, i2);
                                    lemma_transfer_u16(b, k, i2, cnt2, i3);
                                    lemma_transfer_roster(b, k, i3, cnt2 as int, r2, i4);
                                    // The same reads on the full datagram
                                    // stop short of its end, so it would be
                                    // rejected — against the round trip.
                                    assert(spec_decode(b) is None);
                                    assert(false);
                                },
                                None => {},
                            },
                            None => {},
                        },
                        None => {},
                    },
                    None => {},
                }
            },
        }
    }
}

/// A position read that succeeds on a prefix succeeds identically on the
/// full buffer.
proof fn lemma_transfer_vec3(b: Seq<u8>, k: int, i: int, v: Vec3Bits, j: int)
    requires
        0 <= k <= b.len(),
        dec_vec3(b.subrange(0, k), i) == Some((v, j)),
    ensures
        dec_vec3(b, i) == Some((v, j)),
{
    let p = b.subrange(0, k);
    match dec_u32(p, i) {
        Some((x, o1)) => match dec_u32(p, o1) {
            Some((y, o2)) => match dec_u32(p, o2) {
                Some((z, o3)) => {
                    lemma_transfer_u32(b, k, i, x, o1);
                    lemma_transfer_u32(b, k, o1, y, o2);
                    lemma_transfer_u32(b, k, o2, z, o3);
                },
                None => {
                    assert(false);
                },
            },
            None => {
                assert(false);
            },
        },
        None => {
            assert(false);
        },
    }
}

/// A rotation read that succeeds on a prefix succeeds identically on the
/// full buffer.
proof fn lemma_transfer_quat(b: Seq<u8>, k: int, i: int, v: QuatBits, j: int)
    requires
        0 <= k <= b.len(),
        dec_quat(b.subrange(0, k), i) == Some((v, j)),
    ensures
        dec_quat(b, i) == Some((v, j)),
{
    let p = b.subrange(0, k);
    match dec_u32(p, i) {
        Some((x, o1)) => match dec_u32(p, o1) {
            Some((y, o2)) => match dec_u32(p, o2) {
                Some((z, o3)) => match dec_u32(p, o3) {
                    Some((w, o4)) => {
                        lemma_transfer_u32(b, k, i, x, o1);
                        lemma_transfer_u32(b, k, o1, y, o2);
                        lemma_transfer_u32(b, k, o2, z, o3);
                        lemma_transfer_u32(b, k, o3, w, o4);
                    },
                    None => {
                        assert(false);
                    },
                },
                None => {
                    assert(false);
                },
            },
            None => {
                assert(false);
            },
        },
        None => {
            assert(false);
        },
    }
}

/// Round trip: decoding the encoding of any well-formed message yields that
/// message back, exactly.
pub proof fn lemma_round_trip(m: MessageV)
    requires
        wf_message(m),
    ensures
        spec_decode(spec_encode(m)) == Some(m),
{
    let b = spec_encode(m);
    match m {
        MessageV::Join { name } => {
            assert(b[0] == TAG_JOIN);
            assert(b.subrange(1, 1 + 2 + name.len() as int) =~= enc_name(name));
            lemma_dec_name_at(b, 1, name);
            assert(b.len() == 3 + name.len());
        },
        MessageV::Leave => {
            assert(b.len() == 1);
            assert(b[0] == TAG_LEAVE);
        },
        MessageV::PlayerUpdate { position, rotation, dead_roster } => {
            lemma_round_trip_update(position, rotation, dead_roster);
        },
    }
}

} // verus!
