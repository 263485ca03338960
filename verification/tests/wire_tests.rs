use multiplayer_fps::wire::{decode, encode, DecodeError, Message, QuatBits, Vec3Bits};

fn name(s: &str) -> Vec<u8> {
    s.as_bytes().to_vec()
}

fn sample_update() -> Message {
    Message::PlayerUpdate {
        position: Vec3Bits { x: 0x3F800000, y: 0, z: 0x40000000 },
        rotation: QuatBits { x: 0, y: 0x3F000000, z: 0, w: 0x3F800000 },
        dead_roster: vec![name("Bob"), name("Cid")],
    }
}

#[test]
fn round_trip_join() {
    let m = Message::Join { name: name("Ann") };
    let bytes = encode(&m).unwrap();
    assert_eq!(decode(&bytes), Ok(m));
}

#[test]
fn round_trip_leave() {
    let bytes = encode(&Message::Leave).unwrap();
    assert_eq!(decode(&bytes), Ok(Message::Leave));
}

#[test]
fn round_trip_update() {
    let m = sample_update();
    let bytes = encode(&m).unwrap();
    assert_eq!(decode(&bytes), Ok(m));
}

#[test]
fn round_trip_update_empty_roster() {
    let m = Message::PlayerUpdate {
        position: Vec3Bits { x: 0, y: 0, z: 0 },
        rotation: QuatBits { x: 0, y: 0, z: 0, w: 0 },
        dead_roster: vec![],
    };
    let bytes = encode(&m).unwrap();
    assert_eq!(decode(&bytes), Ok(m));
}

#[test]
fn round_trip_empty_name() {
    let m = Message::Join { name: vec![] };
    let bytes = encode(&m).unwrap();
    assert_eq!(decode(&bytes), Ok(m));
}

#[test]
fn join_exact_bytes() {
    let bytes = encode(&Message::Join { name: name("Ann") }).unwrap();
    assert_eq!(bytes, vec![1u8, 3, 0, b'A', b'n', b'n']);
}

#[test]
fn leave_exact_bytes() {
    assert_eq!(encode(&Message::Leave).unwrap(), vec![2u8]);
}

#[test]
fn update_exact_bytes() {
    let m = Message::PlayerUpdate {
        position: Vec3Bits { x: 1, y: 0x0102, z: 0xDEADBEEF },
        rotation: QuatBits { x: 0, y: 0, z: 0, w: 0x01000000 },
        dead_roster: vec![name("Bo")],
    };
    let bytes = encode(&m).unwrap();
    let mut expected: Vec<u8> = vec![3];
    expected.extend_from_slice(&[1, 0, 0, 0]); // position.x
    expected.extend_from_slice(&[0x02, 0x01, 0, 0]); // position.y
    expected.extend_from_slice(&[0xEF, 0xBE, 0xAD, 0xDE]); // position.z
    expected.extend_from_slice(&[0, 0, 0, 0]); // rotation.x
    expected.extend_from_slice(&[0, 0, 0, 0]); // rotation.y
    expected.extend_from_slice(&[0, 0, 0, 0]); // rotation.z
    expected.extend_from_slice(&[0, 0, 0, 1]); // rotation.w
    expected.extend_from_slice(&[1, 0]); // roster count
    expected.extend_from_slice(&[2, 0, b'B', b'o']); // one name
    assert_eq!(bytes, expected);
}

#[test]
fn decode_rejects_empty() {
    assert_eq!(decode(&vec![]), Err(DecodeError::MalformedMessage));
}

#[test]
fn decode_rejects_unknown_tag() {
    assert_eq!(decode(&vec![9u8, 0, 0]), Err(DecodeError::MalformedMessage));
}

#[test]
fn decode_rejects_truncated_join() {
    let bytes = encode(&Message::Join { name: name("Ann") }).unwrap();
    for cut in 0..bytes.len() {
        let prefix: Vec<u8> = bytes[..cut].to_vec();
        assert_eq!(decode(&prefix), Err(DecodeError::MalformedMessage));
    }
}

#[test]
fn decode_rejects_truncated_update() {
    let bytes = encode(&sample_update()).unwrap();
    for cut in 0..bytes.len() {
        let prefix: Vec<u8> = bytes[..cut].to_vec();
        assert_eq!(decode(&prefix), Err(DecodeError::MalformedMessage));
    }
}

#[test]
fn decode_rejects_trailing_bytes() {
    let mut bytes = encode(&Message::Leave).unwrap();
    bytes.push(0);
    assert_eq!(decode(&bytes), Err(DecodeError::MalformedMessage));

    let mut bytes = encode(&Message::Join { name: name("Ann") }).unwrap();
    bytes.push(7);
    assert_eq!(decode(&bytes), Err(DecodeError::MalformedMessage));
}

#[test]
fn decode_rejects_overlong_length_field() {
    // A Join whose length field promises more bytes than the datagram holds.
    assert_eq!(decode(&vec![1u8, 10, 0, b'A']), Err(DecodeError::MalformedMessage));
}

#[test]
fn decode_rejects_garbage() {
    let garbage: Vec<u8> = (0u8..64).map(|i| i.wrapping_mul(37).wrapping_add(11)).collect();
    assert!(decode(&garbage).is_err());
}

#[test]
fn encode_rejects_overlong_name() {
    let m = Message::Join { name: vec![b'x'; 0x10000] };
    assert!(encode(&m).is_err());
}

#[test]
fn encode_rejects_overlong_roster_name() {
    let m = Message::PlayerUpdate {
        position: Vec3Bits { x: 0, y: 0, z: 0 },
        rotation: QuatBits { x: 0, y: 0, z: 0, w: 0 },
        dead_roster: vec![vec![b'x'; 0x10000]],
    };
    assert!(encode(&m).is_err());
}
