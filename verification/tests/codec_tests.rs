use tyche::codec::{decode_message, encode_message, WireMessage};
use tyche::color::Color;
use tyche::wire::{PlayerInput, Position, ServerMessages, SnapshotEntry, SpawnToken, Token,
    TokenMovement};

fn sample_token() -> Token {
    Token {
        id: 0x0011_2233_4455_6677_8899_aabb_ccdd_eeff,
        name: "Åsa the Wanderer".to_string(),
        color: Color { red: 1, green: 2, blue: 3, alpha: 4 },
        portrait: Some("portraits/åsa.png".to_string()),
    }
}

#[test]
fn presence_has_its_exact_bytes() {
    let m = WireMessage::Presence(ServerMessages::PlayerConnected { id: 5 });
    assert_eq!(encode_message(&m), vec![1, 5, 0, 0, 0, 0, 0, 0, 0]);
    let d = WireMessage::Presence(ServerMessages::PlayerDisconnected { id: 258 });
    assert_eq!(encode_message(&d), vec![2, 2, 1, 0, 0, 0, 0, 0, 0]);
}

#[test]
fn movement_round_trips() {
    let m = WireMessage::Movement(TokenMovement(
        42,
        PlayerInput { up: true, down: false, left: false, right: true },
    ));
    let bytes = encode_message(&m);
    match decode_message(&bytes) {
        Some(WireMessage::Movement(mv)) => {
            assert_eq!(mv.0, 42);
            assert!(mv.1.up && mv.1.right && !mv.1.down && !mv.1.left);
        }
        _ => panic!("movement must decode as movement"),
    }
}

#[test]
fn spawn_round_trips_with_non_ascii_name() {
    let t = sample_token();
    let bytes = encode_message(&WireMessage::Spawn(SpawnToken(t.clone())));
    match decode_message(&bytes) {
        Some(WireMessage::Spawn(SpawnToken(back))) => {
            assert_eq!(back.id, t.id);
            assert_eq!(back.name, t.name);
            assert_eq!(back.color, t.color);
            assert_eq!(back.portrait, t.portrait);
        }
        _ => panic!("spawn must decode as spawn"),
    }
}

#[test]
fn snapshot_round_trips_with_negative_coordinates() {
    let entries = vec![
        SnapshotEntry { id: 7, position: Position { x: -200_000, y: 5, z: 0 } },
        SnapshotEntry { id: 9, position: Position { x: i64::MAX, y: i64::MIN, z: -1 } },
    ];
    let bytes = encode_message(&WireMessage::Snapshot(entries.clone()));
    match decode_message(&bytes) {
        Some(WireMessage::Snapshot(back)) => assert_eq!(back, entries),
        _ => panic!("snapshot must decode as snapshot"),
    }
}

#[test]
fn garbage_and_truncation_decode_to_nothing() {
    assert!(decode_message(&[]).is_none());
    assert!(decode_message(&[0]).is_none());
    assert!(decode_message(&[9, 1, 2, 3]).is_none());
    assert!(decode_message(b"not a wire message at all").is_none());
    // A valid message with bytes missing or appended is no message.
    let bytes = encode_message(&WireMessage::Presence(ServerMessages::PlayerConnected { id: 5 }));
    assert!(decode_message(&bytes[..bytes.len() - 1]).is_none());
    let mut extended = bytes.clone();
    extended.push(0);
    assert!(decode_message(&extended).is_none());
}

#[test]
fn movement_bytes_with_unknown_input_bits_are_rejected() {
    let m = WireMessage::Movement(TokenMovement(1, PlayerInput {
        up: false,
        down: false,
        left: false,
        right: false,
    }));
    let mut bytes = encode_message(&m);
    let last = bytes.len() - 1;
    bytes[last] = 16;
    assert!(decode_message(&bytes).is_none());
}
