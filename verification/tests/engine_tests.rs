use tyche::codec::{decode_message, encode_message, WireMessage};
use tyche::color::Color;
use tyche::host::{ClientBatch, HostState};
use tyche::lobby::ConnectionEvent;
use tyche::transport::{ChannelQueue, DeliveryClass, Network};
use tyche::wire::{PlayerInput, SpawnToken, Token, TokenMovement};

fn token(id: u128, name: &str) -> Token {
    Token {
        id,
        name: name.to_string(),
        color: Color { red: 200, green: 10, blue: 10, alpha: 255 },
        portrait: None,
    }
}

fn empty_batch(client_id: u64) -> ClientBatch {
    ClientBatch { client_id, ordered: Vec::new(), unordered: Vec::new() }
}

fn spawn_bytes(t: &Token) -> Vec<u8> {
    encode_message(&WireMessage::Spawn(SpawnToken(t.clone())))
}

fn move_bytes(id: u128, input: PlayerInput) -> Vec<u8> {
    encode_message(&WireMessage::Movement(TokenMovement(id, input)))
}

const RIGHT: PlayerInput = PlayerInput { up: false, down: false, left: false, right: true };
const UP: PlayerInput = PlayerInput { up: true, down: false, left: false, right: false };

/// Client A spawns a token at the origin, client B receives the relayed
/// spawn message, and one second of rightward input at speed 200 moves the
/// token to x of about 200.
#[test]
fn spawn_relay_and_one_second_of_movement() {
    let mut host = HostState::new();
    let mut net = Network::new();
    net.connect(1);
    net.connect(2);
    host.tick(
        &mut net,
        &vec![
            ConnectionEvent::Connected { client_id: 1 },
            ConnectionEvent::Connected { client_id: 2 },
        ],
        &vec![empty_batch(1), empty_batch(2)],
        0,
    );

    let t = token(99, "knight");
    host.tick(
        &mut net,
        &Vec::new(),
        &vec![
            ClientBatch { client_id: 1, ordered: Vec::new(), unordered: vec![spawn_bytes(&t)] },
            empty_batch(2),
        ],
        0,
    );
    assert_eq!(host.tokens.len(), 1);
    assert_eq!(host.tokens[0].position.x, 0);
    assert_eq!(host.tokens[0].position.y, 0);

    // B must find the relayed spawn message in its reliable-unordered queue.
    let mut relayed = false;
    for e in net.endpoints.iter_mut() {
        if e.client_id == 2 {
            let msgs = e.unordered.drain();
            for m in msgs {
                if let Some(WireMessage::Spawn(SpawnToken(back))) = decode_message(&m) {
                    assert_eq!(back.id, 99);
                    assert_eq!(back.name, "knight");
                    relayed = true;
                }
            }
        }
    }
    assert!(relayed, "client B never received the spawn relay");

    // One simulated second of rightward movement at speed 200.
    host.tick(
        &mut net,
        &Vec::new(),
        &vec![
            ClientBatch { client_id: 1, ordered: vec![move_bytes(99, RIGHT)], unordered: Vec::new() },
            empty_batch(2),
        ],
        1000,
    );
    let x_units = host.tokens[0].position.x as f64 / 1000.0;
    let y_units = host.tokens[0].position.y as f64 / 1000.0;
    assert!((x_units - 200.0).abs() < 1e-9);
    assert!(y_units.abs() < 1e-9);
}

/// A valid spawn and an unrelated garbage payload interleave on the same
/// tick: the spawn is processed and the garbage ignored without error.
#[test]
fn garbage_between_valid_messages_is_ignored() {
    let mut host = HostState::new();
    let mut net = Network::new();
    net.connect(1);
    host.tick(
        &mut net,
        &vec![ConnectionEvent::Connected { client_id: 1 }],
        &vec![empty_batch(1)],
        0,
    );
    let t = token(5, "bard");
    host.tick(
        &mut net,
        &Vec::new(),
        &vec![ClientBatch {
            client_id: 1,
            ordered: vec![b"zzz not a message".to_vec()],
            unordered: vec![
                b"garbage before".to_vec(),
                spawn_bytes(&t),
                vec![255, 254, 253],
            ],
        }],
        16,
    );
    assert_eq!(host.tokens.len(), 1);
    assert_eq!(host.tokens[0].token.id, 5);
    assert_eq!(host.lobby.len(), 1);
}

/// A connection drops mid-session: the remaining connections still receive
/// that tick's snapshot.
#[test]
fn remaining_peers_receive_snapshot_after_a_drop() {
    let mut host = HostState::new();
    let mut net = Network::new();
    net.connect(1);
    net.connect(2);
    net.connect(3);
    host.tick(
        &mut net,
        &vec![
            ConnectionEvent::Connected { client_id: 1 },
            ConnectionEvent::Connected { client_id: 2 },
            ConnectionEvent::Connected { client_id: 3 },
        ],
        &vec![empty_batch(1), empty_batch(2), empty_batch(3)],
        0,
    );
    let t = token(11, "rogue");
    host.tick(
        &mut net,
        &Vec::new(),
        &vec![ClientBatch { client_id: 1, ordered: Vec::new(), unordered: vec![spawn_bytes(&t)] }],
        0,
    );

    // Client 2 drops; its endpoint and queued messages vanish with it.
    net.disconnect(2);
    host.tick(
        &mut net,
        &vec![ConnectionEvent::Disconnected { client_id: 2 }],
        &Vec::new(),
        16,
    );

    assert_eq!(host.lobby.len(), 2);
    for e in net.endpoints.iter_mut() {
        assert!(e.client_id != 2);
        let mut saw_snapshot = false;
        loop {
            match e.unreliable.try_recv() {
                None => break,
                Some(m) => {
                    if let Some(WireMessage::Snapshot(entries)) = decode_message(&m) {
                        if entries.iter().any(|s| s.id == 11) {
                            saw_snapshot = true;
                        }
                    }
                }
            }
        }
        assert!(saw_snapshot, "a remaining peer missed the tick's snapshot");
    }
}

/// Lobby entries equal connect events minus disconnect events at every tick
/// boundary.
#[test]
fn presence_count_tracks_connects_minus_disconnects() {
    let mut host = HostState::new();
    let mut net = Network::new();
    host.tick(
        &mut net,
        &vec![
            ConnectionEvent::Connected { client_id: 1 },
            ConnectionEvent::Connected { client_id: 2 },
        ],
        &Vec::new(),
        0,
    );
    assert_eq!(host.lobby.len(), 2);
    host.tick(
        &mut net,
        &vec![
            ConnectionEvent::Connected { client_id: 3 },
            ConnectionEvent::Disconnected { client_id: 1 },
        ],
        &Vec::new(),
        0,
    );
    assert_eq!(host.lobby.len(), 2);
    host.tick(
        &mut net,
        &vec![ConnectionEvent::Disconnected { client_id: 2 }],
        &Vec::new(),
        0,
    );
    assert_eq!(host.lobby.len(), 1);
}

/// Movement intents queued on the reliable-ordered channel are applied in
/// send order: the last sent intent is the one that stands.
#[test]
fn ordered_channel_delivers_intents_in_send_order() {
    let mut host = HostState::new();
    let mut net = Network::new();
    net.connect(1);
    host.tick(
        &mut net,
        &vec![ConnectionEvent::Connected { client_id: 1 }],
        &vec![ClientBatch {
            client_id: 1,
            ordered: Vec::new(),
            unordered: vec![spawn_bytes(&token(7, "monk"))],
        }],
        0,
    );

    let mut queue = ChannelQueue::new();
    queue.send(move_bytes(7, RIGHT));
    queue.send(move_bytes(7, UP));
    let drained = queue.drain();
    assert_eq!(drained.len(), 2);
    host.tick(
        &mut net,
        &Vec::new(),
        &vec![ClientBatch { client_id: 1, ordered: drained, unordered: Vec::new() }],
        0,
    );
    // Intents overwrite whole: only the later one may stand.
    assert_eq!(host.tokens[0].input, UP);
}

/// A message addressed to one connection reaches that connection alone.
#[test]
fn unicast_reaches_only_its_target() {
    let mut net = Network::new();
    net.connect(1);
    net.connect(2);
    let payload = encode_message(&WireMessage::Presence(
        tyche::wire::ServerMessages::PlayerConnected { id: 9 },
    ));
    net.send_to(2, DeliveryClass::ReliableUnordered, &payload);
    for e in net.endpoints.iter_mut() {
        if e.client_id == 2 {
            assert_eq!(e.unordered.len(), 1);
            assert_eq!(e.unordered.try_recv(), Some(payload.clone()));
        } else {
            assert_eq!(e.unordered.len(), 0);
        }
        assert_eq!(e.ordered.len(), 0);
        assert_eq!(e.unreliable.len(), 0);
    }
}

/// The first spawn of a connection is recorded as its owned token; a second
/// spawn still enters the world but ownership stays with the first.
#[test]
fn first_spawn_owns_the_connection_entry() {
    let mut host = HostState::new();
    let mut net = Network::new();
    net.connect(1);
    host.tick(
        &mut net,
        &vec![ConnectionEvent::Connected { client_id: 1 }],
        &vec![ClientBatch {
            client_id: 1,
            ordered: Vec::new(),
            unordered: vec![spawn_bytes(&token(21, "first")), spawn_bytes(&token(22, "second"))],
        }],
        0,
    );
    assert_eq!(host.tokens.len(), 2);
    assert_eq!(host.lobby.players.get(&1), Some(&Some(21)));
}
