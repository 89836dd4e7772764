use tyche::client::{player_input, token_of_character, ClientState};
use tyche::codec::{decode_message, encode_message, WireMessage};
use tyche::color::{Character, Color};
use tyche::host::{ClientBatch, HostState};
use tyche::lobby::ConnectionEvent;
use tyche::login::{build_character, choose_color, plan_message, BevyMessage, CurrentCharacter, LoginFlow, LoginState, MessagePlan};
use tyche::transport::Network;
use tyche::wire::{PlayerInput, Position, ServerMessages, SnapshotEntry, SpawnToken, Token};

fn token(id: u128, name: &str) -> Token {
    Token {
        id,
        name: name.to_string(),
        color: Color { red: 1, green: 2, blue: 3, alpha: 4 },
        portrait: None,
    }
}

/// Re-applying the same snapshot leaves the cached positions unchanged:
/// duplicate delivery over the unreliable channel is a no-op.
#[test]
fn duplicate_snapshot_application_is_a_no_op() {
    let mut client = ClientState::new();
    client.spawn_token(&token(1, "a"));
    client.spawn_token(&token(2, "b"));
    let entries = vec![
        SnapshotEntry { id: 1, position: Position { x: 5000, y: -1000, z: 0 } },
        SnapshotEntry { id: 9, position: Position { x: 1, y: 1, z: 1 } },
    ];
    let bytes = encode_message(&WireMessage::Snapshot(entries));
    client.sync_players(&bytes);
    let after_once: Vec<Position> = client.tokens.iter().map(|t| t.position).collect();
    client.sync_players(&bytes);
    let after_twice: Vec<Position> = client.tokens.iter().map(|t| t.position).collect();
    assert_eq!(after_once, after_twice);
    assert_eq!(client.tokens[0].position, Position { x: 5000, y: -1000, z: 0 });
    // The second token's id is absent from the snapshot: it stays put.
    assert_eq!(client.tokens[1].position, Position { x: 0, y: 0, z: 0 });
}

#[test]
fn later_snapshot_entry_wins_for_a_duplicated_id() {
    let mut client = ClientState::new();
    client.spawn_token(&token(1, "a"));
    let entries = vec![
        SnapshotEntry { id: 1, position: Position { x: 10, y: 0, z: 0 } },
        SnapshotEntry { id: 1, position: Position { x: 20, y: 0, z: 0 } },
    ];
    let bytes = encode_message(&WireMessage::Snapshot(entries));
    client.sync_players(&bytes);
    assert_eq!(client.tokens[0].position.x, 20);
}

#[test]
fn garbage_on_the_unreliable_channel_changes_nothing() {
    let mut client = ClientState::new();
    client.spawn_token(&token(1, "a"));
    client.sync_players(&b"not a snapshot".to_vec());
    assert_eq!(client.tokens.len(), 1);
    assert_eq!(client.tokens[0].position, Position { x: 0, y: 0, z: 0 });
}

#[test]
fn spawn_broadcast_materializes_a_token() {
    let mut client = ClientState::new();
    let bytes = encode_message(&WireMessage::Spawn(SpawnToken(token(5, "peer"))));
    client.receive_message(&bytes);
    assert_eq!(client.tokens.len(), 1);
    assert_eq!(client.tokens[0].token.id, 5);
    assert!(client.my_token.0.is_none());
    // A presence notice carries no state.
    let presence = encode_message(&WireMessage::Presence(ServerMessages::PlayerConnected {
        id: 4,
    }));
    client.receive_message(&presence);
    assert_eq!(client.tokens.len(), 1);
}

#[test]
fn input_is_sent_only_with_an_own_token() {
    let mut client = ClientState::new();
    let input = PlayerInput { up: false, down: true, left: true, right: false };
    assert!(client.client_send_input(&input).is_none());
    let message = client.handle_spawn_token(&token(77, "mine"));
    assert_eq!(client.my_token.0, Some(77));
    match decode_message(&message) {
        Some(WireMessage::Spawn(SpawnToken(t))) => assert_eq!(t.id, 77),
        _ => panic!("the spawn request must encode as a spawn message"),
    }
    let sent = client.client_send_input(&input).expect("an owned token sends input");
    match decode_message(&sent) {
        Some(WireMessage::Movement(mv)) => {
            assert_eq!(mv.0, 77);
            assert_eq!(mv.1, input);
        }
        _ => panic!("input must encode as a movement intent"),
    }
}

/// A host snapshot travels the unreliable channel into the client cache.
#[test]
fn host_snapshot_reaches_client_positions() {
    let mut host = HostState::new();
    let mut net = Network::new();
    net.connect(1);
    let spawn = encode_message(&WireMessage::Spawn(SpawnToken(token(3, "pawn"))));
    host.tick(
        &mut net,
        &vec![ConnectionEvent::Connected { client_id: 1 }],
        &vec![ClientBatch { client_id: 1, ordered: Vec::new(), unordered: vec![spawn] }],
        250,
    );
    let mut client = ClientState::new();
    client.spawn_token(&token(3, "pawn"));
    let mut delivered = false;
    for e in net.endpoints.iter_mut() {
        while let Some(m) = e.unreliable.try_recv() {
            client.sync_players(&m);
            delivered = true;
        }
    }
    assert!(delivered);
    assert_eq!(client.tokens[0].position, Position { x: 0, y: 0, z: 0 });
}

#[test]
fn keyboard_mapping_takes_either_key() {
    let input = player_input(true, false, false, false, false, true, false, false);
    assert!(input.left && input.up && !input.right && !input.down);
    let other = player_input(false, true, false, true, false, false, true, false);
    assert!(other.left && other.right && other.down && !other.up);
}

#[test]
fn character_choice_becomes_a_token() {
    let character = Character {
        id: Some(3),
        name: "Hero".to_string(),
        color: Color { red: 9, green: 8, blue: 7, alpha: 6 },
        owner: "someone".to_string(),
        portrait: Some("p.png".to_string()),
    };
    let t = token_of_character(&character, 1234);
    assert_eq!(t.id, 1234);
    assert_eq!(t.name, "Hero");
    assert_eq!(t.color, character.color);
    assert_eq!(t.portrait.as_deref(), Some("p.png"));
}

#[test]
fn login_flow_polls_until_success() {
    let mut flow = LoginFlow::new();
    assert_eq!(flow.state, LoginState::Main);
    flow.start_login("session-id".to_string());
    assert_eq!(flow.state, LoginState::LoggingIn);
    flow.poll_response(302, String::new());
    assert_eq!(flow.state, LoginState::LoggingIn);
    assert!(flow.credential.is_none());
    flow.poll_response(200, "the-credential".to_string());
    assert_eq!(flow.state, LoginState::LoggedIn);
    assert_eq!(flow.credential.as_deref(), Some("the-credential"));
}

#[test]
fn spawning_for_a_character_draws_a_fresh_id() {
    let character = Character {
        id: None,
        name: "Wanderer".to_string(),
        color: Color { red: 1, green: 1, blue: 1, alpha: 255 },
        owner: "o".to_string(),
        portrait: None,
    };
    let t = tyche::client::spawn_token_for_character(&character);
    assert_eq!(t.name, "Wanderer");
    assert_eq!(t.color, character.color);
}

#[test]
fn choosing_a_color_patches_and_clears_the_selection() {
    let stored = Character {
        id: Some(9),
        name: "N".to_string(),
        color: Color { red: 0, green: 0, blue: 0, alpha: 255 },
        owner: "o".to_string(),
        portrait: None,
    };
    let mut current = CurrentCharacter(Some(stored));
    match choose_color(&mut current, "cred".to_string(), [7, 8, 9, 10]) {
        Some(BevyMessage::PatchCharacterColor { token, id, color }) => {
            assert_eq!(token, "cred");
            assert_eq!(id, 9);
            assert_eq!(color, [7, 8, 9, 10]);
        }
        _ => panic!("a stored selection must produce the patch intent"),
    }
    assert!(current.0.is_none());
    assert!(choose_color(&mut current, "cred".to_string(), [0, 0, 0, 0]).is_none());
}

#[test]
fn a_created_character_is_fully_opaque_and_unstored() {
    let c = build_character("New".to_string(), [5, 6, 7, 8], "owner".to_string(), None);
    assert!(c.id.is_none());
    assert_eq!(c.color, Color { red: 5, green: 6, blue: 7, alpha: 255 });
    assert_eq!(c.owner, "owner");
}

#[test]
fn each_intent_routes_to_its_own_action() {
    assert!(matches!(plan_message(BevyMessage::Ping), MessagePlan::ReplyPing));
    match plan_message(BevyMessage::FetchToken("s1".to_string())) {
        MessagePlan::PollSession { session } => assert_eq!(session, "s1"),
        _ => panic!("fetch routes to a poll"),
    }
    match plan_message(BevyMessage::PatchCharacterColor {
        token: "tok".to_string(),
        id: 4,
        color: [1, 2, 3, 4],
    }) {
        MessagePlan::PatchColor { credential, id, color } => {
            assert_eq!(credential, "tok");
            assert_eq!(id, 4);
            assert_eq!(color, [1, 2, 3, 4]);
        }
        _ => panic!("patch routes to a patch"),
    }
}
