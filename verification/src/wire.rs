//! The entity model and the typed messages exchanged over the transport:
//! tokens, directional input, presence notices, spawn requests, movement
//! intents and snapshot entries.

use vstd::prelude::*;
use crate::color::Color;

verus! {

/// The latest directional intent for a token: four held-key flags. Each
/// movement message overwrites the whole record; intents are never merged.
#[derive(Clone, Copy, Debug, PartialEq, Eq, Structural)]
pub struct PlayerInput {
    pub up: bool,
    pub down: bool,
    pub left: bool,
    pub right: bool,
}

impl Default for PlayerInput {
    /// No key held: the token stands still.
    fn default() -> (r: Self)
        ensures
            r == (PlayerInput { up: false, down: false, left: false, right: false }),
    {
        PlayerInput { up: false, down: false, left: false, right: false }
    }
}

/// A world position, held in thousandths of a world unit per axis so that
/// movement integration is exact; one full unit is a thousand steps.
#[derive(Clone, Copy, Debug, PartialEq, Eq, Structural)]
pub struct Position {
    pub x: i64,
    pub y: i64,
    pub z: i64,
}

impl Position {
    /// The origin, where every token first appears.
    pub fn origin() -> (r: Position)
        ensures
            r == (Position { x: 0, y: 0, z: 0 }),
    {
        Position { x: 0, y: 0, z: 0 }
    }
}

/// A player-controlled entity synchronized across the session.
#[derive(Clone, Debug)]
pub struct Token {
    pub id: u128,
    pub name: String,
    pub color: Color,
    pub portrait: Option<String>,
}

/// The mathematical content of a token: its strings as character sequences.
pub ghost struct TokenView {
    pub id: u128,
    pub name: Seq<char>,
    pub color: Color,
    pub portrait: Option<Seq<char>>,
}

impl View for Token {
    type V = TokenView;

    open spec fn view(&self) -> TokenView {
        TokenView {
            id: self.id,
            name: self.name@,
            color: self.color,
            portrait: match self.portrait {
                None => None,
                Some(p) => Some(p@),
            },
        }
    }
}

impl Token {
    /// A field-for-field copy of this token.
    pub fn duplicate(&self) -> (r: Token)
        ensures
            r@ == self@,
    {
        Token {
            id: self.id,
            name: self.name.clone(),
            color: self.color,
            portrait: match &self.portrait {
                None => None,
                Some(p) => Some(p.clone()),
            },
        }
    }
}

/// A presence notice: the host tells the remaining clients that a peer
/// connected or disconnected.
#[derive(Clone, Copy, Debug, PartialEq, Eq, Structural)]
pub enum ServerMessages {
    PlayerConnected { id: u64 },
    PlayerDisconnected { id: u64 },
}

/// A movement intent: the newest input for the token with this id.
#[derive(Clone, Copy, Debug, PartialEq, Eq, Structural)]
pub struct TokenMovement(pub u128, pub PlayerInput);

/// A request to bring a token into the world, relayed verbatim to peers.
#[derive(Clone, Debug)]
pub struct SpawnToken(pub Token);

impl View for SpawnToken {
    type V = TokenView;

    open spec fn view(&self) -> TokenView {
        self.0@
    }
}

/// One token's place in a snapshot: its id and its current position.
#[derive(Clone, Copy, Debug, PartialEq, Eq, Structural)]
pub struct SnapshotEntry {
    pub id: u128,
    pub position: Position,
}

} // verus!
