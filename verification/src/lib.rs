//! Authoritative multiplayer synchronization core: an entity model shared by
//! host and client, a session broker handing off credentials from an
//! out-of-band login flow, a lobby tracking live connections, a binary wire
//! codec with three delivery classes, and the per-tick engine that ingests
//! intents, moves tokens and broadcasts snapshots.

use vstd::prelude::*;

pub mod character_config;
pub mod client;
pub mod client_config;
pub mod codec;
pub mod color;
pub mod host;
pub mod jwk;
pub mod lobby;
pub mod login;
pub mod session;
pub mod transport;
pub mod wire;

verus! {

/// Movement speed of a token, in world units per second.
pub const PLAYER_MOVE_SPEED: u64 = 200;

} // verus!
