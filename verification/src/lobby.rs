//! The lobby tracks which connections are live and which token each one
//! owns: an entry appears when a client connects, records the owned token on
//! the first spawn, and disappears when the client disconnects.

use vstd::prelude::*;
use std::collections::HashMap;

verus! {

broadcast use vstd::std_specs::hash::group_hash_axioms;

/// A transport-level connection event: a client link came up or went down.
#[derive(Clone, Copy, Debug, PartialEq, Eq, Structural)]
pub enum ConnectionEvent {
    Connected { client_id: u64 },
    Disconnected { client_id: u64 },
}

/// Presence and ownership: each live connection, mapped to the token it
/// spawned, if any.
pub struct Lobby {
    pub players: HashMap<u64, Option<u128>>,
}

impl View for Lobby {
    type V = Map<u64, Option<u128>>;

    open spec fn view(&self) -> Map<u64, Option<u128>> {
        self.players@
    }
}

/// The lobby contents after one connection event: connect inserts an entry
/// owning no token yet, disconnect removes the entry.
pub open spec fn lobby_step(
    m: Map<u64, Option<u128>>,
    ev: ConnectionEvent,
) -> Map<u64, Option<u128>> {
    match ev {
        ConnectionEvent::Connected { client_id } => m.insert(client_id, None),
        ConnectionEvent::Disconnected { client_id } => m.remove(client_id),
    }
}

/// The lobby contents after a sequence of connection events, applied in
/// order.
pub open spec fn lobby_after(
    m: Map<u64, Option<u128>>,
    events: Seq<ConnectionEvent>,
) -> Map<u64, Option<u128>>
    decreases events.len(),
{
    if events.len() == 0 {
        m
    } else {
        lobby_after(lobby_step(m, events[0]), events.drop_first())
    }
}

/// The number of connect events minus the number of disconnect events.
pub open spec fn net_connects(events: Seq<ConnectionEvent>) -> int
    decreases events.len(),
{
    if events.len() == 0 {
        0
    } else {
        (if events[0] is Connected {
            1int
        } else {
            -1int
        }) + net_connects(events.drop_first())
    }
}

/// Whether a sequence of events can come out of the transport when the lobby
/// holds `m`: a link connects only while absent and disconnects only while
/// present.
pub open spec fn events_admissible(m: Map<u64, Option<u128>>, events: Seq<ConnectionEvent>) -> bool
    decreases events.len(),
{
    if events.len() == 0 {
        true
    } else {
        let ok = match events[0] {
            ConnectionEvent::Connected { client_id } => !m.contains_key(client_id),
            ConnectionEvent::Disconnected { client_id } => m.contains_key(client_id),
        };
        ok && events_admissible(lobby_step(m, events[0]), events.drop_first())
    }
}

impl Lobby {
    /// An empty lobby: no connection is live.
    pub fn new() -> (l: Lobby)
        ensures
            l@ == Map::<u64, Option<u128>>::empty(),
    {
        Lobby { players: HashMap::new() }
    }

    /// Applies one connection event: connect inserts an entry with no token,
    /// disconnect removes the entry.
    pub fn apply_event(&mut self, ev: &ConnectionEvent)
        ensures
            final(self)@ == lobby_step(old(self)@, *ev),
    {
        match ev {
            ConnectionEvent::Connected { client_id } => {
                self.players.insert(*client_id, None);
            },
            ConnectionEvent::Disconnected { client_id } => {
                self.players.remove(client_id);
            },
        }
    }

    /// Records the token a connection owns, on its first spawn only: a
    /// connection that is absent or already owns a token is left as it is.
    pub fn record_token(&mut self, client_id: u64, token_id: u128)
        ensures
            (old(self)@.contains_key(client_id) && old(self)@[client_id] is None) ==> final(self)@
                == old(self)@.insert(client_id, Some(token_id)),
            !(old(self)@.contains_key(client_id) && old(self)@[client_id] is None)
                ==> final(self)@ == old(self)@,
    {
        let unspawned = match self.players.get(&client_id) {
            Some(slot) => slot.is_none(),
            None => false,
        };
        if unspawned {
            self.players.insert(client_id, Some(token_id));
        }
    }

    /// Whether this connection is live.
    pub fn contains(&self, client_id: u64) -> (r: bool)
        ensures
            r == self@.contains_key(client_id),
    {
        self.players.contains_key(&client_id)
    }

    /// How many connections are live.
    pub fn len(&self) -> (n: usize)
        ensures
            n == self@.len(),
    {
        self.players.len()
    }
}

/// Presence invariant: after any admissible sequence of connection events,
/// the number of lobby entries equals what it was plus the number of connect
/// events minus the number of disconnect events.
pub proof fn lemma_presence_invariant(m: Map<u64, Option<u128>>, events: Seq<ConnectionEvent>)
    requires
        m.dom().finite(),
        events_admissible(m, events),
    ensures
        lobby_after(m, events).dom().finite(),
        lobby_after(m, events).len() == m.len() + net_connects(events),
    decreases events.len(),
{
    if events.len() > 0 {
        let m1 = lobby_step(m, events[0]);
        match events[0] {
            ConnectionEvent::Connected { client_id } => {
                assert(m1.dom() =~= m.dom().insert(client_id));
                vstd::set::axiom_set_insert_len(m.dom(), client_id);
            },
            ConnectionEvent::Disconnected { client_id } => {
                assert(m1.dom() =~= m.dom().remove(client_id));
                vstd::set::axiom_set_remove_len(m.dom(), client_id);
            },
        }
        lemma_presence_invariant(m1, events.drop_first());
    }
}

} // verus!
