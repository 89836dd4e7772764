//! The authoritative host engine: once per tick it ingests connection
//! events, movement intents and spawn requests, moves every token by its
//! latest input, and broadcasts a fresh snapshot.
//!
//! The host owns the only authoritative copy of every token; clients only
//! submit intents. A malformed payload is dropped without aborting the tick,
//! and an intent for an unknown token id is ignored.

use vstd::prelude::*;
use crate::codec::{
    decode_message, encode_message, parse_message, spec_encode, WireMessage, WireMessageView,
};
use crate::lobby::{lobby_step, ConnectionEvent, Lobby};
use crate::transport::{DeliveryClass, Network};
use crate::wire::{PlayerInput, Position, ServerMessages, SnapshotEntry, Token, TokenView};
use crate::PLAYER_MOVE_SPEED;

verus! {

/// One token as the host owns it: the token itself, its authoritative
/// position, and the latest directional intent received for it.
pub struct TokenEntry {
    pub token: Token,
    pub position: Position,
    pub input: PlayerInput,
}

/// The mathematical content of a host-owned token.
pub ghost struct TokenEntryView {
    pub token: TokenView,
    pub position: Position,
    pub input: PlayerInput,
}

impl View for TokenEntry {
    type V = TokenEntryView;

    open spec fn view(&self) -> TokenEntryView {
        TokenEntryView { token: self.token@, position: self.position, input: self.input }
    }
}

impl DeepView for TokenEntry {
    type V = TokenEntryView;

    open spec fn deep_view(&self) -> TokenEntryView {
        self.view()
    }
}

/// The authoritative world: the lobby of live connections and every token
/// with its position and input.
pub struct HostState {
    pub lobby: Lobby,
    pub tokens: Vec<TokenEntry>,
}

/// A message the engine wants sent, described but not yet delivered: the
/// tick computes these and the transport carries them out, so that one
/// peer's failure stays its own. Everything the engine originates spares
/// its originator; the snapshot, which goes to everyone, is broadcast
/// directly.
#[derive(Clone, Debug)]
pub enum Outbound {
    BroadcastExcept(u64, DeliveryClass, Vec<u8>),
}

/// A fresh token entry: the token stands at the origin with no key held.
pub open spec fn spawned_entry(t: TokenView) -> TokenEntryView {
    TokenEntryView {
        token: t,
        position: Position { x: 0, y: 0, z: 0 },
        input: PlayerInput { up: false, down: false, left: false, right: false },
    }
}

/// Brings a token into the world: it appears at the origin, standing still.
pub fn spawn_token(state: &mut HostState, token: &Token)
    ensures
        final(state).tokens.deep_view() == old(state).tokens.deep_view().push(
            spawned_entry(token@),
        ),
        final(state).lobby == old(state).lobby,
{
    let entry = TokenEntry {
        token: token.duplicate(),
        position: Position::origin(),
        input: PlayerInput { up: false, down: false, left: false, right: false },
    };
    state.tokens.push(entry);
    proof {
        assert(state.tokens.deep_view() =~~= old(state).tokens.deep_view().push(
            spawned_entry(token@),
        ));
    }
}

/// The token entries with the input of every token of the given id replaced;
/// entries of other tokens stand as they were.
pub open spec fn update_inputs(
    tokens: Seq<TokenEntryView>,
    id: u128,
    inp: PlayerInput,
) -> Seq<TokenEntryView> {
    Seq::new(
        tokens.len(),
        |i: int|
            if tokens[i].token.id == id {
                TokenEntryView { token: tokens[i].token, position: tokens[i].position, input: inp }
            } else {
                tokens[i]
            },
    )
}

/// What one payload from the reliable-ordered channel does to the world: a
/// movement intent overwrites the input of every token with that id, and
/// anything else — garbage included — changes nothing.
pub open spec fn ordered_step(tokens: Seq<TokenEntryView>, bytes: Seq<u8>) -> Seq<TokenEntryView> {
    match parse_message(bytes) {
        Some(WireMessageView::Movement(id, inp)) => update_inputs(tokens, id, inp),
        _ => tokens,
    }
}

impl HostState {
    /// A world with no connections and no tokens.
    pub fn new() -> (s: HostState)
        ensures
            s.lobby@ == Map::<u64, Option<u128>>::empty(),
            s.tokens.deep_view() == Seq::<TokenEntryView>::empty(),
    {
        let s = HostState { lobby: Lobby::new(), tokens: Vec::new() };
        proof {
            assert(s.tokens.deep_view() =~~= Seq::<TokenEntryView>::empty());
        }
        s
    }

    /// Ingests one connection event: the lobby gains or loses the entry, and
    /// the presence notice goes out to every other connection over the
    /// reliable-unordered channel.
    pub fn handle_event(&mut self, ev: &ConnectionEvent) -> (out: Outbound)
        ensures
            final(self).lobby@ == lobby_step(old(self).lobby@, *ev),
            final(self).tokens == old(self).tokens,
            out matches Outbound::BroadcastExcept(ex, class, bytes) && class
                == DeliveryClass::ReliableUnordered && (match *ev {
                ConnectionEvent::Connected { client_id } => ex == client_id && bytes@
                    == spec_encode(
                    WireMessageView::Presence(ServerMessages::PlayerConnected { id: client_id }),
                ),
                ConnectionEvent::Disconnected { client_id } => ex == client_id && bytes@
                    == spec_encode(
                    WireMessageView::Presence(
                        ServerMessages::PlayerDisconnected { id: client_id },
                    ),
                ),
            }),
    {
        self.lobby.apply_event(ev);
        match ev {
            ConnectionEvent::Connected { client_id } => {
                let msg = WireMessage::Presence(ServerMessages::PlayerConnected { id: *client_id });
                Outbound::BroadcastExcept(
                    *client_id,
                    DeliveryClass::ReliableUnordered,
                    encode_message(&msg),
                )
            },
            ConnectionEvent::Disconnected { client_id } => {
                let msg = WireMessage::Presence(
                    ServerMessages::PlayerDisconnected { id: *client_id },
                );
                Outbound::BroadcastExcept(
                    *client_id,
                    DeliveryClass::ReliableUnordered,
                    encode_message(&msg),
                )
            },
        }
    }

    /// Ingests one payload from a client's reliable-ordered channel: a
    /// movement intent overwrites the input of every token with that id; an
    /// intent for an unknown id, or a payload that is no message at all, is
    /// silently dropped.
    #[verifier::loop_isolation(false)]
    pub fn apply_ordered(&mut self, bytes: &Vec<u8>)
        ensures
            final(self).tokens.deep_view() == ordered_step(old(self).tokens.deep_view(), bytes@),
            final(self).lobby == old(self).lobby,
    {
        match decode_message(bytes.as_slice()) {
            Some(WireMessage::Movement(mv)) => {
                let id = mv.0;
                let inp = mv.1;
                let n = self.tokens.len();
                let mut k: usize = 0;
                while k < n
                    invariant
                        n == self.tokens@.len(),
                        k <= n,
                        self.lobby == old(self).lobby,
                        forall|j: int|
                            0 <= j < k ==> #[trigger] self.tokens@[j].deep_view() == update_inputs(
                                old(self).tokens.deep_view(),
                                id,
                                inp,
                            )[j],
                        forall|j: int|
                            k <= j < n ==> #[trigger] self.tokens@[j] == old(self).tokens@[j],
                    decreases n - k,
                {
                    proof {
                        assert(old(self).tokens.deep_view()[k as int] == old(self).tokens@[k
                            as int].deep_view());
                    }
                    if self.tokens[k].token.id == id {
                        self.tokens[k].input = inp;
                    }
                    proof {
                        assert(self.tokens@[k as int].deep_view() == update_inputs(
                            old(self).tokens.deep_view(),
                            id,
                            inp,
                        )[k as int]);
                    }
                    k = k + 1;
                }
                proof {
                    assert(self.tokens.deep_view() =~~= update_inputs(
                        old(self).tokens.deep_view(),
                        id,
                        inp,
                    ));
                }
            },
            _ => {
                proof {
                    assert(self.tokens.deep_view() =~~= old(self).tokens.deep_view());
                }
            },
        }
    }

    /// Ingests one payload from a client's reliable-unordered channel: a
    /// spawn request brings the token into the world, records it as the
    /// sender's token if it is the sender's first, and relays the payload
    /// verbatim to every other connection; any other payload is silently
    /// dropped and nothing is relayed.
    pub fn handle_unordered(&mut self, from: u64, bytes: &Vec<u8>) -> (out: Option<Outbound>)
        ensures
            (match parse_message(bytes@) {
                Some(WireMessageView::Spawn(t)) => {
                    &&& final(self).tokens.deep_view() == old(self).tokens.deep_view().push(
                        spawned_entry(t),
                    )
                    &&& ((old(self).lobby@.contains_key(from) && old(self).lobby@[from] is None)
                        ==> final(self).lobby@ == old(self).lobby@.insert(from, Some(t.id)))
                    &&& (!(old(self).lobby@.contains_key(from) && old(self).lobby@[from] is None)
                        ==> final(self).lobby@ == old(self).lobby@)
                    &&& (out matches Some(Outbound::BroadcastExcept(ex, class, relayed)) && ex
                        == from && class == DeliveryClass::ReliableUnordered && relayed@ == bytes@)
                },
                _ => {
                    &&& final(self).tokens == old(self).tokens
                    &&& final(self).lobby == old(self).lobby
                    &&& out is None
                },
            }),
    {
        match decode_message(bytes.as_slice()) {
            Some(WireMessage::Spawn(spawn)) => {
                let token = spawn.0;
                spawn_token(self, &token);
                self.lobby.record_token(from, token.id);
                let copy = vstd::slice::slice_to_vec(bytes.as_slice());
                Some(Outbound::BroadcastExcept(from, DeliveryClass::ReliableUnordered, copy))
            },
            _ => None,
        }
    }

    /// Moves every token by its latest input: each axis advances by
    /// direction times speed times elapsed milliseconds, pinned to the
    /// representable range; there is no collision or bounds checking.
    #[verifier::loop_isolation(false)]
    pub fn move_tokens(&mut self, dt_ms: u64)
        ensures
            final(self).tokens.deep_view() == moved_tokens(old(self).tokens.deep_view(), dt_ms),
            final(self).lobby == old(self).lobby,
    {
        let n = self.tokens.len();
        let mut k: usize = 0;
        while k < n
            invariant
                n == self.tokens@.len(),
                k <= n,
                self.lobby == old(self).lobby,
                forall|j: int|
                    0 <= j < k ==> #[trigger] self.tokens@[j].deep_view() == moved_tokens(
                        old(self).tokens.deep_view(),
                        dt_ms,
                    )[j],
                forall|j: int| k <= j < n ==> #[trigger] self.tokens@[j] == old(self).tokens@[j],
            decreases n - k,
        {
            proof {
                assert(old(self).tokens.deep_view()[k as int] == old(self).tokens@[k
                    as int].deep_view());
            }
            let inp = self.tokens[k].input;
            let dx = dir_value(inp.right, inp.left);
            let dy = dir_value(inp.up, inp.down);
            let x = move_axis(self.tokens[k].position.x, dx, dt_ms);
            let y = move_axis(self.tokens[k].position.y, dy, dt_ms);
            let z = self.tokens[k].position.z;
            self.tokens[k].position = Position { x, y, z };
            proof {
                assert(self.tokens@[k as int].deep_view() == moved_tokens(
                    old(self).tokens.deep_view(),
                    dt_ms,
                )[k as int]);
            }
            k = k + 1;
        }
        proof {
            assert(self.tokens.deep_view() =~~= moved_tokens(old(self).tokens.deep_view(), dt_ms));
        }
    }

    /// The fresh snapshot of this tick: every token's id and position,
    /// computed anew and superseding any earlier snapshot entirely.
    #[verifier::loop_isolation(false)]
    pub fn snapshot(&self) -> (r: Vec<SnapshotEntry>)
        ensures
            r@ == snapshot_of(self.tokens.deep_view()),
    {
        let n = self.tokens.len();
        let mut entries: Vec<SnapshotEntry> = Vec::new();
        let mut k: usize = 0;
        while k < n
            invariant
                n == self.tokens@.len(),
                k <= n,
                entries@.len() == k,
                forall|j: int|
                    0 <= j < k ==> #[trigger] entries@[j] == snapshot_of(
                        self.tokens.deep_view(),
                    )[j],
            decreases n - k,
        {
            entries.push(
                SnapshotEntry { id: self.tokens[k].token.id, position: self.tokens[k].position },
            );
            k = k + 1;
        }
        proof {
            assert(entries@ =~= snapshot_of(self.tokens.deep_view()));
        }
        entries
    }

    /// The snapshot of this tick, framed for the unreliable channel.
    pub fn snapshot_message(&self) -> (r: Vec<u8>)
        ensures
            r@ == spec_encode(WireMessageView::Snapshot(snapshot_of(self.tokens.deep_view()))),
    {
        let entries = self.snapshot();
        encode_message(&WireMessage::Snapshot(entries))
    }
}

/// Both axis directions of an intent, as minus one, zero or one.
pub open spec fn dir_x(inp: PlayerInput) -> int {
    (if inp.right {
        1int
    } else {
        0int
    }) - (if inp.left {
        1int
    } else {
        0int
    })
}

/// The vertical direction of an intent, as minus one, zero or one.
pub open spec fn dir_y(inp: PlayerInput) -> int {
    (if inp.up {
        1int
    } else {
        0int
    }) - (if inp.down {
        1int
    } else {
        0int
    })
}

/// A value pinned to the representable fixed-point range.
pub open spec fn clamp_i64(v: int) -> i64 {
    if v < i64::MIN {
        i64::MIN
    } else if v > i64::MAX {
        i64::MAX
    } else {
        v as i64
    }
}

/// A position after one tick of movement: direction times speed times
/// elapsed milliseconds on each ground axis, exactly, pinned only at the
/// edge of the representable range.
pub open spec fn moved_position(p: Position, inp: PlayerInput, dt_ms: u64) -> Position {
    Position {
        x: clamp_i64(p.x + dir_x(inp) * PLAYER_MOVE_SPEED * dt_ms),
        y: clamp_i64(p.y + dir_y(inp) * PLAYER_MOVE_SPEED * dt_ms),
        z: p.z,
    }
}

/// The token entries after one tick of movement; only positions change.
pub open spec fn moved_tokens(tokens: Seq<TokenEntryView>, dt_ms: u64) -> Seq<TokenEntryView> {
    Seq::new(
        tokens.len(),
        |i: int|
            TokenEntryView {
                token: tokens[i].token,
                position: moved_position(tokens[i].position, tokens[i].input, dt_ms),
                input: tokens[i].input,
            },
    )
}

/// The snapshot of a token list: each token's id and current position.
pub open spec fn snapshot_of(tokens: Seq<TokenEntryView>) -> Seq<SnapshotEntry> {
    Seq::new(
        tokens.len(),
        |i: int| SnapshotEntry { id: tokens[i].token.id, position: tokens[i].position },
    )
}

/// An axis direction as an integer.
fn dir_value(pos: bool, neg: bool) -> (r: i64)
    ensures
        r == (if pos {
            1int
        } else {
            0int
        }) - (if neg {
            1int
        } else {
            0int
        }),
{
    let p: i64 = if pos {
        1
    } else {
        0
    };
    let q: i64 = if neg {
        1
    } else {
        0
    };
    p - q
}

/// One axis of movement integration, exact up to the representable range.
fn move_axis(p: i64, d: i64, dt_ms: u64) -> (r: i64)
    requires
        -1 <= d <= 1,
    ensures
        r == clamp_i64(p + d * PLAYER_MOVE_SPEED * dt_ms),
{
    let mag: i128 = (PLAYER_MOVE_SPEED as i128) * (dt_ms as i128);
    let step: i128 = if d == 1 {
        mag
    } else if d == -1 {
        -mag
    } else {
        0
    };
    proof {
        if d == 1 {
            assert(d * PLAYER_MOVE_SPEED * dt_ms == PLAYER_MOVE_SPEED * dt_ms)
                by (nonlinear_arith)
                requires
                    d == 1,
            ;
        } else if d == -1 {
            assert(d * PLAYER_MOVE_SPEED * dt_ms == -(PLAYER_MOVE_SPEED * dt_ms))
                by (nonlinear_arith)
                requires
                    d == -1,
            ;
        } else {
            assert(d * PLAYER_MOVE_SPEED * dt_ms == 0) by (nonlinear_arith)
                requires
                    d == 0,
            ;
        }
    }
    let sum: i128 = (p as i128) + step;
    if sum < i64::MIN as i128 {
        i64::MIN
    } else if sum > i64::MAX as i128 {
        i64::MAX
    } else {
        sum as i64
    }
}

/// The token entries after a run of reliable-ordered payloads, applied in
/// the order given.
pub open spec fn ordered_fold(tokens: Seq<TokenEntryView>, msgs: Seq<Seq<u8>>) -> Seq<
    TokenEntryView,
>
    decreases msgs.len(),
{
    if msgs.len() == 0 {
        tokens
    } else {
        ordered_fold(ordered_step(tokens, msgs[0]), msgs.drop_first())
    }
}

/// Movement intents are observed in send order: folding the engine over
/// what a reliable-ordered queue delivers after a run of sends is folding
/// it over exactly the sent sequence, first to last.
pub proof fn lemma_intents_applied_in_send_order(
    tokens: Seq<TokenEntryView>,
    sent: Seq<Seq<u8>>,
)
    ensures
        ordered_fold(
            tokens,
            crate::transport::queue_after_sends(Seq::<Seq<u8>>::empty(), sent),
        ) == ordered_fold(tokens, sent),
{
    crate::transport::lemma_fifo_order(Seq::<Seq<u8>>::empty(), sent);
    assert(Seq::<Seq<u8>>::empty() + sent =~= sent);
}

/// Applies a run of reliable-ordered payloads in order.
#[verifier::loop_isolation(false)]
pub fn apply_ordered_batch(state: &mut HostState, msgs: &Vec<Vec<u8>>)
    ensures
        final(state).tokens.deep_view() == ordered_fold(
            old(state).tokens.deep_view(),
            msgs.deep_view(),
        ),
        final(state).lobby == old(state).lobby,
{
    let n = msgs.len();
    let mut k: usize = 0;
    proof {
        assert(msgs.deep_view().skip(0) =~= msgs.deep_view());
    }
    while k < n
        invariant
            n == msgs@.len(),
            k <= n,
            state.lobby == old(state).lobby,
            ordered_fold(old(state).tokens.deep_view(), msgs.deep_view())
                == ordered_fold(state.tokens.deep_view(), msgs.deep_view().skip(k as int)),
        decreases n - k,
    {
        proof {
            let rest = msgs.deep_view().skip(k as int);
            assert(rest[0] == msgs.deep_view()[k as int]);
            assert(rest.drop_first() =~= msgs.deep_view().skip(k as int + 1));
            assert(msgs.deep_view()[k as int] == msgs@[k as int]@);
        }
        state.apply_ordered(&msgs[k]);
        k = k + 1;
    }
    proof {
        assert(msgs.deep_view().skip(n as int) =~= Seq::<Seq<u8>>::empty());
    }
}

/// The whole authoritative state, mathematically: lobby and tokens.
pub ghost struct WorldView {
    pub lobby: Map<u64, Option<u128>>,
    pub tokens: Seq<TokenEntryView>,
}

impl HostState {
    /// The mathematical content of the authoritative state.
    pub open spec fn world(&self) -> WorldView {
        WorldView { lobby: self.lobby@, tokens: self.tokens.deep_view() }
    }
}

/// What one payload from the reliable-unordered channel does to the world: a
/// spawn request adds the token and records first ownership; anything else
/// changes nothing.
pub open spec fn unordered_step(w: WorldView, from: u64, bytes: Seq<u8>) -> WorldView {
    match parse_message(bytes) {
        Some(WireMessageView::Spawn(t)) => WorldView {
            tokens: w.tokens.push(spawned_entry(t)),
            lobby: if w.lobby.contains_key(from) && w.lobby[from] is None {
                w.lobby.insert(from, Some(t.id))
            } else {
                w.lobby
            },
        },
        _ => w,
    }
}

/// The world after a run of reliable-unordered payloads from one connection.
pub open spec fn unordered_fold(w: WorldView, from: u64, msgs: Seq<Seq<u8>>) -> WorldView
    decreases msgs.len(),
{
    if msgs.len() == 0 {
        w
    } else {
        unordered_fold(unordered_step(w, from, msgs[0]), from, msgs.drop_first())
    }
}

/// What one connection delivered this tick: its id and the payloads drained
/// from each of its two inbound channels, in arrival order.
pub struct ClientBatch {
    pub client_id: u64,
    pub ordered: Vec<Vec<u8>>,
    pub unordered: Vec<Vec<u8>>,
}

/// The mathematical content of one connection's deliveries.
pub ghost struct ClientBatchView {
    pub client_id: u64,
    pub ordered: Seq<Seq<u8>>,
    pub unordered: Seq<Seq<u8>>,
}

impl View for ClientBatch {
    type V = ClientBatchView;

    open spec fn view(&self) -> ClientBatchView {
        ClientBatchView {
            client_id: self.client_id,
            ordered: self.ordered.deep_view(),
            unordered: self.unordered.deep_view(),
        }
    }
}

impl DeepView for ClientBatch {
    type V = ClientBatchView;

    open spec fn deep_view(&self) -> ClientBatchView {
        self.view()
    }
}

/// The tokens after every connection's reliable-ordered payloads, one
/// connection after the other.
pub open spec fn ordered_batches(
    tokens: Seq<TokenEntryView>,
    batches: Seq<ClientBatchView>,
) -> Seq<TokenEntryView>
    decreases batches.len(),
{
    if batches.len() == 0 {
        tokens
    } else {
        ordered_batches(ordered_fold(tokens, batches[0].ordered), batches.drop_first())
    }
}

/// The world after every connection's reliable-unordered payloads, one
/// connection after the other.
pub open spec fn unordered_batches(w: WorldView, batches: Seq<ClientBatchView>) -> WorldView
    decreases batches.len(),
{
    if batches.len() == 0 {
        w
    } else {
        unordered_batches(
            unordered_fold(w, batches[0].client_id, batches[0].unordered),
            batches.drop_first(),
        )
    }
}

/// The world at the end of a tick: connection events first, then movement
/// intents, then spawn requests, then one step of movement for every token.
pub open spec fn tick_world(
    w: WorldView,
    events: Seq<ConnectionEvent>,
    batches: Seq<ClientBatchView>,
    dt_ms: u64,
) -> WorldView {
    let after_events = WorldView {
        lobby: crate::lobby::lobby_after(w.lobby, events),
        tokens: w.tokens,
    };
    let after_moves = WorldView {
        lobby: after_events.lobby,
        tokens: ordered_batches(after_events.tokens, batches),
    };
    let after_spawns = unordered_batches(after_moves, batches);
    WorldView {
        lobby: after_spawns.lobby,
        tokens: moved_tokens(after_spawns.tokens, dt_ms),
    }
}

/// A spawn request may record which token a connection owns, but it never
/// adds or removes a lobby entry.
proof fn lemma_unordered_fold_keeps_presence(w: WorldView, from: u64, msgs: Seq<Seq<u8>>)
    ensures
        unordered_fold(w, from, msgs).lobby.dom() == w.lobby.dom(),
    decreases msgs.len(),
{
    if msgs.len() > 0 {
        let w1 = unordered_step(w, from, msgs[0]);
        assert(w1.lobby.dom() =~= w.lobby.dom());
        lemma_unordered_fold_keeps_presence(w1, from, msgs.drop_first());
    }
}

/// No connection's run of spawn requests changes the number of lobby
/// entries.
proof fn lemma_unordered_batches_keep_presence(w: WorldView, batches: Seq<ClientBatchView>)
    ensures
        unordered_batches(w, batches).lobby.dom() == w.lobby.dom(),
    decreases batches.len(),
{
    if batches.len() > 0 {
        let w1 = unordered_fold(w, batches[0].client_id, batches[0].unordered);
        lemma_unordered_fold_keeps_presence(w, batches[0].client_id, batches[0].unordered);
        lemma_unordered_batches_keep_presence(w1, batches.drop_first());
    }
}

/// Presence invariant at the tick boundary: after a tick fed an admissible
/// run of connection events, the lobby holds exactly as many entries as it
/// did before plus the connect events minus the disconnect events. Intents
/// and spawn requests touch ownership and tokens, never the entry count.
pub proof fn lemma_tick_presence_invariant(
    w: WorldView,
    events: Seq<ConnectionEvent>,
    batches: Seq<ClientBatchView>,
    dt_ms: u64,
)
    requires
        w.lobby.dom().finite(),
        crate::lobby::events_admissible(w.lobby, events),
    ensures
        tick_world(w, events, batches, dt_ms).lobby.len() == w.lobby.len()
            + crate::lobby::net_connects(events),
{
    crate::lobby::lemma_presence_invariant(w.lobby, events);
    let after_moves = WorldView {
        lobby: crate::lobby::lobby_after(w.lobby, events),
        tokens: ordered_batches(w.tokens, batches),
    };
    lemma_unordered_batches_keep_presence(after_moves, batches);
}

/// Applies a run of reliable-unordered payloads from one connection, in
/// order, relaying each valid spawn to every other connection.
#[verifier::loop_isolation(false)]
pub fn apply_unordered_batch(
    state: &mut HostState,
    net: &mut Network,
    from: u64,
    msgs: &Vec<Vec<u8>>,
)
    ensures
        final(state).world() == unordered_fold(old(state).world(), from, msgs.deep_view()),
        final(net).endpoints@.len() == old(net).endpoints@.len(),
        forall|j: int|
            0 <= j < old(net).endpoints@.len() ==> #[trigger] final(net).endpoints@[j].client_id
                == old(net).endpoints@[j].client_id,
{
    let n = msgs.len();
    let mut k: usize = 0;
    proof {
        assert(msgs.deep_view().skip(0) =~= msgs.deep_view());
    }
    while k < n
        invariant
            n == msgs@.len(),
            k <= n,
            unordered_fold(old(state).world(), from, msgs.deep_view()) == unordered_fold(
                state.world(),
                from,
                msgs.deep_view().skip(k as int),
            ),
            net.endpoints@.len() == old(net).endpoints@.len(),
            forall|j: int|
                0 <= j < old(net).endpoints@.len() ==> #[trigger] net.endpoints@[j].client_id
                    == old(net).endpoints@[j].client_id,
        decreases n - k,
    {
        proof {
            let rest = msgs.deep_view().skip(k as int);
            assert(rest[0] == msgs.deep_view()[k as int]);
            assert(rest.drop_first() =~= msgs.deep_view().skip(k as int + 1));
            assert(msgs.deep_view()[k as int] == msgs@[k as int]@);
        }
        let out = state.handle_unordered(from, &msgs[k]);
        match out {
            Some(Outbound::BroadcastExcept(ex, class, bytes)) => {
                net.broadcast_except(ex, class, &bytes);
            },
            None => {},
        }
        k = k + 1;
    }
    proof {
        assert(msgs.deep_view().skip(n as int) =~= Seq::<Seq<u8>>::empty());
    }
}

impl HostState {
    /// One whole tick: drain connection events and update presence, apply
    /// every connection's movement intents in send order, bring requested
    /// tokens into the world and relay their spawn messages, move every
    /// token, and broadcast the fresh snapshot to every connection over the
    /// unreliable channel. No payload — malformed ones included — and no
    /// single peer can abort the tick.
    #[verifier::loop_isolation(false)]
    pub fn tick(
        &mut self,
        net: &mut Network,
        events: &Vec<ConnectionEvent>,
        batches: &Vec<ClientBatch>,
        dt_ms: u64,
    )
        ensures
            final(self).world() == tick_world(
                old(self).world(),
                events@,
                batches.deep_view(),
                dt_ms,
            ),
            final(net).endpoints@.len() == old(net).endpoints@.len(),
            forall|j: int|
                0 <= j < old(net).endpoints@.len() ==> #[trigger] final(net).endpoints@[j].client_id
                    == old(net).endpoints@[j].client_id,
    {
        let ghost w0 = self.world();
        let n_events = events.len();
        let mut k: usize = 0;
        proof {
            assert(events@.skip(0) =~= events@);
        }
        while k < n_events
            invariant
                n_events == events@.len(),
                k <= n_events,
                self.tokens == old(self).tokens,
                crate::lobby::lobby_after(w0.lobby, events@) == crate::lobby::lobby_after(
                    self.lobby@,
                    events@.skip(k as int),
                ),
                net.endpoints@.len() == old(net).endpoints@.len(),
                forall|j: int|
                    0 <= j < old(net).endpoints@.len() ==> #[trigger] net.endpoints@[j].client_id
                        == old(net).endpoints@[j].client_id,
            decreases n_events - k,
        {
            proof {
                let rest = events@.skip(k as int);
                assert(rest[0] == events@[k as int]);
                assert(rest.drop_first() =~= events@.skip(k as int + 1));
            }
            let out = self.handle_event(&events[k]);
            match out {
                Outbound::BroadcastExcept(ex, class, bytes) => {
                    net.broadcast_except(ex, class, &bytes);
                },
            }
            k = k + 1;
        }
        proof {
            assert(events@.skip(n_events as int) =~= Seq::<ConnectionEvent>::empty());
        }
        let ghost w1 = WorldView {
            lobby: crate::lobby::lobby_after(w0.lobby, events@),
            tokens: w0.tokens,
        };
        let n_batches = batches.len();
        let mut b: usize = 0;
        proof {
            assert(batches.deep_view().skip(0) =~= batches.deep_view());
        }
        while b < n_batches
            invariant
                n_batches == batches@.len(),
                b <= n_batches,
                self.lobby@ == w1.lobby,
                ordered_batches(w1.tokens, batches.deep_view()) == ordered_batches(
                    self.tokens.deep_view(),
                    batches.deep_view().skip(b as int),
                ),
                net.endpoints@.len() == old(net).endpoints@.len(),
                forall|j: int|
                    0 <= j < old(net).endpoints@.len() ==> #[trigger] net.endpoints@[j].client_id
                        == old(net).endpoints@[j].client_id,
            decreases n_batches - b,
        {
            proof {
                let rest = batches.deep_view().skip(b as int);
                assert(rest[0] == batches.deep_view()[b as int]);
                assert(rest.drop_first() =~= batches.deep_view().skip(b as int + 1));
                assert(batches.deep_view()[b as int] == batches@[b as int].deep_view());
            }
            apply_ordered_batch(self, &batches[b].ordered);
            b = b + 1;
        }
        proof {
            assert(batches.deep_view().skip(n_batches as int) =~= Seq::<ClientBatchView>::empty());
        }
        let ghost w2 = WorldView {
            lobby: w1.lobby,
            tokens: ordered_batches(w1.tokens, batches.deep_view()),
        };
        let mut b2: usize = 0;
        proof {
            assert(batches.deep_view().skip(0) =~= batches.deep_view());
        }
        while b2 < n_batches
            invariant
                n_batches == batches@.len(),
                b2 <= n_batches,
                unordered_batches(w2, batches.deep_view()) == unordered_batches(
                    self.world(),
                    batches.deep_view().skip(b2 as int),
                ),
                net.endpoints@.len() == old(net).endpoints@.len(),
                forall|j: int|
                    0 <= j < old(net).endpoints@.len() ==> #[trigger] net.endpoints@[j].client_id
                        == old(net).endpoints@[j].client_id,
            decreases n_batches - b2,
        {
            proof {
                let rest = batches.deep_view().skip(b2 as int);
                assert(rest[0] == batches.deep_view()[b2 as int]);
                assert(rest.drop_first() =~= batches.deep_view().skip(b2 as int + 1));
                assert(batches.deep_view()[b2 as int] == batches@[b2 as int].deep_view());
            }
            apply_unordered_batch(self, net, batches[b2].client_id, &batches[b2].unordered);
            b2 = b2 + 1;
        }
        proof {
            assert(batches.deep_view().skip(n_batches as int) =~= Seq::<ClientBatchView>::empty());
        }
        self.move_tokens(dt_ms);
        let snapshot = self.snapshot_message();
        net.broadcast(DeliveryClass::Unreliable, &snapshot);
    }
}

} // verus!
