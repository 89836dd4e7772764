//! The client relay: it submits intents for its own token, materializes
//! spawn broadcasts, and rebuilds its cached token positions from every
//! snapshot that arrives.
//!
//! The cache is a replica, possibly stale, never authoritative: a snapshot
//! fully supersedes the last one, unknown token ids are ignored, and a
//! malformed payload on any channel is discarded in silence.

use vstd::prelude::*;
use crate::codec::{decode_message, encode_message, parse_message, spec_encode, WireMessage,
    WireMessageView};
use crate::color::Character;
use crate::wire::{PlayerInput, Position, SnapshotEntry, SpawnToken, Token, TokenMovement,
    TokenView};

verus! {

/// The token this client controls, once it has spawned one.
pub struct MyToken(pub Option<u128>);

/// A token as the client caches it: the token and its last known position.
pub struct ClientToken {
    pub token: Token,
    pub position: Position,
}

/// The mathematical content of a cached token.
pub ghost struct ClientTokenView {
    pub token: TokenView,
    pub position: Position,
}

impl View for ClientToken {
    type V = ClientTokenView;

    open spec fn view(&self) -> ClientTokenView {
        ClientTokenView { token: self.token@, position: self.position }
    }
}

impl DeepView for ClientToken {
    type V = ClientTokenView;

    open spec fn deep_view(&self) -> ClientTokenView {
        self.view()
    }
}

/// The position a snapshot reports for a token id: the last entry with that
/// id wins, exactly as in a map built by inserting the entries in order;
/// a snapshot without the id reports nothing.
pub open spec fn snapshot_lookup(entries: Seq<SnapshotEntry>, id: u128) -> Option<Position>
    decreases entries.len(),
{
    if entries.len() == 0 {
        None
    } else if entries.last().id == id {
        Some(entries.last().position)
    } else {
        snapshot_lookup(entries.drop_last(), id)
    }
}

/// The cache after one snapshot: every cached token whose id the snapshot
/// carries takes the reported position; the others — and everything but
/// positions — stay as they were. Tokens the cache does not know are
/// ignored.
pub open spec fn applied_snapshot(
    cache: Seq<ClientTokenView>,
    entries: Seq<SnapshotEntry>,
) -> Seq<ClientTokenView> {
    Seq::new(
        cache.len(),
        |i: int|
            match snapshot_lookup(entries, cache[i].token.id) {
                Some(p) => ClientTokenView { token: cache[i].token, position: p },
                None => cache[i],
            },
    )
}

/// Applying the same snapshot twice is applying it once: a duplicate
/// delivery over the unreliable channel is a no-op.
pub proof fn lemma_snapshot_idempotent(cache: Seq<ClientTokenView>, entries: Seq<SnapshotEntry>)
    ensures
        applied_snapshot(applied_snapshot(cache, entries), entries) == applied_snapshot(
            cache,
            entries,
        ),
{
    assert(applied_snapshot(applied_snapshot(cache, entries), entries) =~= applied_snapshot(
        cache,
        entries,
    ));
}

/// The client's replica of the world: its own token id, if any, and the
/// cached tokens with their last known positions.
pub struct ClientState {
    pub my_token: MyToken,
    pub tokens: Vec<ClientToken>,
}

/// The position a snapshot holds for one id, computed: the last entry wins.
fn snapshot_find(entries: &Vec<SnapshotEntry>, id: u128) -> (r: Option<Position>)
    ensures
        r == snapshot_lookup(entries@, id),
{
    let n = entries.len();
    let mut found: Option<Position> = None;
    let mut k: usize = 0;
    proof {
        assert(entries@.take(0) =~= Seq::<SnapshotEntry>::empty());
    }
    while k < n
        invariant
            n == entries@.len(),
            k <= n,
            found == snapshot_lookup(entries@.take(k as int), id),
        decreases n - k,
    {
        proof {
            assert(entries@.take(k as int + 1).drop_last() =~= entries@.take(k as int));
            assert(entries@.take(k as int + 1).last() == entries@[k as int]);
        }
        if entries[k].id == id {
            found = Some(entries[k].position);
        }
        k = k + 1;
    }
    proof {
        assert(entries@.take(n as int) =~= entries@);
    }
    found
}

impl ClientState {
    /// A fresh replica: no own token, nothing cached.
    pub fn new() -> (c: ClientState)
        ensures
            c.my_token.0 is None,
            c.tokens.deep_view() == Seq::<ClientTokenView>::empty(),
    {
        let c = ClientState { my_token: MyToken(None), tokens: Vec::new() };
        proof {
            assert(c.tokens.deep_view() =~~= Seq::<ClientTokenView>::empty());
        }
        c
    }

    /// Caches a token at the origin, as spawn messages bring them in.
    pub fn spawn_token(&mut self, token: &Token)
        ensures
            final(self).tokens.deep_view() == old(self).tokens.deep_view().push(
                ClientTokenView { token: token@, position: Position { x: 0, y: 0, z: 0 } },
            ),
            final(self).my_token == old(self).my_token,
    {
        self.tokens.push(ClientToken { token: token.duplicate(), position: Position::origin() });
        proof {
            assert(self.tokens.deep_view() =~~= old(self).tokens.deep_view().push(
                ClientTokenView { token: token@, position: Position { x: 0, y: 0, z: 0 } },
            ));
        }
    }

    /// Applies one snapshot to the cache: every cached token the snapshot
    /// knows moves to the reported position; ids the cache does not hold
    /// are ignored.
    #[verifier::loop_isolation(false)]
    pub fn apply_snapshot(&mut self, entries: &Vec<SnapshotEntry>)
        ensures
            final(self).tokens.deep_view() == applied_snapshot(
                old(self).tokens.deep_view(),
                entries@,
            ),
            final(self).my_token == old(self).my_token,
    {
        let n = self.tokens.len();
        let mut k: usize = 0;
        while k < n
            invariant
                n == self.tokens@.len(),
                k <= n,
                self.my_token == old(self).my_token,
                forall|j: int|
                    0 <= j < k ==> #[trigger] self.tokens@[j].deep_view() == applied_snapshot(
                        old(self).tokens.deep_view(),
                        entries@,
                    )[j],
                forall|j: int| k <= j < n ==> #[trigger] self.tokens@[j] == old(self).tokens@[j],
            decreases n - k,
        {
            proof {
                assert(old(self).tokens.deep_view()[k as int] == old(self).tokens@[k
                    as int].deep_view());
            }
            match snapshot_find(entries, self.tokens[k].token.id) {
                Some(p) => {
                    self.tokens[k].position = p;
                },
                None => {},
            }
            proof {
                assert(self.tokens@[k as int].deep_view() == applied_snapshot(
                    old(self).tokens.deep_view(),
                    entries@,
                )[k as int]);
            }
            k = k + 1;
        }
        proof {
            assert(self.tokens.deep_view() =~~= applied_snapshot(
                old(self).tokens.deep_view(),
                entries@,
            ));
        }
    }

    /// Ingests one payload from the unreliable channel: a snapshot is
    /// applied to the cache; anything else — garbage included — changes
    /// nothing and raises no error.
    pub fn sync_players(&mut self, bytes: &Vec<u8>)
        ensures
            (match parse_message(bytes@) {
                Some(WireMessageView::Snapshot(es)) => final(self).tokens.deep_view()
                    == applied_snapshot(old(self).tokens.deep_view(), es),
                _ => final(self).tokens == old(self).tokens,
            }),
            final(self).my_token == old(self).my_token,
    {
        match decode_message(bytes.as_slice()) {
            Some(WireMessage::Snapshot(entries)) => {
                self.apply_snapshot(&entries);
            },
            _ => {},
        }
    }

    /// Ingests one payload from the reliable channel: a spawn broadcast
    /// materializes the token at the origin; a presence notice carries no
    /// state to apply; anything else is silently dropped.
    pub fn receive_message(&mut self, bytes: &Vec<u8>)
        ensures
            (match parse_message(bytes@) {
                Some(WireMessageView::Spawn(t)) => final(self).tokens.deep_view() == old(
                    self,
                ).tokens.deep_view().push(
                    ClientTokenView { token: t, position: Position { x: 0, y: 0, z: 0 } },
                ),
                _ => final(self).tokens == old(self).tokens,
            }),
            final(self).my_token == old(self).my_token,
    {
        match decode_message(bytes.as_slice()) {
            Some(WireMessage::Spawn(spawn)) => {
                self.spawn_token(&spawn.0);
            },
            _ => {},
        }
    }

    /// The movement message this client should send for a frame's input: one
    /// exists exactly when the client controls a token, and it carries that
    /// token's id and the whole input.
    pub fn client_send_input(&self, input: &PlayerInput) -> (r: Option<Vec<u8>>)
        ensures
            self.my_token.0 is None <==> r is None,
            r matches Some(bytes) ==> bytes@ == spec_encode(
                WireMessageView::Movement(self.my_token.0->Some_0, *input),
            ),
    {
        match self.my_token.0 {
            None => None,
            Some(id) => Some(encode_message(&WireMessage::Movement(TokenMovement(id, *input)))),
        }
    }

    /// Acts on a locally requested spawn: the token joins the local cache at
    /// the origin, becomes this client's own, and the spawn message to send
    /// is returned.
    pub fn handle_spawn_token(&mut self, token: &Token) -> (r: Vec<u8>)
        ensures
            final(self).tokens.deep_view() == old(self).tokens.deep_view().push(
                ClientTokenView { token: token@, position: Position { x: 0, y: 0, z: 0 } },
            ),
            final(self).my_token.0 == Some(token@.id),
            r@ == spec_encode(WireMessageView::Spawn(token@)),
    {
        self.my_token = MyToken(Some(token.id));
        let message = encode_message(&WireMessage::Spawn(SpawnToken(token.duplicate())));
        self.spawn_token(token);
        message
    }
}

/// The frame's directional intent from the keyboard: each direction is held
/// when either of its two keys is.
pub fn player_input(
    key_a: bool,
    key_left: bool,
    key_d: bool,
    key_right: bool,
    key_w: bool,
    key_up: bool,
    key_s: bool,
    key_down: bool,
) -> (r: PlayerInput)
    ensures
        r.left == (key_a || key_left),
        r.right == (key_d || key_right),
        r.up == (key_w || key_up),
        r.down == (key_s || key_down),
{
    PlayerInput {
        left: key_a || key_left,
        right: key_d || key_right,
        up: key_w || key_up,
        down: key_s || key_down,
    }
}

/// The token a chosen character spawns: a fresh id, the character's name,
/// color and portrait, exactly as chosen.
pub fn token_of_character(character: &Character, id: u128) -> (r: Token)
    ensures
        r@.id == id,
        r@.name == character.name@,
        r@.color == character.color,
        r@.portrait == (match character.portrait {
            None => None::<Seq<char>>,
            Some(p) => Some(p@),
        }),
{
    Token {
        id,
        name: character.name.clone(),
        color: character.color,
        portrait: match &character.portrait {
            None => None,
            Some(p) => Some(p.clone()),
        },
    }
}

/// A token spawned from a character, under an id drawn fresh at random.
pub fn spawn_token_for_character(character: &Character) -> (r: Token)
    ensures
        r@.name == character.name@,
        r@.color == character.color,
{
    let id = crate::session::new_uuid128();
    token_of_character(character, id)
}

} // verus!
