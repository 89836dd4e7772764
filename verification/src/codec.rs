//! The binary wire format: typed messages framed as tagged byte strings.
//!
//! Every message starts with a one-byte tag; integers travel little-endian,
//! strings as a length-prefixed UTF-8 block. Decoding is total: any byte
//! string that is not exactly the encoding of one message yields nothing, so
//! a malformed payload is ignored rather than fatal. Encoding and decoding
//! are proved to be exact inverses.

use vstd::prelude::*;
use vstd::slice::{slice_index_get, slice_subrange, slice_to_vec};
use vstd::utf8::{decode_utf8, encode_utf8, valid_utf8};
use crate::color::Color;
use crate::wire::{
    PlayerInput, Position, ServerMessages, SnapshotEntry, SpawnToken, Token, TokenMovement,
    TokenView,
};

verus! {

/// The eight little-endian bytes of a 64-bit integer.
pub open spec fn spec_u64_le(x: u64) -> Seq<u8> {
    seq![
        x as u8,
        (x >> 8) as u8,
        (x >> 16) as u8,
        (x >> 24) as u8,
        (x >> 32) as u8,
        (x >> 40) as u8,
        (x >> 48) as u8,
        (x >> 56) as u8,
    ]
}

/// The 64-bit integer held by eight little-endian bytes.
pub open spec fn u64_from_le(s: Seq<u8>) -> u64 {
    ((s[0] as u64) | ((s[1] as u64) << 8) | ((s[2] as u64) << 16) | ((s[3] as u64) << 24) | ((
    s[4] as u64) << 32) | ((s[5] as u64) << 40) | ((s[6] as u64) << 48) | ((s[7] as u64) << 56))
}

/// The sixteen little-endian bytes of a 128-bit integer.
pub open spec fn spec_u128_le(x: u128) -> Seq<u8> {
    seq![
        x as u8,
        (x >> 8) as u8,
        (x >> 16) as u8,
        (x >> 24) as u8,
        (x >> 32) as u8,
        (x >> 40) as u8,
        (x >> 48) as u8,
        (x >> 56) as u8,
        (x >> 64) as u8,
        (x >> 72) as u8,
        (x >> 80) as u8,
        (x >> 88) as u8,
        (x >> 96) as u8,
        (x >> 104) as u8,
        (x >> 112) as u8,
        (x >> 120) as u8,
    ]
}

/// The 128-bit integer held by sixteen little-endian bytes.
pub open spec fn u128_from_le(s: Seq<u8>) -> u128 {
    ((s[0] as u128) | ((s[1] as u128) << 8) | ((s[2] as u128) << 16) | ((s[3] as u128) << 24) | ((
    s[4] as u128) << 32) | ((s[5] as u128) << 40) | ((s[6] as u128) << 48) | ((s[7] as u128) << 56)
        | ((s[8] as u128) << 64) | ((s[9] as u128) << 72) | ((s[10] as u128) << 80) | ((
    s[11] as u128) << 88) | ((s[12] as u128) << 96) | ((s[13] as u128) << 104) | ((
    s[14] as u128) << 112) | ((s[15] as u128) << 120))
}

/// Reassembling the little-endian bytes of a 64-bit integer gives it back.
pub proof fn lemma_u64_le_round_trip(x: u64)
    ensures
        u64_from_le(spec_u64_le(x)) == x,
{
    assert(((x as u8) as u64) | ((((x >> 8) as u8) as u64) << 8) | ((((x >> 16) as u8) as u64)
        << 16) | ((((x >> 24) as u8) as u64) << 24) | ((((x >> 32) as u8) as u64) << 32) | ((((x
        >> 40) as u8) as u64) << 40) | ((((x >> 48) as u8) as u64) << 48) | ((((x >> 56) as u8)
        as u64) << 56) == x) by (bit_vector);
}

/// Reassembling the little-endian bytes of a 128-bit integer gives it back.
pub proof fn lemma_u128_le_round_trip(x: u128)
    ensures
        u128_from_le(spec_u128_le(x)) == x,
{
    assert(((x as u8) as u128) | ((((x >> 8) as u8) as u128) << 8) | ((((x >> 16) as u8) as u128)
        << 16) | ((((x >> 24) as u8) as u128) << 24) | ((((x >> 32) as u8) as u128) << 32) | ((((x
        >> 40) as u8) as u128) << 40) | ((((x >> 48) as u8) as u128) << 48) | ((((x >> 56) as u8)
        as u128) << 56) | ((((x >> 64) as u8) as u128) << 64) | ((((x >> 72) as u8) as u128) << 72)
        | ((((x >> 80) as u8) as u128) << 80) | ((((x >> 88) as u8) as u128) << 88) | ((((x >> 96)
        as u8) as u128) << 96) | ((((x >> 104) as u8) as u128) << 104) | ((((x >> 112) as u8)
        as u128) << 112) | ((((x >> 120) as u8) as u128) << 120) == x) by (bit_vector);
}

/// A 64-bit integer survives the round trip through its unsigned bit image.
pub proof fn lemma_i64_cast_round_trip(x: i64)
    ensures
        ((x as u64) as i64) == x,
{
    assert(((x as u64) as i64) == x) by (bit_vector);
}

/// Appends the eight little-endian bytes of a 64-bit integer.
fn push_u64_le(buf: &mut Vec<u8>, x: u64)
    ensures
        final(buf)@ =~= old(buf)@ + spec_u64_le(x),
{
    buf.push(x as u8);
    buf.push((x >> 8) as u8);
    buf.push((x >> 16) as u8);
    buf.push((x >> 24) as u8);
    buf.push((x >> 32) as u8);
    buf.push((x >> 40) as u8);
    buf.push((x >> 48) as u8);
    buf.push((x >> 56) as u8);
}

/// Appends the sixteen little-endian bytes of a 128-bit integer.
fn push_u128_le(buf: &mut Vec<u8>, x: u128)
    ensures
        final(buf)@ =~= old(buf)@ + spec_u128_le(x),
{
    buf.push(x as u8);
    buf.push((x >> 8) as u8);
    buf.push((x >> 16) as u8);
    buf.push((x >> 24) as u8);
    buf.push((x >> 32) as u8);
    buf.push((x >> 40) as u8);
    buf.push((x >> 48) as u8);
    buf.push((x >> 56) as u8);
    buf.push((x >> 64) as u8);
    buf.push((x >> 72) as u8);
    buf.push((x >> 80) as u8);
    buf.push((x >> 88) as u8);
    buf.push((x >> 96) as u8);
    buf.push((x >> 104) as u8);
    buf.push((x >> 112) as u8);
    buf.push((x >> 120) as u8);
}

/// Reads the 64-bit integer at `i`, if eight bytes are there.
pub open spec fn parse_u64(b: Seq<u8>, i: int) -> Option<(u64, int)> {
    if 0 <= i && i + 8 <= b.len() {
        Some((u64_from_le(b.subrange(i, i + 8)), i + 8))
    } else {
        None
    }
}

/// Reads the 128-bit integer at `i`, if sixteen bytes are there.
pub open spec fn parse_u128(b: Seq<u8>, i: int) -> Option<(u128, int)> {
    if 0 <= i && i + 16 <= b.len() {
        Some((u128_from_le(b.subrange(i, i + 16)), i + 16))
    } else {
        None
    }
}

/// Reads the byte at `i`, if one is there.
pub open spec fn parse_u8(b: Seq<u8>, i: int) -> Option<(u8, int)> {
    if 0 <= i && i + 1 <= b.len() {
        Some((b[i], i + 1))
    } else {
        None
    }
}

/// Reads the 64-bit integer at `i` of a byte string.
fn read_u64_le(b: &[u8], i: usize) -> (r: Option<(u64, usize)>)
    requires
        i <= b@.len(),
    ensures
        r is Some <==> parse_u64(b@, i as int) is Some,
        r matches Some((x, j)) ==> parse_u64(b@, i as int) == Some((x, j as int)),
{
    if b.len() - i >= 8 {
        let x: u64 = (*slice_index_get(b, i) as u64) | ((*slice_index_get(b, i + 1) as u64) << 8)
            | ((*slice_index_get(b, i + 2) as u64) << 16) | ((*slice_index_get(b, i + 3) as u64)
            << 24) | ((*slice_index_get(b, i + 4) as u64) << 32) | ((*slice_index_get(
            b,
            i + 5,
        ) as u64) << 40) | ((*slice_index_get(b, i + 6) as u64) << 48) | ((*slice_index_get(
            b,
            i + 7,
        ) as u64) << 56);
        proof {
            let s = b@.subrange(i as int, i as int + 8);
            assert(s[0] == b@[i as int] && s[1] == b@[i as int + 1] && s[2] == b@[i as int + 2]
                && s[3] == b@[i as int + 3] && s[4] == b@[i as int + 4] && s[5] == b@[i as int + 5]
                && s[6] == b@[i as int + 6] && s[7] == b@[i as int + 7]);
        }
        Some((x, i + 8))
    } else {
        None
    }
}

/// Reads the 128-bit integer at `i` of a byte string.
fn read_u128_le(b: &[u8], i: usize) -> (r: Option<(u128, usize)>)
    requires
        i <= b@.len(),
    ensures
        r is Some <==> parse_u128(b@, i as int) is Some,
        r matches Some((x, j)) ==> parse_u128(b@, i as int) == Some((x, j as int)),
{
    if b.len() - i >= 16 {
        let x: u128 = (*slice_index_get(b, i) as u128) | ((*slice_index_get(b, i + 1) as u128)
            << 8) | ((*slice_index_get(b, i + 2) as u128) << 16) | ((*slice_index_get(
            b,
            i + 3,
        ) as u128) << 24) | ((*slice_index_get(b, i + 4) as u128) << 32) | ((*slice_index_get(
            b,
            i + 5,
        ) as u128) << 40) | ((*slice_index_get(b, i + 6) as u128) << 48) | ((*slice_index_get(
            b,
            i + 7,
        ) as u128) << 56) | ((*slice_index_get(b, i + 8) as u128) << 64) | ((*slice_index_get(
            b,
            i + 9,
        ) as u128) << 72) | ((*slice_index_get(b, i + 10) as u128) << 80) | ((*slice_index_get(
            b,
            i + 11,
        ) as u128) << 88) | ((*slice_index_get(b, i + 12) as u128) << 96) | ((*slice_index_get(
            b,
            i + 13,
        ) as u128) << 104) | ((*slice_index_get(b, i + 14) as u128) << 112) | ((*slice_index_get(
            b,
            i + 15,
        ) as u128) << 120);
        proof {
            let s = b@.subrange(i as int, i as int + 16);
            assert(forall|k: int| 0 <= k < 16 ==> s[k] == b@[i as int + k]);
            assert(s[0] == b@[i as int] && s[1] == b@[i as int + 1] && s[2] == b@[i as int + 2]
                && s[3] == b@[i as int + 3] && s[4] == b@[i as int + 4] && s[5] == b@[i as int + 5]
                && s[6] == b@[i as int + 6] && s[7] == b@[i as int + 7] && s[8] == b@[i as int + 8]
                && s[9] == b@[i as int + 9] && s[10] == b@[i as int + 10] && s[11] == b@[i as int
                + 11] && s[12] == b@[i as int + 12] && s[13] == b@[i as int + 13] && s[14] == b@[i
                as int + 14] && s[15] == b@[i as int + 15]);
        }
        Some((x, i + 16))
    } else {
        None
    }
}

/// Relies on String::from_utf8 of std: it accepts exactly the byte strings
/// that are valid UTF-8 and yields the characters those bytes encode.
#[verifier::external_body]
fn string_from_utf8(bytes: Vec<u8>) -> (r: Option<String>)
    ensures
        r is Some <==> valid_utf8(bytes@),
        r matches Some(s) ==> s@ == decode_utf8(bytes@),
{
    String::from_utf8(bytes).ok()
}

/// A string block: the byte length of the UTF-8 form, then those bytes.
pub open spec fn spec_str_block(s: Seq<char>) -> Seq<u8> {
    spec_u64_le(encode_utf8(s).len() as u64) + encode_utf8(s)
}

/// Reads a string block at `i`: its length, then that many bytes, which must
/// be valid UTF-8.
pub open spec fn parse_str(b: Seq<u8>, i: int) -> Option<(Seq<char>, int)> {
    match parse_u64(b, i) {
        None => None,
        Some((n, j)) => if j + n <= b.len() && valid_utf8(b.subrange(j, j + n as int)) {
            Some((decode_utf8(b.subrange(j, j + n as int)), j + n as int))
        } else {
            None
        },
    }
}

/// Appends a string block: the UTF-8 byte length, then the bytes.
fn push_str_block(buf: &mut Vec<u8>, s: &String)
    ensures
        final(buf)@ =~= old(buf)@ + spec_str_block(s@),
{
    let mut bytes = s.as_str().as_bytes_vec();
    push_u64_le(buf, bytes.len() as u64);
    buf.append(&mut bytes);
}

/// Reads the string block at `i` of a byte string.
fn read_str(b: &[u8], i: usize) -> (r: Option<(String, usize)>)
    requires
        i <= b@.len(),
    ensures
        r is Some <==> parse_str(b@, i as int) is Some,
        r matches Some((s, j)) ==> parse_str(b@, i as int) == Some((s@, j as int)),
{
    match read_u64_le(b, i) {
        None => None,
        Some((n, j)) => {
            if n <= (b.len() - j) as u64 {
                let count = n as usize;
                let bytes = slice_to_vec(slice_subrange(b, j, j + count));
                match string_from_utf8(bytes) {
                    None => None,
                    Some(s) => Some((s, j + count)),
                }
            } else {
                None
            }
        },
    }
}

/// The wire byte of a directional intent: one bit per held key.
pub open spec fn spec_input_byte(inp: PlayerInput) -> u8 {
    ((if inp.up {
        1int
    } else {
        0int
    }) + (if inp.down {
        2int
    } else {
        0int
    }) + (if inp.left {
        4int
    } else {
        0int
    }) + (if inp.right {
        8int
    } else {
        0int
    })) as u8
}

/// The directional intent held by a wire byte; bytes with unknown bits set
/// are not intents.
pub open spec fn parse_input(byte: u8) -> Option<PlayerInput> {
    if byte < 16 {
        Some(
            PlayerInput {
                up: byte % 2 == 1,
                down: (byte / 2) % 2 == 1,
                left: (byte / 4) % 2 == 1,
                right: (byte / 8) % 2 == 1,
            },
        )
    } else {
        None
    }
}

/// Reading back the wire byte of a directional intent gives that intent.
pub proof fn lemma_input_byte_round_trip(inp: PlayerInput)
    ensures
        spec_input_byte(inp) < 16,
        parse_input(spec_input_byte(inp)) == Some(inp),
{
}

/// The wire byte of a directional intent, computed.
fn input_byte(inp: &PlayerInput) -> (r: u8)
    ensures
        r == spec_input_byte(*inp),
{
    (if inp.up {
        1u8
    } else {
        0u8
    }) + (if inp.down {
        2u8
    } else {
        0u8
    }) + (if inp.left {
        4u8
    } else {
        0u8
    }) + (if inp.right {
        8u8
    } else {
        0u8
    })
}

/// The directional intent held by a wire byte, computed.
fn read_input(byte: u8) -> (r: Option<PlayerInput>)
    ensures
        r == parse_input(byte),
{
    if byte < 16 {
        Some(
            PlayerInput {
                up: byte % 2 == 1,
                down: (byte / 2) % 2 == 1,
                left: (byte / 4) % 2 == 1,
                right: (byte / 8) % 2 == 1,
            },
        )
    } else {
        None
    }
}

/// The four channel bytes of a color.
pub open spec fn spec_color_bytes(c: Color) -> Seq<u8> {
    seq![c.red, c.green, c.blue, c.alpha]
}

/// Reads the four channel bytes of a color at `i`.
pub open spec fn parse_color(b: Seq<u8>, i: int) -> Option<(Color, int)> {
    if 0 <= i && i + 4 <= b.len() {
        Some((Color { red: b[i], green: b[i + 1], blue: b[i + 2], alpha: b[i + 3] }, i + 4))
    } else {
        None
    }
}

/// Reads the color at `i` of a byte string.
fn read_color(b: &[u8], i: usize) -> (r: Option<(Color, usize)>)
    requires
        i <= b@.len(),
    ensures
        r is Some <==> parse_color(b@, i as int) is Some,
        r matches Some((c, j)) ==> parse_color(b@, i as int) == Some((c, j as int)),
{
    if b.len() - i >= 4 {
        let c = Color {
            red: *slice_index_get(b, i),
            green: *slice_index_get(b, i + 1),
            blue: *slice_index_get(b, i + 2),
            alpha: *slice_index_get(b, i + 3),
        };
        Some((c, i + 4))
    } else {
        None
    }
}

/// The byte string of a token: id, name block, color, then the portrait
/// marked by a presence byte.
pub open spec fn spec_token_bytes(t: TokenView) -> Seq<u8> {
    spec_u128_le(t.id) + spec_str_block(t.name) + spec_color_bytes(t.color) + (match t.portrait {
        None => seq![0u8],
        Some(p) => seq![1u8] + spec_str_block(p),
    })
}

/// Reads the token at `i`: id, name, color, then the portrait if its
/// presence byte says one follows.
pub open spec fn parse_token(b: Seq<u8>, i: int) -> Option<(TokenView, int)> {
    match parse_u128(b, i) {
        None => None,
        Some((id, i1)) => match parse_str(b, i1) {
            None => None,
            Some((name, i2)) => match parse_color(b, i2) {
                None => None,
                Some((color, i3)) => match parse_u8(b, i3) {
                    None => None,
                    Some((flag, i4)) => if flag == 0 {
                        Some((TokenView { id, name, color, portrait: None }, i4))
                    } else if flag == 1 {
                        match parse_str(b, i4) {
                            None => None,
                            Some((p, i5)) => Some(
                                (TokenView { id, name, color, portrait: Some(p) }, i5),
                            ),
                        }
                    } else {
                        None
                    },
                },
            },
        },
    }
}

/// Appends the byte string of a token.
fn push_token(buf: &mut Vec<u8>, t: &Token)
    ensures
        final(buf)@ =~= old(buf)@ + spec_token_bytes(t@),
{
    push_u128_le(buf, t.id);
    push_str_block(buf, &t.name);
    buf.push(t.color.red);
    buf.push(t.color.green);
    buf.push(t.color.blue);
    buf.push(t.color.alpha);
    match &t.portrait {
        None => {
            buf.push(0);
        },
        Some(p) => {
            buf.push(1);
            push_str_block(buf, p);
        },
    }
}

/// Reads the token at `i` of a byte string.
fn read_token(b: &[u8], i: usize) -> (r: Option<(Token, usize)>)
    requires
        i <= b@.len(),
    ensures
        r is Some <==> parse_token(b@, i as int) is Some,
        r matches Some((t, j)) ==> parse_token(b@, i as int) == Some((t@, j as int)),
{
    match read_u128_le(b, i) {
        None => None,
        Some((id, i1)) => match read_str(b, i1) {
            None => None,
            Some((name, i2)) => match read_color(b, i2) {
                None => None,
                Some((color, i3)) => {
                    if i3 >= b.len() {
                        return None;
                    }
                    let flag = *slice_index_get(b, i3);
                    let i4 = i3 + 1;
                    if flag == 0 {
                        Some((Token { id, name, color, portrait: None }, i4))
                    } else if flag == 1 {
                        match read_str(b, i4) {
                            None => None,
                            Some((p, i5)) => Some(
                                (Token { id, name, color, portrait: Some(p) }, i5),
                            ),
                        }
                    } else {
                        None
                    }
                },
            },
        },
    }
}

/// One typed message of the wire protocol: a presence notice, a spawn
/// request, a movement intent or a full snapshot.
#[derive(Clone, Debug)]
pub enum WireMessage {
    Presence(ServerMessages),
    Spawn(SpawnToken),
    Movement(TokenMovement),
    Snapshot(Vec<SnapshotEntry>),
}

/// The mathematical content of a wire message.
pub ghost enum WireMessageView {
    Presence(ServerMessages),
    Spawn(TokenView),
    Movement(u128, PlayerInput),
    Snapshot(Seq<SnapshotEntry>),
}

impl View for WireMessage {
    type V = WireMessageView;

    open spec fn view(&self) -> WireMessageView {
        match self {
            WireMessage::Presence(p) => WireMessageView::Presence(*p),
            WireMessage::Spawn(s) => WireMessageView::Spawn(s@),
            WireMessage::Movement(m) => WireMessageView::Movement(m.0, m.1),
            WireMessage::Snapshot(es) => WireMessageView::Snapshot(es@),
        }
    }
}

/// The byte string of one snapshot entry: token id, then the three axes as
/// the unsigned bit image of their fixed-point value.
pub open spec fn spec_entry_bytes(e: SnapshotEntry) -> Seq<u8> {
    spec_u128_le(e.id) + spec_u64_le(e.position.x as u64) + spec_u64_le(e.position.y as u64)
        + spec_u64_le(e.position.z as u64)
}

/// The byte string of a run of snapshot entries, in order.
pub open spec fn spec_entries_bytes(es: Seq<SnapshotEntry>) -> Seq<u8>
    decreases es.len(),
{
    if es.len() == 0 {
        Seq::empty()
    } else {
        spec_entry_bytes(es[0]) + spec_entries_bytes(es.drop_first())
    }
}

/// Appending one entry extends the byte string by that entry's bytes.
pub proof fn lemma_entries_bytes_push(es: Seq<SnapshotEntry>, e: SnapshotEntry)
    ensures
        spec_entries_bytes(es.push(e)) == spec_entries_bytes(es) + spec_entry_bytes(e),
    decreases es.len(),
{
    if es.len() == 0 {
        assert(es.push(e).drop_first() =~= Seq::<SnapshotEntry>::empty());
        assert(es.push(e)[0] == e);
        assert(spec_entries_bytes(Seq::<SnapshotEntry>::empty()) == Seq::<u8>::empty());
        assert(spec_entries_bytes(es.push(e)) =~= spec_entry_bytes(e));
        assert(spec_entries_bytes(es) + spec_entry_bytes(e) =~= spec_entry_bytes(e));
    } else {
        lemma_entries_bytes_push(es.drop_first(), e);
        assert(es.push(e).drop_first() =~= es.drop_first().push(e));
        assert(es.push(e)[0] == es[0]);
        assert(spec_entries_bytes(es.push(e)) == spec_entry_bytes(es[0]) + (spec_entries_bytes(
            es.drop_first(),
        ) + spec_entry_bytes(e)));
        assert(spec_entry_bytes(es[0]) + (spec_entries_bytes(es.drop_first()) + spec_entry_bytes(
            e,
        )) =~= (spec_entry_bytes(es[0]) + spec_entries_bytes(es.drop_first())) + spec_entry_bytes(
            e,
        ));
    }
}

/// Reads one snapshot entry at `i`.
pub open spec fn parse_entry(b: Seq<u8>, i: int) -> Option<(SnapshotEntry, int)> {
    match parse_u128(b, i) {
        None => None,
        Some((id, i1)) => match parse_u64(b, i1) {
            None => None,
            Some((x, i2)) => match parse_u64(b, i2) {
                None => None,
                Some((y, i3)) => match parse_u64(b, i3) {
                    None => None,
                    Some((z, i4)) => Some(
                        (
                            SnapshotEntry {
                                id,
                                position: Position { x: x as i64, y: y as i64, z: z as i64 },
                            },
                            i4,
                        ),
                    ),
                },
            },
        },
    }
}

/// Reads `n` snapshot entries at `i`, in order.
pub open spec fn parse_entries(b: Seq<u8>, i: int, n: nat) -> Option<(Seq<SnapshotEntry>, int)>
    decreases n,
{
    if n == 0 {
        Some((Seq::empty(), i))
    } else {
        match parse_entry(b, i) {
            None => None,
            Some((e, j)) => match parse_entries(b, j, (n - 1) as nat) {
                None => None,
                Some((rest, k)) => Some((seq![e] + rest, k)),
            },
        }
    }
}

/// Appends the byte string of one snapshot entry.
fn push_entry(buf: &mut Vec<u8>, e: &SnapshotEntry)
    ensures
        final(buf)@ =~= old(buf)@ + spec_entry_bytes(*e),
{
    push_u128_le(buf, e.id);
    push_u64_le(buf, e.position.x as u64);
    push_u64_le(buf, e.position.y as u64);
    push_u64_le(buf, e.position.z as u64);
}

/// Reads the snapshot entry at `i` of a byte string.
fn read_entry(b: &[u8], i: usize) -> (r: Option<(SnapshotEntry, usize)>)
    requires
        i <= b@.len(),
    ensures
        r is Some <==> parse_entry(b@, i as int) is Some,
        r matches Some((e, j)) ==> parse_entry(b@, i as int) == Some((e, j as int)),
{
    match read_u128_le(b, i) {
        None => None,
        Some((id, i1)) => match read_u64_le(b, i1) {
            None => None,
            Some((x, i2)) => match read_u64_le(b, i2) {
                None => None,
                Some((y, i3)) => match read_u64_le(b, i3) {
                    None => None,
                    Some((z, i4)) => Some(
                        (
                            SnapshotEntry {
                                id,
                                position: Position { x: x as i64, y: y as i64, z: z as i64 },
                            },
                            i4,
                        ),
                    ),
                },
            },
        },
    }
}

/// The tag bytes of the message kinds.
pub open spec fn spec_tag(m: WireMessageView) -> u8 {
    match m {
        WireMessageView::Presence(ServerMessages::PlayerConnected { .. }) => 1,
        WireMessageView::Presence(ServerMessages::PlayerDisconnected { .. }) => 2,
        WireMessageView::Spawn(_) => 3,
        WireMessageView::Movement(_, _) => 4,
        WireMessageView::Snapshot(_) => 5,
    }
}

/// The byte string of a whole message: its tag, then its payload.
pub open spec fn spec_encode(m: WireMessageView) -> Seq<u8> {
    match m {
        WireMessageView::Presence(ServerMessages::PlayerConnected { id }) => seq![1u8]
            + spec_u64_le(id),
        WireMessageView::Presence(ServerMessages::PlayerDisconnected { id }) => seq![2u8]
            + spec_u64_le(id),
        WireMessageView::Spawn(t) => seq![3u8] + spec_token_bytes(t),
        WireMessageView::Movement(id, inp) => seq![4u8] + spec_u128_le(id) + seq![
            spec_input_byte(inp),
        ],
        WireMessageView::Snapshot(es) => seq![5u8] + spec_u64_le(es.len() as u64)
            + spec_entries_bytes(es),
    }
}

/// Reads a whole message: the byte string must be exactly one well-formed
/// message, or nothing is read.
pub open spec fn parse_message(b: Seq<u8>) -> Option<WireMessageView> {
    match parse_u8(b, 0) {
        None => None,
        Some((tag, i)) => if tag == 1 || tag == 2 {
            match parse_u64(b, i) {
                None => None,
                Some((id, j)) => if j == b.len() {
                    Some(
                        WireMessageView::Presence(
                            if tag == 1 {
                                ServerMessages::PlayerConnected { id }
                            } else {
                                ServerMessages::PlayerDisconnected { id }
                            },
                        ),
                    )
                } else {
                    None
                },
            }
        } else if tag == 3 {
            match parse_token(b, i) {
                None => None,
                Some((t, j)) => if j == b.len() {
                    Some(WireMessageView::Spawn(t))
                } else {
                    None
                },
            }
        } else if tag == 4 {
            match parse_u128(b, i) {
                None => None,
                Some((id, j)) => match parse_u8(b, j) {
                    None => None,
                    Some((byte, k)) => match parse_input(byte) {
                        None => None,
                        Some(inp) => if k == b.len() {
                            Some(WireMessageView::Movement(id, inp))
                        } else {
                            None
                        },
                    },
                },
            }
        } else if tag == 5 {
            match parse_u64(b, i) {
                None => None,
                Some((n, j)) => match parse_entries(b, j, n as nat) {
                    None => None,
                    Some((es, k)) => if k == b.len() {
                        Some(WireMessageView::Snapshot(es))
                    } else {
                        None
                    },
                },
            }
        } else {
            None
        },
    }
}

/// Writes a message as its byte string.
pub fn encode_message(m: &WireMessage) -> (r: Vec<u8>)
    ensures
        r@ == spec_encode(m@),
{
    let mut buf: Vec<u8> = Vec::new();
    match m {
        WireMessage::Presence(p) => {
            match p {
                ServerMessages::PlayerConnected { id } => {
                    buf.push(1);
                    push_u64_le(&mut buf, *id);
                },
                ServerMessages::PlayerDisconnected { id } => {
                    buf.push(2);
                    push_u64_le(&mut buf, *id);
                },
            }
            proof {
                assert(buf@ =~= spec_encode(m@));
            }
        },
        WireMessage::Spawn(s) => {
            buf.push(3);
            push_token(&mut buf, &s.0);
            proof {
                assert(buf@ =~= spec_encode(m@));
            }
        },
        WireMessage::Movement(mv) => {
            buf.push(4);
            push_u128_le(&mut buf, mv.0);
            buf.push(input_byte(&mv.1));
            proof {
                assert(buf@ =~= spec_encode(m@));
            }
        },
        WireMessage::Snapshot(es) => {
            buf.push(5);
            push_u64_le(&mut buf, es.len() as u64);
            let ghost header = buf@;
            let mut k: usize = 0;
            while k < es.len()
                invariant
                    k <= es@.len(),
                    buf@ == header + spec_entries_bytes(es@.take(k as int)),
                decreases es@.len() - k,
            {
                push_entry(&mut buf, &es[k]);
                proof {
                    assert(es@.take(k as int).push(es@[k as int]) =~= es@.take(k as int + 1));
                    lemma_entries_bytes_push(es@.take(k as int), es@[k as int]);
                    assert(header + spec_entries_bytes(es@.take(k as int)) + spec_entry_bytes(
                        es@[k as int],
                    ) =~= header + spec_entries_bytes(es@.take(k as int + 1)));
                }
                k = k + 1;
            }
            proof {
                assert(es@.take(es@.len() as int) =~= es@);
                assert(buf@ =~= spec_encode(m@));
            }
        },
    }
    buf
}

/// Reads a byte string back as the message it encodes, or nothing if it is
/// not exactly the encoding of one message: a malformed payload yields
/// nothing rather than an error.
#[verifier::loop_isolation(false)]
pub fn decode_message(b: &[u8]) -> (r: Option<WireMessage>)
    ensures
        r is Some <==> parse_message(b@) is Some,
        r matches Some(m) ==> parse_message(b@) == Some(m@),
{
    if b.len() == 0 {
        return None;
    }
    let tag = *slice_index_get(b, 0);
    if tag == 1 || tag == 2 {
        match read_u64_le(b, 1) {
            None => None,
            Some((id, j)) => {
                if j == b.len() {
                    let p = if tag == 1 {
                        ServerMessages::PlayerConnected { id }
                    } else {
                        ServerMessages::PlayerDisconnected { id }
                    };
                    Some(WireMessage::Presence(p))
                } else {
                    None
                }
            },
        }
    } else if tag == 3 {
        match read_token(b, 1) {
            None => None,
            Some((t, j)) => {
                if j == b.len() {
                    Some(WireMessage::Spawn(SpawnToken(t)))
                } else {
                    None
                }
            },
        }
    } else if tag == 4 {
        match read_u128_le(b, 1) {
            None => None,
            Some((id, j)) => {
                if j >= b.len() {
                    return None;
                }
                let byte = *slice_index_get(b, j);
                match read_input(byte) {
                    None => None,
                    Some(inp) => {
                        if j + 1 == b.len() {
                            Some(WireMessage::Movement(TokenMovement(id, inp)))
                        } else {
                            None
                        }
                    },
                }
            },
        }
    } else if tag == 5 {
        match read_u64_le(b, 1) {
            None => None,
            Some((n, j0)) => {
                let mut entries: Vec<SnapshotEntry> = Vec::new();
                let mut cur: usize = j0;
                let mut remaining: u64 = n;
                while remaining > 0
                    invariant
                        cur <= b@.len(),
                        remaining <= n,
                        (match parse_entries(b@, cur as int, remaining as nat) {
                            None => parse_entries(b@, j0 as int, n as nat) is None,
                            Some((rest, k)) => parse_entries(b@, j0 as int, n as nat) == Some(
                                (entries@ + rest, k),
                            ),
                        }),
                    decreases remaining,
                {
                    match read_entry(b, cur) {
                        None => {
                            proof {
                                assert(parse_entries(b@, cur as int, remaining as nat) is None);
                                assert(parse_entries(b@, j0 as int, n as nat) is None);
                                assert(parse_message(b@) is None);
                            }
                            return None;
                        },
                        Some((e, nxt)) => {
                            proof {
                                let rem0 = remaining as nat;
                                let tail = parse_entries(b@, nxt as int, (rem0 - 1) as nat);
                                if tail is Some {
                                    assert(entries@ + (seq![e] + tail->Some_0.0) =~= entries@.push(
                                        e,
                                    ) + tail->Some_0.0);
                                }
                            }
                            entries.push(e);
                            cur = nxt;
                            remaining = remaining - 1;
                        },
                    }
                }
                proof {
                    assert(entries@ + Seq::<SnapshotEntry>::empty() =~= entries@);
                }
                if cur == b.len() {
                    Some(WireMessage::Snapshot(entries))
                } else {
                    None
                }
            },
        }
    } else {
        None
    }
}

/// Whether a token's strings fit the length prefixes of the wire format;
/// every token held in memory does.
pub open spec fn token_view_wf(t: TokenView) -> bool {
    &&& encode_utf8(t.name).len() <= u64::MAX
    &&& (t.portrait matches Some(p) ==> encode_utf8(p).len() <= u64::MAX)
}

/// Whether a message fits the length prefixes of the wire format.
pub open spec fn message_wf(m: WireMessageView) -> bool {
    match m {
        WireMessageView::Spawn(t) => token_view_wf(t),
        WireMessageView::Snapshot(es) => es.len() <= u64::MAX,
        _ => true,
    }
}

proof fn lemma_parse_u8_at(pre: Seq<u8>, v: u8, post: Seq<u8>)
    ensures
        parse_u8(pre + seq![v] + post, pre.len() as int) == Some((v, pre.len() as int + 1)),
{
    let b = pre + seq![v] + post;
    assert(b[pre.len() as int] == v);
}

proof fn lemma_parse_u64_at(pre: Seq<u8>, x: u64, post: Seq<u8>)
    ensures
        parse_u64(pre + spec_u64_le(x) + post, pre.len() as int) == Some(
            (x, pre.len() as int + 8),
        ),
{
    let b = pre + spec_u64_le(x) + post;
    assert(b.subrange(pre.len() as int, pre.len() as int + 8) =~= spec_u64_le(x));
    lemma_u64_le_round_trip(x);
}

proof fn lemma_parse_u128_at(pre: Seq<u8>, x: u128, post: Seq<u8>)
    ensures
        parse_u128(pre + spec_u128_le(x) + post, pre.len() as int) == Some(
            (x, pre.len() as int + 16),
        ),
{
    let b = pre + spec_u128_le(x) + post;
    assert(b.subrange(pre.len() as int, pre.len() as int + 16) =~= spec_u128_le(x));
    lemma_u128_le_round_trip(x);
}

proof fn lemma_parse_str_at(pre: Seq<u8>, s: Seq<char>, post: Seq<u8>)
    requires
        encode_utf8(s).len() <= u64::MAX,
    ensures
        parse_str(pre + spec_str_block(s) + post, pre.len() as int) == Some(
            (s, pre.len() as int + 8 + encode_utf8(s).len()),
        ),
{
    let u = encode_utf8(s);
    let b = pre + spec_str_block(s) + post;
    assert(b =~= pre + spec_u64_le(u.len() as u64) + (u + post));
    lemma_parse_u64_at(pre, u.len() as u64, u + post);
    let j = pre.len() as int + 8;
    assert(b.subrange(j, j + u.len()) =~= u);
    vstd::utf8::encode_utf8_valid_utf8(s);
    vstd::utf8::encode_utf8_decode_utf8(s);
}

proof fn lemma_parse_color_at(pre: Seq<u8>, c: Color, post: Seq<u8>)
    ensures
        parse_color(pre + spec_color_bytes(c) + post, pre.len() as int) == Some(
            (c, pre.len() as int + 4),
        ),
{
    let b = pre + spec_color_bytes(c) + post;
    let i = pre.len() as int;
    assert(b[i] == c.red && b[i + 1] == c.green && b[i + 2] == c.blue && b[i + 3] == c.alpha);
}

#[verifier::rlimit(100)]
#[verifier::spinoff_prover]
proof fn lemma_parse_token_at(pre: Seq<u8>, t: TokenView, post: Seq<u8>)
    requires
        token_view_wf(t),
    ensures
        parse_token(pre + spec_token_bytes(t) + post, pre.len() as int) == Some(
            (t, pre.len() as int + spec_token_bytes(t).len()),
        ),
{
    let b = pre + spec_token_bytes(t) + post;
    let sb = spec_str_block(t.name);
    let cb = spec_color_bytes(t.color);
    let tail = match t.portrait {
        None => seq![0u8],
        Some(p) => seq![1u8] + spec_str_block(p),
    };
    assert(b =~= pre + spec_u128_le(t.id) + (sb + (cb + (tail + post))));
    lemma_parse_u128_at(pre, t.id, sb + (cb + (tail + post)));
    let p1 = pre + spec_u128_le(t.id);
    assert(b =~= p1 + sb + (cb + (tail + post)));
    lemma_parse_str_at(p1, t.name, cb + (tail + post));
    let p2 = p1 + sb;
    assert(b =~= p2 + cb + (tail + post));
    lemma_parse_color_at(p2, t.color, tail + post);
    let p3 = p2 + cb;
    match t.portrait {
        None => {
            assert(b =~= p3 + seq![0u8] + post);
            lemma_parse_u8_at(p3, 0u8, post);
        },
        Some(p) => {
            assert(b =~= p3 + seq![1u8] + (spec_str_block(p) + post));
            lemma_parse_u8_at(p3, 1u8, spec_str_block(p) + post);
            let p4 = p3 + seq![1u8];
            assert(b =~= p4 + spec_str_block(p) + post);
            lemma_parse_str_at(p4, p, post);
        },
    }
}

#[verifier::rlimit(100)]
#[verifier::spinoff_prover]
proof fn lemma_parse_entry_at(pre: Seq<u8>, e: SnapshotEntry, post: Seq<u8>)
    ensures
        parse_entry(pre + spec_entry_bytes(e) + post, pre.len() as int) == Some(
            (e, pre.len() as int + 40),
        ),
{
    let b = pre + spec_entry_bytes(e) + post;
    let xb = spec_u64_le(e.position.x as u64);
    let yb = spec_u64_le(e.position.y as u64);
    let zb = spec_u64_le(e.position.z as u64);
    assert(b =~= pre + spec_u128_le(e.id) + (xb + (yb + (zb + post))));
    lemma_parse_u128_at(pre, e.id, xb + (yb + (zb + post)));
    let p1 = pre + spec_u128_le(e.id);
    assert(b =~= p1 + xb + (yb + (zb + post)));
    lemma_parse_u64_at(p1, e.position.x as u64, yb + (zb + post));
    let p2 = p1 + xb;
    assert(b =~= p2 + yb + (zb + post));
    lemma_parse_u64_at(p2, e.position.y as u64, zb + post);
    let p3 = p2 + yb;
    assert(b =~= p3 + zb + post);
    lemma_parse_u64_at(p3, e.position.z as u64, post);
    lemma_i64_cast_round_trip(e.position.x);
    lemma_i64_cast_round_trip(e.position.y);
    lemma_i64_cast_round_trip(e.position.z);
}

#[verifier::rlimit(100)]
#[verifier::spinoff_prover]
proof fn lemma_parse_entries_at(pre: Seq<u8>, es: Seq<SnapshotEntry>, post: Seq<u8>)
    ensures
        parse_entries(pre + spec_entries_bytes(es) + post, pre.len() as int, es.len()) == Some(
            (es, pre.len() as int + spec_entries_bytes(es).len()),
        ),
    decreases es.len(),
{
    if es.len() == 0 {
        assert(es =~= Seq::<SnapshotEntry>::empty());
    } else {
        let b = pre + spec_entries_bytes(es) + post;
        let rest = spec_entries_bytes(es.drop_first());
        assert(b =~= pre + spec_entry_bytes(es[0]) + (rest + post));
        lemma_parse_entry_at(pre, es[0], rest + post);
        let p1 = pre + spec_entry_bytes(es[0]);
        assert(b =~= p1 + rest + post);
        lemma_parse_entries_at(p1, es.drop_first(), post);
        assert(seq![es[0]] + es.drop_first() =~= es);
    }
}

#[verifier::rlimit(100)]
proof fn lemma_codec_round_trip_presence(p: ServerMessages)
    ensures
        parse_message(spec_encode(WireMessageView::Presence(p))) == Some(
            WireMessageView::Presence(p),
        ),
{
    let b = spec_encode(WireMessageView::Presence(p));
    match p {
        ServerMessages::PlayerConnected { id } => {
            assert(b =~= seq![1u8] + spec_u64_le(id) + Seq::<u8>::empty());
            assert(b[0] == 1);
            lemma_parse_u64_at(seq![1u8], id, Seq::<u8>::empty());
        },
        ServerMessages::PlayerDisconnected { id } => {
            assert(b =~= seq![2u8] + spec_u64_le(id) + Seq::<u8>::empty());
            assert(b[0] == 2);
            lemma_parse_u64_at(seq![2u8], id, Seq::<u8>::empty());
        },
    }
}

#[verifier::rlimit(100)]
#[verifier::spinoff_prover]
proof fn lemma_codec_round_trip_spawn(t: TokenView)
    requires
        token_view_wf(t),
    ensures
        parse_message(spec_encode(WireMessageView::Spawn(t))) == Some(WireMessageView::Spawn(t)),
{
    let b = spec_encode(WireMessageView::Spawn(t));
    assert(b =~= seq![3u8] + spec_token_bytes(t) + Seq::<u8>::empty());
    assert(b[0] == 3);
    lemma_parse_token_at(seq![3u8], t, Seq::<u8>::empty());
}

#[verifier::rlimit(100)]
proof fn lemma_codec_round_trip_movement(id: u128, inp: PlayerInput)
    ensures
        parse_message(spec_encode(WireMessageView::Movement(id, inp))) == Some(
            WireMessageView::Movement(id, inp),
        ),
{
    let b = spec_encode(WireMessageView::Movement(id, inp));
    assert(b =~= seq![4u8] + spec_u128_le(id) + seq![spec_input_byte(inp)]);
    assert(b[0] == 4);
    lemma_parse_u128_at(seq![4u8], id, seq![spec_input_byte(inp)]);
    assert(b[17] == spec_input_byte(inp));
    lemma_input_byte_round_trip(inp);
}

#[verifier::rlimit(100)]
#[verifier::spinoff_prover]
proof fn lemma_codec_round_trip_snapshot(es: Seq<SnapshotEntry>)
    requires
        es.len() <= u64::MAX,
    ensures
        parse_message(spec_encode(WireMessageView::Snapshot(es))) == Some(
            WireMessageView::Snapshot(es),
        ),
{
    let b = spec_encode(WireMessageView::Snapshot(es));
    let nb = spec_u64_le(es.len() as u64);
    assert(b =~= seq![5u8] + nb + spec_entries_bytes(es));
    assert(b[0] == 5);
    lemma_parse_u64_at(seq![5u8], es.len() as u64, spec_entries_bytes(es));
    assert(b =~= (seq![5u8] + nb) + spec_entries_bytes(es) + Seq::<u8>::empty());
    lemma_parse_entries_at(seq![5u8] + nb, es, Seq::<u8>::empty());
    assert((es.len() as u64) as nat == es.len());
}

/// Round trip of the wire format: decoding the encoding of any message that
/// fits the format's length prefixes yields exactly that message.
pub proof fn lemma_codec_round_trip(m: WireMessageView)
    requires
        message_wf(m),
    ensures
        parse_message(spec_encode(m)) == Some(m),
{
    match m {
        WireMessageView::Presence(p) => lemma_codec_round_trip_presence(p),
        WireMessageView::Spawn(t) => lemma_codec_round_trip_spawn(t),
        WireMessageView::Movement(id, inp) => lemma_codec_round_trip_movement(id, inp),
        WireMessageView::Snapshot(es) => lemma_codec_round_trip_snapshot(es),
    }
}

} // verus!
