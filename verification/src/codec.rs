//! The message codec: wire schema and encode/decode operations.
//!
//! The wire carries two direction-specific envelope types. A client only
//! ever sends [`ClientToHost`] envelopes and a host only ever sends
//! [`HostToClient`] envelopes, so each receiver decodes with the decoder
//! of the direction it expects; the schema's variant tag picks the
//! variant inside the direction.
//!
//! An encoded envelope is one frame: a 4-byte big-endian length prefix
//! followed by the payload. The payload starts with a one-byte variant
//! tag; integers are big-endian; booleans are one byte, `0` or `1`;
//! optional fields are a one-byte presence flag (`0` or `1`) followed,
//! when present, by the value. Decoding succeeds exactly on the bytes
//! that `encode` produces for some well-formed envelope; any other
//! input is rejected as [`DecodeError::Malformed`].

use vstd::prelude::*;

use crate::wire::{
    be_to_u32, be_to_u64, lemma_u32_be_to, lemma_u64_be_to,
    push_u32_be, push_u64_be, read_u32_be, read_u64_be, u32_be, u64_be,
};

verus! {

/// Variant tag of a client's request to join a game.
pub const TAG_CONNECT_REQUEST: u8 = 1;

/// Variant tag of a move, in either direction.
pub const TAG_MOVE: u8 = 2;

/// Variant tag of the host's answer to a connect request.
pub const TAG_CONNECT_ACK: u8 = 3;

/// Variant tag of the reserved move acknowledgement.
pub const TAG_MOVE_ACK: u8 = 4;

/// Cap on the size of a starting-position snapshot carried in a
/// connect acknowledgement.
pub const MAX_STARTING_POSITION_LEN: usize = 1048576;

/// A piece a pawn may be promoted to.
#[derive(Clone, Copy, Debug, PartialEq, Eq)]
pub enum PieceKind {
    Knight,
    Bishop,
    Rook,
    Queen,
}

/// A proposed or applied move between two board squares.
///
/// A square is a board coordinate in `0..=63`, encoding file plus eight
/// times rank; a move never leaves a piece where it stands.
#[derive(Clone, Copy, Debug, PartialEq, Eq)]
pub struct MoveMessage {
    pub from: u8,
    pub to: u8,
    pub promotion: Option<PieceKind>,
}

impl MoveMessage {
    /// Both squares are on the board and differ.
    pub open spec fn wf(self) -> bool {
        self.from <= 63 && self.to <= 63 && self.from != self.to
    }
}

/// An envelope the client sends to the host.
#[derive(Clone, Copy, Debug, PartialEq, Eq)]
pub enum ClientToHost {
    ConnectRequest { game_id: u64, spectate: bool },
    Move(MoveMessage),
}

impl ClientToHost {
    pub open spec fn wf(self) -> bool {
        match self {
            ClientToHost::ConnectRequest { .. } => true,
            ClientToHost::Move(mm) => mm.wf(),
        }
    }
}

/// An envelope the host sends to the client.
///
/// `MoveAck` is defined by the schema but never produced by either
/// peer; it is carried as a reserved message kind.
#[derive(Clone, Debug, PartialEq, Eq)]
pub enum HostToClient {
    ConnectAck {
        success: bool,
        game_id: Option<u64>,
        starting_position: Option<Vec<u8>>,
        client_is_white: Option<bool>,
    },
    Move(MoveMessage),
    MoveAck,
}

impl HostToClient {
    pub open spec fn wf(self) -> bool {
        match self {
            HostToClient::ConnectAck { starting_position, .. } => match starting_position {
                Option::None => true,
                Option::Some(v) => v@.len() <= MAX_STARTING_POSITION_LEN,
            },
            HostToClient::Move(mm) => mm.wf(),
            HostToClient::MoveAck => true,
        }
    }
}

/// Decoding failed: the bytes are not a complete, schema-valid encoding
/// of one envelope of the expected direction.
#[derive(Clone, Copy, Debug, PartialEq, Eq)]
pub enum DecodeError {
    Malformed,
}

/// The byte a boolean is encoded as.
pub open spec fn bool_byte(b: bool) -> u8 {
    if b {
        1
    } else {
        0
    }
}

/// The byte a promotion choice is encoded as.
pub open spec fn promotion_byte(p: Option<PieceKind>) -> u8 {
    match p {
        Option::None => 0,
        Option::Some(PieceKind::Knight) => 1,
        Option::Some(PieceKind::Bishop) => 2,
        Option::Some(PieceKind::Rook) => 3,
        Option::Some(PieceKind::Queen) => 4,
    }
}

/// The payload of a move envelope, in either direction.
pub open spec fn move_payload(mm: MoveMessage) -> Seq<u8> {
    seq![TAG_MOVE, mm.from, mm.to, promotion_byte(mm.promotion)]
}

/// The bytes of an optional `u64` field: a presence flag, then the value.
pub open spec fn opt_u64_field(o: Option<u64>) -> Seq<u8> {
    match o {
        Option::None => seq![0u8],
        Option::Some(x) => seq![1u8] + u64_be(x),
    }
}

/// The bytes of an optional byte-string field: a presence flag, then a
/// 4-byte big-endian length and the bytes.
pub open spec fn opt_bytes_field(o: Option<Vec<u8>>) -> Seq<u8> {
    match o {
        Option::None => seq![0u8],
        Option::Some(v) => seq![1u8] + u32_be(v@.len() as u32) + v@,
    }
}

/// The bytes of an optional boolean field: a presence flag, then the value.
pub open spec fn opt_bool_field(o: Option<bool>) -> Seq<u8> {
    match o {
        Option::None => seq![0u8],
        Option::Some(b) => seq![1u8, bool_byte(b)],
    }
}

/// The payload of a client-to-host envelope.
pub open spec fn c2h_payload(m: ClientToHost) -> Seq<u8> {
    match m {
        ClientToHost::ConnectRequest { game_id, spectate } => seq![TAG_CONNECT_REQUEST] + u64_be(
            game_id,
        ) + seq![bool_byte(spectate)],
        ClientToHost::Move(mm) => move_payload(mm),
    }
}

/// The payload of a host-to-client envelope.
pub open spec fn h2c_payload(m: HostToClient) -> Seq<u8> {
    match m {
        HostToClient::ConnectAck { success, game_id, starting_position, client_is_white } => seq![
            TAG_CONNECT_ACK,
            bool_byte(success),
        ] + opt_u64_field(game_id) + opt_bytes_field(starting_position) + opt_bool_field(
            client_is_white,
        ),
        HostToClient::Move(mm) => move_payload(mm),
        HostToClient::MoveAck => seq![TAG_MOVE_ACK],
    }
}

/// The complete wire encoding of a client-to-host envelope: length
/// prefix plus payload.
pub open spec fn c2h_encoding(m: ClientToHost) -> Seq<u8> {
    u32_be(c2h_payload(m).len() as u32) + c2h_payload(m)
}

/// The complete wire encoding of a host-to-client envelope: length
/// prefix plus payload.
pub open spec fn h2c_encoding(m: HostToClient) -> Seq<u8> {
    u32_be(h2c_payload(m).len() as u32) + h2c_payload(m)
}

/// A client-to-host payload is 10 bytes (connect request) or 4 (move).
pub proof fn lemma_c2h_payload_len(m: ClientToHost)
    ensures
        m is ConnectRequest ==> c2h_payload(m).len() == 10,
        m is Move ==> c2h_payload(m).len() == 4,
        1 <= c2h_payload(m).len() <= 10,
{
}

/// A well-formed host-to-client payload fits under the length prefix.
pub proof fn lemma_h2c_payload_len(m: HostToClient)
    requires
        m.wf(),
    ensures
        1 <= h2c_payload(m).len() <= 18 + MAX_STARTING_POSITION_LEN,
        m is Move ==> h2c_payload(m).len() == 4,
        m is MoveAck ==> h2c_payload(m).len() == 1,
        m is ConnectAck ==> h2c_payload(m).len() >= 5,
{
}

/// An optional-`u64` field region determines the option.
proof fn lemma_opt_u64_field_inv(o: Option<u64>, b: Seq<u8>, off: int)
    requires
        0 <= off,
        off + opt_u64_field(o).len() <= b.len(),
        b.subrange(off, off + opt_u64_field(o).len() as int) == opt_u64_field(o),
    ensures
        b[off] <= 1,
        o is Some <==> b[off] == 1,
        o is None ==> opt_u64_field(o).len() == 1,
        o matches Option::Some(g) ==> opt_u64_field(o).len() == 9 && g == be_to_u64(
            b.subrange(off + 1, off + 9),
        ),
{
    match o {
        Option::None => {
            assert(b[off] == opt_u64_field(o)[0]);
        },
        Option::Some(g) => {
            assert(b[off] == opt_u64_field(o)[0]);
            assert forall|i: int| 0 <= i < 8 implies b[off + 1 + i] == u64_be(g)[i] by {
                assert(b[off + 1 + i] == b.subrange(off, off + 9)[1 + i]);
                assert(opt_u64_field(o)[1 + i] == u64_be(g)[i]);
            }
            assert(b.subrange(off + 1, off + 9) =~= u64_be(g));
            lemma_u64_be_to(g);
        },
    }
}

/// An optional-byte-string field region determines the option.
proof fn lemma_opt_bytes_field_inv(o: Option<Vec<u8>>, b: Seq<u8>, off: int)
    requires
        0 <= off,
        off + opt_bytes_field(o).len() <= b.len(),
        b.subrange(off, off + opt_bytes_field(o).len() as int) == opt_bytes_field(o),
        o matches Option::Some(v) ==> v@.len() < 0x1_0000_0000,
    ensures
        b[off] <= 1,
        o is Some <==> b[off] == 1,
        o is None ==> opt_bytes_field(o).len() == 1,
        o matches Option::Some(v) ==> opt_bytes_field(o).len() == 5 + v@.len() && be_to_u32(
            b.subrange(off + 1, off + 5),
        ) == v@.len() && v@ == b.subrange(off + 5, off + 5 + v@.len() as int),
{
    match o {
        Option::None => {
            assert(b[off] == opt_bytes_field(o)[0]);
        },
        Option::Some(v) => {
            let fl = opt_bytes_field(o).len() as int;
            assert(b[off] == opt_bytes_field(o)[0]);
            assert forall|i: int| 0 <= i < 4 implies b[off + 1 + i] == #[trigger] u32_be(
                v@.len() as u32,
            )[i] by {
                assert(b[off + 1 + i] == b.subrange(off, off + fl)[1 + i]);
                assert(opt_bytes_field(o)[1 + i] == (seq![1u8] + u32_be(v@.len() as u32))[1 + i]);
                assert(opt_bytes_field(o)[1 + i] == u32_be(v@.len() as u32)[i]);
            }
            assert(b.subrange(off + 1, off + 5) =~= u32_be(v@.len() as u32));
            lemma_u32_be_to(v@.len() as u32);
            assert forall|i: int| 0 <= i < v@.len() implies b[off + 5 + i] == v@[i] by {
                assert(b[off + 5 + i] == b.subrange(off, off + fl)[5 + i]);
                assert(opt_bytes_field(o)[5 + i] == v@[i]);
            }
            assert(b.subrange(off + 5, off + 5 + v@.len() as int) =~= v@);
        },
    }
}

/// An optional-boolean field region determines the option.
proof fn lemma_opt_bool_field_inv(o: Option<bool>, b: Seq<u8>, off: int)
    requires
        0 <= off,
        off + opt_bool_field(o).len() <= b.len(),
        b.subrange(off, off + opt_bool_field(o).len() as int) == opt_bool_field(o),
    ensures
        b[off] <= 1,
        o is Some <==> b[off] == 1,
        o is None ==> opt_bool_field(o).len() == 1,
        o matches Option::Some(w) ==> opt_bool_field(o).len() == 2 && b[off + 1] == bool_byte(w)
            && b[off + 1] <= 1 && w == (b[off + 1] == 1),
{
    match o {
        Option::None => {
            assert(b[off] == opt_bool_field(o)[0]);
        },
        Option::Some(w) => {
            assert(b[off] == opt_bool_field(o)[0]);
            assert(b[off + 1] == opt_bool_field(o)[1]);
        },
    }
}

/// Everything an encoding determines about the envelope it encodes.
///
/// Together with the decoders' contracts this makes the encoding
/// canonical: two well-formed envelopes with the same encoding agree on
/// every field, and a decoder that accepts some bytes has recovered the
/// only envelope that encodes to them.
pub proof fn lemma_c2h_encoding_shape(m: ClientToHost, b: Seq<u8>)
    requires
        m.wf(),
        b == c2h_encoding(m),
    ensures
        b.len() == 4 + c2h_payload(m).len(),
        5 <= b.len() <= 14,
        be_to_u32(b.subrange(0, 4)) == c2h_payload(m).len(),
        b.subrange(4, b.len() as int) == c2h_payload(m),
        m is ConnectRequest <==> b[4] == TAG_CONNECT_REQUEST,
        m is Move <==> b[4] == TAG_MOVE,
        m matches ClientToHost::ConnectRequest { game_id, spectate } ==> b.len() == 14 && game_id
            == be_to_u64(b.subrange(5, 13)) && b[13] == bool_byte(spectate) && b[13] <= 1
            && spectate == (b[13] == 1),
        m matches ClientToHost::Move(mm) ==> b.len() == 8 && b.subrange(4, 8) == move_payload(mm)
            && mm.from == b[5] && mm.to == b[6] && promotion_byte(mm.promotion) == b[7] && b[5]
            <= 63 && b[6] <= 63 && b[5] != b[6] && b[7] <= 4,
{
    let p = c2h_payload(m);
    lemma_c2h_payload_len(m);
    assert(b.subrange(0, 4) =~= u32_be(p.len() as u32));
    lemma_u32_be_to(p.len() as u32);
    assert(b.subrange(4, b.len() as int) =~= p);
    match m {
        ClientToHost::ConnectRequest { game_id, spectate } => {
            assert(p[0] == TAG_CONNECT_REQUEST);
            assert(b.subrange(5, 13) =~= u64_be(game_id));
            lemma_u64_be_to(game_id);
            assert(b[13] == p[9]);
            assert(p[9] == bool_byte(spectate));
        },
        ClientToHost::Move(mm) => {
            assert(b.subrange(4, 8) =~= move_payload(mm));
        },
    }
}

/// Everything an encoding determines about the envelope it encodes.
///
/// The counterpart of [`lemma_c2h_encoding_shape`] for the host's
/// direction; for a connect acknowledgement it fixes, flag by flag, the
/// offset and value of every optional field.
pub proof fn lemma_h2c_encoding_shape(m: HostToClient, b: Seq<u8>)
    requires
        m.wf(),
        b == h2c_encoding(m),
    ensures
        b.len() == 4 + h2c_payload(m).len(),
        b.len() >= 5,
        be_to_u32(b.subrange(0, 4)) == h2c_payload(m).len(),
        b.subrange(4, b.len() as int) == h2c_payload(m),
        m is ConnectAck <==> b[4] == TAG_CONNECT_ACK,
        m is Move <==> b[4] == TAG_MOVE,
        m is MoveAck <==> b[4] == TAG_MOVE_ACK,
        m is MoveAck ==> b.len() == 5,
        m matches HostToClient::Move(mm) ==> b.len() == 8 && b.subrange(4, 8) == move_payload(mm)
            && mm.from == b[5] && mm.to == b[6] && promotion_byte(mm.promotion) == b[7] && b[5]
            <= 63 && b[6] <= 63 && b[5] != b[6] && b[7] <= 4,
        m matches HostToClient::ConnectAck {
            success,
            game_id,
            starting_position,
            client_is_white,
        } ==> ({
            let po = 6 + opt_u64_field(game_id).len() as int;
            let co = po + opt_bytes_field(starting_position).len() as int;
            &&& b.len() == co + opt_bool_field(client_is_white).len()
            &&& b.len() >= 9
            &&& b[5] == bool_byte(success) && b[5] <= 1 && success == (b[5] == 1)
            &&& b[6] <= 1 && (game_id is Some <==> b[6] == 1)
            &&& (game_id is None ==> po == 7)
            &&& (game_id matches Option::Some(g) ==> po == 15 && g == be_to_u64(
                b.subrange(7, 15),
            ))
            &&& po < b.len()
            &&& b[po] <= 1 && (starting_position is Some <==> b[po] == 1)
            &&& (starting_position is None ==> co == po + 1)
            &&& (starting_position matches Option::Some(v) ==> co == po + 5 + v@.len()
                && v@.len() <= MAX_STARTING_POSITION_LEN && be_to_u32(b.subrange(po + 1, po + 5))
                == v@.len() && v@ == b.subrange(po + 5, co))
            &&& co < b.len()
            &&& b[co] <= 1 && (client_is_white is Some <==> b[co] == 1)
            &&& (client_is_white is None ==> b.len() == co + 1)
            &&& (client_is_white matches Option::Some(w) ==> b.len() == co + 2 && b[co + 1]
                == bool_byte(w) && b[co + 1] <= 1 && w == (b[co + 1] == 1))
        }),
{
    let p = h2c_payload(m);
    lemma_h2c_payload_len(m);
    assert(b.subrange(0, 4) =~= u32_be(p.len() as u32));
    lemma_u32_be_to(p.len() as u32);
    assert(b.subrange(4, b.len() as int) =~= p);
    match m {
        HostToClient::ConnectAck { success, game_id, starting_position, client_is_white } => {
            let gf = opt_u64_field(game_id);
            let sf = opt_bytes_field(starting_position);
            let cf = opt_bool_field(client_is_white);
            let po = 6 + gf.len() as int;
            let co = po + sf.len() as int;
            assert(p == seq![TAG_CONNECT_ACK, bool_byte(success)] + gf + sf + cf);
            assert(p[0] == TAG_CONNECT_ACK);
            assert(p[1] == bool_byte(success));
            assert(b[5] == p[1]);
            assert(b.subrange(6, po) =~= gf);
            lemma_opt_u64_field_inv(game_id, b, 6);
            assert(b.subrange(po, co) =~= sf);
            lemma_opt_bytes_field_inv(starting_position, b, po);
            assert(b.subrange(co, b.len() as int) =~= cf);
            lemma_opt_bool_field_inv(client_is_white, b, co);
        },
        HostToClient::Move(mm) => {
            assert(b.subrange(4, 8) =~= move_payload(mm));
        },
        HostToClient::MoveAck => {
            assert(p[0] == TAG_MOVE_ACK);
        },
    }
}

/// Encode a boolean as its wire byte.
fn encode_bool(b: bool) -> (r: u8)
    ensures
        r == bool_byte(b),
{
    if b {
        1
    } else {
        0
    }
}

/// Encode a promotion choice as its wire byte.
fn encode_promotion(p: &Option<PieceKind>) -> (r: u8)
    ensures
        r == promotion_byte(*p),
{
    match p {
        Option::None => 0,
        Option::Some(PieceKind::Knight) => 1,
        Option::Some(PieceKind::Bishop) => 2,
        Option::Some(PieceKind::Rook) => 3,
        Option::Some(PieceKind::Queen) => 4,
    }
}

/// Prefix a payload with its length to form the complete encoding.
fn finish_frame(payload: Vec<u8>) -> (r: Vec<u8>)
    requires
        payload@.len() < 0x1_0000_0000,
    ensures
        r@ == u32_be(payload@.len() as u32) + payload@,
{
    let ghost p0 = payload@;
    let mut r: Vec<u8> = Vec::new();
    let plen: u32 = payload.len() as u32;
    push_u32_be(&mut r, plen);
    let mut p = payload;
    r.append(&mut p);
    proof {
        assert(r@ =~= u32_be(plen) + p0);
    }
    r
}

/// A promotion byte names exactly one promotion choice.
proof fn lemma_promotion_byte_injective(p1: Option<PieceKind>, p2: Option<PieceKind>)
    requires
        promotion_byte(p1) == promotion_byte(p2),
    ensures
        p1 == p2,
{
}

/// Law: the client-to-host encoding is injective. Two well-formed
/// envelopes with the same encoding are the same envelope.
///
/// With the decoder's contract this yields the round trip: `decode` of
/// `encode` of a well-formed envelope cannot fail (its failure clause
/// would deny the envelope its own encoding) and returns an envelope
/// with the same encoding, hence the envelope itself — in particular a
/// move envelope comes back with the same squares and promotion.
pub proof fn lemma_c2h_encoding_injective(m1: ClientToHost, m2: ClientToHost)
    requires
        m1.wf(),
        m2.wf(),
        c2h_encoding(m1) == c2h_encoding(m2),
    ensures
        m1 == m2,
{
    let b = c2h_encoding(m1);
    lemma_c2h_encoding_shape(m1, b);
    lemma_c2h_encoding_shape(m2, b);
    match (m1, m2) {
        (ClientToHost::Move(a), ClientToHost::Move(c)) => {
            lemma_promotion_byte_injective(a.promotion, c.promotion);
        },
        _ => {},
    }
}

/// Whether two host-to-client envelopes carry the same content; two
/// starting positions agree when they hold the same bytes.
pub open spec fn h2c_equiv(m1: HostToClient, m2: HostToClient) -> bool {
    match (m1, m2) {
        (
            HostToClient::ConnectAck {
                success: s1,
                game_id: g1,
                starting_position: p1,
                client_is_white: w1,
            },
            HostToClient::ConnectAck {
                success: s2,
                game_id: g2,
                starting_position: p2,
                client_is_white: w2,
            },
        ) => s1 == s2 && g1 == g2 && w1 == w2 && (match (p1, p2) {
            (Option::None, Option::None) => true,
            (Option::Some(v1), Option::Some(v2)) => v1@ == v2@,
            _ => false,
        }),
        (HostToClient::Move(a), HostToClient::Move(c)) => a == c,
        (HostToClient::MoveAck, HostToClient::MoveAck) => true,
        _ => false,
    }
}

/// Law: the host-to-client encoding is injective up to the content of
/// the envelope. Two well-formed envelopes with the same encoding agree
/// on every field, byte for byte.
///
/// With the decoder's contract this yields the round trip, as for
/// [`lemma_c2h_encoding_injective`].
pub proof fn lemma_h2c_encoding_injective(m1: HostToClient, m2: HostToClient)
    requires
        m1.wf(),
        m2.wf(),
        h2c_encoding(m1) == h2c_encoding(m2),
    ensures
        h2c_equiv(m1, m2),
{
    let b = h2c_encoding(m1);
    lemma_h2c_encoding_shape(m1, b);
    lemma_h2c_encoding_shape(m2, b);
    match (m1, m2) {
        (HostToClient::Move(a), HostToClient::Move(c)) => {
            lemma_promotion_byte_injective(a.promotion, c.promotion);
        },
        _ => {},
    }
}

/// Law: an encoded client-to-host envelope put at the head of a stream
/// is cut back out whole by the framing layer, leaving the rest.
pub proof fn lemma_c2h_frame_extract(m: ClientToHost, rest: Seq<u8>)
    requires
        m.wf(),
    ensures
        crate::wire::frame_ready(c2h_encoding(m) + rest),
        crate::wire::first_frame(c2h_encoding(m) + rest) == c2h_encoding(m),
        crate::wire::after_frame(c2h_encoding(m) + rest) == rest,
{
    let e = c2h_encoding(m);
    lemma_c2h_encoding_shape(m, e);
    crate::wire::lemma_first_frame(e, rest);
}

/// Law: an encoded host-to-client envelope put at the head of a stream
/// is cut back out whole by the framing layer, leaving the rest.
pub proof fn lemma_h2c_frame_extract(m: HostToClient, rest: Seq<u8>)
    requires
        m.wf(),
    ensures
        crate::wire::frame_ready(h2c_encoding(m) + rest),
        crate::wire::first_frame(h2c_encoding(m) + rest) == h2c_encoding(m),
        crate::wire::after_frame(h2c_encoding(m) + rest) == rest,
{
    let e = h2c_encoding(m);
    lemma_h2c_encoding_shape(m, e);
    crate::wire::lemma_first_frame(e, rest);
}

/// Decode a promotion byte already checked to be in range.
fn decode_promotion(pb: u8) -> (r: Option<PieceKind>)
    requires
        pb <= 4,
    ensures
        promotion_byte(r) == pb,
{
    if pb == 0 {
        Option::None
    } else if pb == 1 {
        Option::Some(PieceKind::Knight)
    } else if pb == 2 {
        Option::Some(PieceKind::Bishop)
    } else if pb == 3 {
        Option::Some(PieceKind::Rook)
    } else {
        Option::Some(PieceKind::Queen)
    }
}

impl ClientToHost {
    /// Decode one complete frame of the client-to-host direction.
    ///
    /// Succeeds exactly on the encodings of well-formed envelopes: on
    /// `Ok(m)` the input is `encode` of `m`, and on `Err` no well-formed
    /// envelope encodes to the input.
    pub fn decode(bytes: &[u8]) -> (r: Result<ClientToHost, DecodeError>)
        ensures
            match r {
                Result::Ok(m) => m.wf() && bytes@ == c2h_encoding(m),
                Result::Err(e) => e == DecodeError::Malformed && (forall|m: ClientToHost|
                    m.wf() ==> bytes@ != c2h_encoding(m)),
            },
    {
        let blen: usize = bytes.len();
        if blen < 5 {
            proof {
                assert forall|m: ClientToHost| m.wf() implies bytes@ != c2h_encoding(m) by {
                    if bytes@ == c2h_encoding(m) {
                        lemma_c2h_encoding_shape(m, bytes@);
                    }
                }
            }
            return Result::Err(DecodeError::Malformed);
        }
        let plen: u32 = read_u32_be(bytes, 0);
        if plen as usize != blen - 4 {
            proof {
                assert forall|m: ClientToHost| m.wf() implies bytes@ != c2h_encoding(m) by {
                    if bytes@ == c2h_encoding(m) {
                        lemma_c2h_encoding_shape(m, bytes@);
                    }
                }
            }
            return Result::Err(DecodeError::Malformed);
        }
        let tag: u8 = bytes[4];
        if tag == TAG_CONNECT_REQUEST {
            if blen != 14 {
                proof {
                    assert forall|m: ClientToHost| m.wf() implies bytes@ != c2h_encoding(m) by {
                        if bytes@ == c2h_encoding(m) {
                            lemma_c2h_encoding_shape(m, bytes@);
                        }
                    }
                }
                return Result::Err(DecodeError::Malformed);
            }
            let g: u64 = read_u64_be(bytes, 5);
            let sb: u8 = bytes[13];
            if sb > 1 {
                proof {
                    assert forall|m: ClientToHost| m.wf() implies bytes@ != c2h_encoding(m) by {
                        if bytes@ == c2h_encoding(m) {
                            lemma_c2h_encoding_shape(m, bytes@);
                        }
                    }
                }
                return Result::Err(DecodeError::Malformed);
            }
            let m = ClientToHost::ConnectRequest { game_id: g, spectate: sb == 1 };
            proof {
                assert(bool_byte(sb == 1) == sb);
                assert(c2h_payload(m) =~= bytes@.subrange(4, blen as int));
                assert(c2h_payload(m).len() == 10);
                assert(u32_be(plen) == u32_be(c2h_payload(m).len() as u32));
                assert(c2h_encoding(m) =~= bytes@);
            }
            return Result::Ok(m);
        }
        if tag == TAG_MOVE {
            if blen != 8 {
                proof {
                    assert forall|m: ClientToHost| m.wf() implies bytes@ != c2h_encoding(m) by {
                        if bytes@ == c2h_encoding(m) {
                            lemma_c2h_encoding_shape(m, bytes@);
                        }
                    }
                }
                return Result::Err(DecodeError::Malformed);
            }
            let from: u8 = bytes[5];
            let to: u8 = bytes[6];
            let pb: u8 = bytes[7];
            if from > 63 || to > 63 || from == to || pb > 4 {
                proof {
                    assert forall|m: ClientToHost| m.wf() implies bytes@ != c2h_encoding(m) by {
                        if bytes@ == c2h_encoding(m) {
                            lemma_c2h_encoding_shape(m, bytes@);
                        }
                    }
                }
                return Result::Err(DecodeError::Malformed);
            }
            let m = ClientToHost::Move(MoveMessage { from, to, promotion: decode_promotion(pb) });
            proof {
                assert(c2h_payload(m) =~= bytes@.subrange(4, blen as int));
                assert(c2h_payload(m).len() == 4);
                assert(u32_be(plen) == u32_be(c2h_payload(m).len() as u32));
                assert(c2h_encoding(m) =~= bytes@);
            }
            return Result::Ok(m);
        }
        proof {
            assert forall|m: ClientToHost| m.wf() implies bytes@ != c2h_encoding(m) by {
                if bytes@ == c2h_encoding(m) {
                    lemma_c2h_encoding_shape(m, bytes@);
                }
            }
        }
        Result::Err(DecodeError::Malformed)
    }

    /// Encode this envelope as one complete frame.
    pub fn encode(&self) -> (r: Vec<u8>)
        requires
            self.wf(),
        ensures
            r@ == c2h_encoding(*self),
    {
        let mut payload: Vec<u8> = Vec::new();
        match self {
            ClientToHost::ConnectRequest { game_id, spectate } => {
                payload.push(TAG_CONNECT_REQUEST);
                push_u64_be(&mut payload, *game_id);
                payload.push(encode_bool(*spectate));
                proof {
                    assert(payload@ =~= c2h_payload(*self));
                }
            },
            ClientToHost::Move(mm) => {
                payload.push(TAG_MOVE);
                payload.push(mm.from);
                payload.push(mm.to);
                payload.push(encode_promotion(&mm.promotion));
                proof {
                    assert(payload@ =~= c2h_payload(*self));
                }
            },
        }
        proof {
            lemma_c2h_payload_len(*self);
        }
        finish_frame(payload)
    }
}

impl HostToClient {
    /// Decode one complete frame of the host-to-client direction.
    ///
    /// Succeeds exactly on the encodings of well-formed envelopes: on
    /// `Ok(m)` the input is `encode` of `m`, and on `Err` no well-formed
    /// envelope encodes to the input.
    #[verifier::rlimit(50)]
    pub fn decode(bytes: &[u8]) -> (r: Result<HostToClient, DecodeError>)
        ensures
            match r {
                Result::Ok(m) => m.wf() && bytes@ == h2c_encoding(m),
                Result::Err(e) => e == DecodeError::Malformed && (forall|m: HostToClient|
                    m.wf() ==> bytes@ != h2c_encoding(m)),
            },
    {
        let blen: usize = bytes.len();
        if blen < 5 {
            proof {
                assert forall|m: HostToClient| m.wf() implies bytes@ != h2c_encoding(m) by {
                    if bytes@ == h2c_encoding(m) {
                        lemma_h2c_encoding_shape(m, bytes@);
                    }
                }
            }
            return Result::Err(DecodeError::Malformed);
        }
        let plen: u32 = read_u32_be(bytes, 0);
        if plen as usize != blen - 4 {
            proof {
                assert forall|m: HostToClient| m.wf() implies bytes@ != h2c_encoding(m) by {
                    if bytes@ == h2c_encoding(m) {
                        lemma_h2c_encoding_shape(m, bytes@);
                    }
                }
            }
            return Result::Err(DecodeError::Malformed);
        }
        let tag: u8 = bytes[4];
        if tag == TAG_MOVE {
            if blen != 8 {
                proof {
                    assert forall|m: HostToClient| m.wf() implies bytes@ != h2c_encoding(m) by {
                        if bytes@ == h2c_encoding(m) {
                            lemma_h2c_encoding_shape(m, bytes@);
                        }
                    }
                }
                return Result::Err(DecodeError::Malformed);
            }
            let from: u8 = bytes[5];
            let to: u8 = bytes[6];
            let pb: u8 = bytes[7];
            if from > 63 || to > 63 || from == to || pb > 4 {
                proof {
                    assert forall|m: HostToClient| m.wf() implies bytes@ != h2c_encoding(m) by {
                        if bytes@ == h2c_encoding(m) {
                            lemma_h2c_encoding_shape(m, bytes@);
                        }
                    }
                }
                return Result::Err(DecodeError::Malformed);
            }
            let m = HostToClient::Move(MoveMessage { from, to, promotion: decode_promotion(pb) });
            proof {
                assert(h2c_payload(m) =~= bytes@.subrange(4, blen as int));
                assert(h2c_payload(m).len() == 4);
                assert(u32_be(plen) == u32_be(h2c_payload(m).len() as u32));
                assert(h2c_encoding(m) =~= bytes@);
            }
            return Result::Ok(m);
        }
        if tag == TAG_MOVE_ACK {
            if blen != 5 {
                proof {
                    assert forall|m: HostToClient| m.wf() implies bytes@ != h2c_encoding(m) by {
                        if bytes@ == h2c_encoding(m) {
                            lemma_h2c_encoding_shape(m, bytes@);
                        }
                    }
                }
                return Result::Err(DecodeError::Malformed);
            }
            let m = HostToClient::MoveAck;
            proof {
                assert(h2c_payload(m) =~= bytes@.subrange(4, blen as int));
                assert(h2c_payload(m).len() == 1);
                assert(u32_be(plen) == u32_be(h2c_payload(m).len() as u32));
                assert(h2c_encoding(m) =~= bytes@);
            }
            return Result::Ok(m);
        }
        if tag != TAG_CONNECT_ACK {
            proof {
                assert forall|m: HostToClient| m.wf() implies bytes@ != h2c_encoding(m) by {
                    if bytes@ == h2c_encoding(m) {
                        lemma_h2c_encoding_shape(m, bytes@);
                    }
                }
            }
            return Result::Err(DecodeError::Malformed);
        }
        Self::decode_ack(bytes, plen)
    }

    /// Decode the connect-acknowledgement payload: the success byte,
    /// then the three optional fields in order.
    #[verifier::rlimit(100)]
    fn decode_ack(bytes: &[u8], plen: u32) -> (r: Result<HostToClient, DecodeError>)
        requires
            bytes@.len() >= 5,
            plen as int == bytes@.len() - 4,
            u32_be(plen) == bytes@.subrange(0, 4),
            bytes@[4] == TAG_CONNECT_ACK,
        ensures
            match r {
                Result::Ok(m) => m.wf() && bytes@ == h2c_encoding(m),
                Result::Err(e) => e == DecodeError::Malformed && (forall|m: HostToClient|
                    m.wf() ==> bytes@ != h2c_encoding(m)),
            },
    {
        let blen: usize = bytes.len();
        if blen < 9 {
            proof {
                assert forall|m: HostToClient| m.wf() implies bytes@ != h2c_encoding(m) by {
                    if bytes@ == h2c_encoding(m) {
                        lemma_h2c_encoding_shape(m, bytes@);
                    }
                }
            }
            return Result::Err(DecodeError::Malformed);
        }
        let sb: u8 = bytes[5];
        let gflag: u8 = bytes[6];
        if sb > 1 || gflag > 1 {
            proof {
                assert forall|m: HostToClient| m.wf() implies bytes@ != h2c_encoding(m) by {
                    if bytes@ == h2c_encoding(m) {
                        lemma_h2c_encoding_shape(m, bytes@);
                    }
                }
            }
            return Result::Err(DecodeError::Malformed);
        }
        let mut game_id: Option<u64> = Option::None;
        let mut pos_off: usize = 7;
        if gflag == 1 {
            if blen < 16 {
                proof {
                    assert forall|m: HostToClient| m.wf() implies bytes@ != h2c_encoding(m) by {
                        if bytes@ == h2c_encoding(m) {
                            lemma_h2c_encoding_shape(m, bytes@);
                        }
                    }
                }
                return Result::Err(DecodeError::Malformed);
            }
            game_id = Option::Some(read_u64_be(bytes, 7));
            pos_off = 15;
            proof {
                assert(bytes@.subrange(6, pos_off as int) =~= opt_u64_field(game_id));
            }
        } else {
            proof {
                assert(bytes@.subrange(6, pos_off as int) =~= opt_u64_field(game_id));
            }
        }
        let pflag: u8 = bytes[pos_off];
        if pflag > 1 {
            proof {
                assert forall|m: HostToClient| m.wf() implies bytes@ != h2c_encoding(m) by {
                    if bytes@ == h2c_encoding(m) {
                        lemma_h2c_encoding_shape(m, bytes@);
                    }
                }
            }
            return Result::Err(DecodeError::Malformed);
        }
        let mut starting_position: Option<Vec<u8>> = Option::None;
        let mut ciw_off: usize = pos_off + 1;
        if pflag == 1 {
            if blen - pos_off < 5 {
                proof {
                    assert forall|m: HostToClient| m.wf() implies bytes@ != h2c_encoding(m) by {
                        if bytes@ == h2c_encoding(m) {
                            lemma_h2c_encoding_shape(m, bytes@);
                        }
                    }
                }
                return Result::Err(DecodeError::Malformed);
            }
            let sl32: u32 = read_u32_be(bytes, pos_off + 1);
            let sl: usize = sl32 as usize;
            if sl > MAX_STARTING_POSITION_LEN || blen - pos_off - 5 < sl {
                proof {
                    assert forall|m: HostToClient| m.wf() implies bytes@ != h2c_encoding(m) by {
                        if bytes@ == h2c_encoding(m) {
                            lemma_h2c_encoding_shape(m, bytes@);
                        }
                    }
                }
                return Result::Err(DecodeError::Malformed);
            }
            let mut v: Vec<u8> = Vec::new();
            v.extend_from_slice(&bytes[pos_off + 5..pos_off + 5 + sl]);
            proof {
                assert(v@ =~= bytes@.subrange(pos_off + 5, pos_off + 5 + sl));
            }
            starting_position = Option::Some(v);
            ciw_off = pos_off + 5 + sl;
            proof {
                assert(bytes@.subrange(pos_off as int, ciw_off as int) =~= opt_bytes_field(
                    starting_position,
                ));
            }
        } else {
            proof {
                assert(bytes@.subrange(pos_off as int, ciw_off as int) =~= opt_bytes_field(
                    starting_position,
                ));
            }
        }
        if ciw_off >= blen {
            proof {
                assert forall|m: HostToClient| m.wf() implies bytes@ != h2c_encoding(m) by {
                    if bytes@ == h2c_encoding(m) {
                        lemma_h2c_encoding_shape(m, bytes@);
                    }
                }
            }
            return Result::Err(DecodeError::Malformed);
        }
        let cflag: u8 = bytes[ciw_off];
        if cflag > 1 {
            proof {
                assert forall|m: HostToClient| m.wf() implies bytes@ != h2c_encoding(m) by {
                    if bytes@ == h2c_encoding(m) {
                        lemma_h2c_encoding_shape(m, bytes@);
                    }
                }
            }
            return Result::Err(DecodeError::Malformed);
        }
        let mut client_is_white: Option<bool> = Option::None;
        let mut end_off: usize = ciw_off + 1;
        if cflag == 1 {
            if blen - ciw_off < 2 {
                proof {
                    assert forall|m: HostToClient| m.wf() implies bytes@ != h2c_encoding(m) by {
                        if bytes@ == h2c_encoding(m) {
                            lemma_h2c_encoding_shape(m, bytes@);
                        }
                    }
                }
                return Result::Err(DecodeError::Malformed);
            }
            let wb: u8 = bytes[ciw_off + 1];
            if wb > 1 {
                proof {
                    assert forall|m: HostToClient| m.wf() implies bytes@ != h2c_encoding(m) by {
                        if bytes@ == h2c_encoding(m) {
                            lemma_h2c_encoding_shape(m, bytes@);
                        }
                    }
                }
                return Result::Err(DecodeError::Malformed);
            }
            client_is_white = Option::Some(wb == 1);
            end_off = ciw_off + 2;
            proof {
                assert(bool_byte(wb == 1) == wb);
                assert(bytes@.subrange(ciw_off as int, end_off as int) =~= opt_bool_field(
                    client_is_white,
                ));
            }
        } else {
            proof {
                assert(bytes@.subrange(ciw_off as int, end_off as int) =~= opt_bool_field(
                    client_is_white,
                ));
            }
        }
        if end_off != blen {
            proof {
                assert forall|m: HostToClient| m.wf() implies bytes@ != h2c_encoding(m) by {
                    if bytes@ == h2c_encoding(m) {
                        lemma_h2c_encoding_shape(m, bytes@);
                    }
                }
            }
            return Result::Err(DecodeError::Malformed);
        }
        let m = HostToClient::ConnectAck {
            success: sb == 1,
            game_id,
            starting_position,
            client_is_white,
        };
        proof {
            let gf = opt_u64_field(game_id);
            let sf = opt_bytes_field(starting_position);
            let cf = opt_bool_field(client_is_white);
            assert(bool_byte(sb == 1) == sb);
            assert(h2c_payload(m) == seq![TAG_CONNECT_ACK, bool_byte(sb == 1)] + gf + sf + cf);
            assert(bytes@.subrange(4, 6) =~= seq![TAG_CONNECT_ACK, sb]);
            assert(h2c_payload(m) =~= bytes@.subrange(4, blen as int));
            assert(u32_be(plen) == u32_be(h2c_payload(m).len() as u32));
            assert(h2c_encoding(m) =~= bytes@);
        }
        Result::Ok(m)
    }

    /// Encode this envelope as one complete frame.
    pub fn encode(&self) -> (r: Vec<u8>)
        requires
            self.wf(),
        ensures
            r@ == h2c_encoding(*self),
    {
        let mut payload: Vec<u8> = Vec::new();
        match self {
            HostToClient::ConnectAck { success, game_id, starting_position, client_is_white } => {
                payload.push(TAG_CONNECT_ACK);
                payload.push(encode_bool(*success));
                match game_id {
                    Option::None => payload.push(0),
                    Option::Some(g) => {
                        payload.push(1);
                        push_u64_be(&mut payload, *g);
                    },
                }
                match starting_position {
                    Option::None => payload.push(0),
                    Option::Some(v) => {
                        payload.push(1);
                        push_u32_be(&mut payload, v.len() as u32);
                        payload.extend_from_slice(v.as_slice());
                    },
                }
                match client_is_white {
                    Option::None => payload.push(0),
                    Option::Some(w) => {
                        payload.push(1);
                        payload.push(encode_bool(*w));
                    },
                }
                proof {
                    assert(payload@ =~= h2c_payload(*self));
                }
            },
            HostToClient::Move(mm) => {
                payload.push(TAG_MOVE);
                payload.push(mm.from);
                payload.push(mm.to);
                payload.push(encode_promotion(&mm.promotion));
                proof {
                    assert(payload@ =~= h2c_payload(*self));
                }
            },
            HostToClient::MoveAck => {
                payload.push(TAG_MOVE_ACK);
                proof {
                    assert(payload@ =~= h2c_payload(*self));
                }
            },
        }
        proof {
            lemma_h2c_payload_len(*self);
        }
        finish_frame(payload)
    }
}

} // verus!
