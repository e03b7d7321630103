//! Wire codec for control messages.
//!
//! A message is one discriminant byte followed by the active variant's fields
//! in a fixed order.  Byte strings carry a two-byte little-endian length
//! prefix; addresses carry their own one-byte family discriminant.  Decoding
//! is strict: a buffer decodes only if it is exactly one canonical encoding,
//! so encode-decode-encode is byte-identical.

use vstd::prelude::*;

use crate::ClientError;
use crate::ClientErrorView;
use crate::ClientHostMessage;
use crate::MessageView;
use crate::PeerAddr;

verus! {

/// Discriminant of [`ClientHostMessage::HostNewLobby`].
pub const TAG_HOST_NEW_LOBBY: u8 = 0;

/// Discriminant of [`ClientHostMessage::NewLobbyResponse`].
pub const TAG_NEW_LOBBY_RESPONSE: u8 = 1;

/// Discriminant of [`ClientHostMessage::RequestSwap`].
pub const TAG_REQUEST_SWAP: u8 = 2;

/// Discriminant of [`ClientHostMessage::JoinLobbyResponse`].
pub const TAG_JOIN_LOBBY_RESPONSE: u8 = 3;

/// Discriminant of [`ClientHostMessage::AttemptHandshakeCommand`].
pub const TAG_ATTEMPT_HANDSHAKE: u8 = 4;

/// Little-endian bytes of a `u16`.
pub open spec fn enc_u16(x: u16) -> Seq<u8> {
    seq![(x & 0xff) as u8, ((x >> 8) & 0xff) as u8]
}

/// Little-endian bytes of a `u32`.
pub open spec fn enc_u32(x: u32) -> Seq<u8> {
    seq![
        (x & 0xff) as u8,
        ((x >> 8) & 0xff) as u8,
        ((x >> 16) & 0xff) as u8,
        ((x >> 24) & 0xff) as u8,
    ]
}

/// Little-endian bytes of a `u64`.
pub open spec fn enc_u64(x: u64) -> Seq<u8> {
    seq![
        (x & 0xff) as u8,
        ((x >> 8) & 0xff) as u8,
        ((x >> 16) & 0xff) as u8,
        ((x >> 24) & 0xff) as u8,
        ((x >> 32) & 0xff) as u8,
        ((x >> 40) & 0xff) as u8,
        ((x >> 48) & 0xff) as u8,
        ((x >> 56) & 0xff) as u8,
    ]
}

/// A `u16` reassembled from its little-endian bytes.
pub open spec fn dec_u16(a: u8, b: u8) -> u16 {
    (a as u16) | ((b as u16) << 8)
}

/// A `u32` reassembled from its little-endian bytes.
pub open spec fn dec_u32(a: u8, b: u8, c: u8, d: u8) -> u32 {
    (a as u32) | ((b as u32) << 8) | ((c as u32) << 16) | ((d as u32) << 24)
}

/// A `u64` reassembled from its little-endian bytes.
pub open spec fn dec_u64(b0: u8, b1: u8, b2: u8, b3: u8, b4: u8, b5: u8, b6: u8, b7: u8) -> u64 {
    (b0 as u64) | ((b1 as u64) << 8) | ((b2 as u64) << 16) | ((b3 as u64) << 24) | ((b4 as u64)
        << 32) | ((b5 as u64) << 40) | ((b6 as u64) << 48) | ((b7 as u64) << 56)
}

/// Encoding of an address: family byte, packed octets, port.
pub open spec fn enc_addr(a: PeerAddr) -> Seq<u8> {
    match a {
        PeerAddr::V4 { ip, port } => seq![0u8] + enc_u32(ip) + enc_u16(port),
        PeerAddr::V6 { ip_hi, ip_lo, port } => seq![1u8] + enc_u64(ip_hi) + enc_u64(ip_lo)
            + enc_u16(port),
    }
}

/// A message fits on the wire: every byte-string field fits its two-byte
/// length prefix.
pub open spec fn wire_ok(m: MessageView) -> bool {
    match m {
        MessageView::NewLobbyResponse { lobby_id } => lobby_id.len() <= 0xFFFF,
        MessageView::RequestSwap { lobby_id } => lobby_id.len() <= 0xFFFF,
        MessageView::JoinLobbyResponse { err } => match err {
            Some(ClientErrorView::LobbyNotFound { lobby }) => lobby.len() <= 0xFFFF,
            _ => true,
        },
        _ => true,
    }
}

/// The canonical encoding of a message.
pub open spec fn encode_spec(m: MessageView) -> Seq<u8> {
    match m {
        MessageView::HostNewLobby => seq![TAG_HOST_NEW_LOBBY],
        MessageView::NewLobbyResponse { lobby_id } => seq![TAG_NEW_LOBBY_RESPONSE] + enc_u16(
            lobby_id.len() as u16,
        ) + lobby_id,
        MessageView::RequestSwap { lobby_id } => seq![TAG_REQUEST_SWAP] + enc_u16(
            lobby_id.len() as u16,
        ) + lobby_id,
        MessageView::JoinLobbyResponse { err } => match err {
            None => seq![TAG_JOIN_LOBBY_RESPONSE, 0u8],
            Some(ClientErrorView::LobbyNotFound { lobby }) => seq![TAG_JOIN_LOBBY_RESPONSE, 1u8]
                + enc_u16(lobby.len() as u16) + lobby,
            Some(ClientErrorView::InternalServerError) => seq![TAG_JOIN_LOBBY_RESPONSE, 2u8],
        },
        MessageView::AttemptHandshakeCommand { socket } => seq![TAG_ATTEMPT_HANDSHAKE] + enc_addr(
            socket,
        ),
    }
}

/// The strict decoding of a buffer: `Some` exactly on canonical encodings.
pub open spec fn decode_spec(s: Seq<u8>) -> Option<MessageView> {
    if s.len() == 0 {
        None
    } else if s[0] == TAG_HOST_NEW_LOBBY {
        if s.len() == 1 {
            Some(MessageView::HostNewLobby)
        } else {
            None
        }
    } else if s[0] == TAG_NEW_LOBBY_RESPONSE || s[0] == TAG_REQUEST_SWAP {
        if s.len() >= 3 && s.len() == 3 + dec_u16(s[1], s[2]) {
            let body = s.subrange(3, s.len() as int);
            if s[0] == TAG_NEW_LOBBY_RESPONSE {
                Some(MessageView::NewLobbyResponse { lobby_id: body })
            } else {
                Some(MessageView::RequestSwap { lobby_id: body })
            }
        } else {
            None
        }
    } else if s[0] == TAG_JOIN_LOBBY_RESPONSE {
        if s.len() < 2 {
            None
        } else if s[1] == 0 {
            if s.len() == 2 {
                Some(MessageView::JoinLobbyResponse { err: None })
            } else {
                None
            }
        } else if s[1] == 1 {
            if s.len() >= 4 && s.len() == 4 + dec_u16(s[2], s[3]) {
                Some(
                    MessageView::JoinLobbyResponse {
                        err: Some(
                            ClientErrorView::LobbyNotFound {
                                lobby: s.subrange(4, s.len() as int),
                            },
                        ),
                    },
                )
            } else {
                None
            }
        } else if s[1] == 2 {
            if s.len() == 2 {
                Some(
                    MessageView::JoinLobbyResponse {
                        err: Some(ClientErrorView::InternalServerError),
                    },
                )
            } else {
                None
            }
        } else {
            None
        }
    } else if s[0] == TAG_ATTEMPT_HANDSHAKE {
        if s.len() < 2 {
            None
        } else if s[1] == 0 {
            if s.len() == 8 {
                Some(
                    MessageView::AttemptHandshakeCommand {
                        socket: PeerAddr::V4 {
                            ip: dec_u32(s[2], s[3], s[4], s[5]),
                            port: dec_u16(s[6], s[7]),
                        },
                    },
                )
            } else {
                None
            }
        } else if s[1] == 1 {
            if s.len() == 20 {
                Some(
                    MessageView::AttemptHandshakeCommand {
                        socket: PeerAddr::V6 {
                            ip_hi: dec_u64(s[2], s[3], s[4], s[5], s[6], s[7], s[8], s[9]),
                            ip_lo: dec_u64(
                                s[10],
                                s[11],
                                s[12],
                                s[13],
                                s[14],
                                s[15],
                                s[16],
                                s[17],
                            ),
                            port: dec_u16(s[18], s[19]),
                        },
                    },
                )
            } else {
                None
            }
        } else {
            None
        }
    } else {
        None
    }
}

/// Mathematical image of an optional decoded message.
pub open spec fn msg_opt_view(r: Option<ClientHostMessage>) -> Option<MessageView> {
    match r {
        Some(m) => Some(m.view()),
        None => None,
    }
}

proof fn lemma_u16_bytes_bounded(x: u16)
    ensures
        x & 0xff <= 0xff,
        (x >> 8) & 0xff <= 0xff,
{
    assert(x & 0xff <= 0xff && (x >> 8) & 0xff <= 0xff) by (bit_vector);
}

proof fn lemma_u32_bytes_bounded(x: u32)
    ensures
        x & 0xff <= 0xff,
        (x >> 8) & 0xff <= 0xff,
        (x >> 16) & 0xff <= 0xff,
        (x >> 24) & 0xff <= 0xff,
{
    assert(x & 0xff <= 0xff && (x >> 8) & 0xff <= 0xff && (x >> 16) & 0xff <= 0xff && (x >> 24)
        & 0xff <= 0xff) by (bit_vector);
}

proof fn lemma_u64_bytes_bounded(x: u64)
    ensures
        x & 0xff <= 0xff,
        (x >> 8) & 0xff <= 0xff,
        (x >> 16) & 0xff <= 0xff,
        (x >> 24) & 0xff <= 0xff,
        (x >> 32) & 0xff <= 0xff,
        (x >> 40) & 0xff <= 0xff,
        (x >> 48) & 0xff <= 0xff,
        (x >> 56) & 0xff <= 0xff,
{
    assert(x & 0xff <= 0xff && (x >> 8) & 0xff <= 0xff && (x >> 16) & 0xff <= 0xff && (x >> 24)
        & 0xff <= 0xff && (x >> 32) & 0xff <= 0xff && (x >> 40) & 0xff <= 0xff && (x >> 48) & 0xff
        <= 0xff && (x >> 56) & 0xff <= 0xff) by (bit_vector);
}

proof fn lemma_u16_round(x: u16)
    ensures
        dec_u16((x & 0xff) as u8, ((x >> 8) & 0xff) as u8) == x,
{
    assert((((x & 0xff) as u8) as u16) | ((((x >> 8) & 0xff) as u8) as u16) << 8 == x)
        by (bit_vector);
}

proof fn lemma_u16_canonical(a: u8, b: u8)
    ensures
        enc_u16(dec_u16(a, b)) == seq![a, b],
{
    assert((((a as u16) | ((b as u16) << 8)) & 0xff) as u8 == a && ((((a as u16) | ((b as u16)
        << 8)) >> 8) & 0xff) as u8 == b) by (bit_vector);
    assert(enc_u16(dec_u16(a, b)) =~= seq![a, b]);
}

proof fn lemma_u32_round(x: u32)
    ensures
        dec_u32(
            (x & 0xff) as u8,
            ((x >> 8) & 0xff) as u8,
            ((x >> 16) & 0xff) as u8,
            ((x >> 24) & 0xff) as u8,
        ) == x,
{
    assert((((x & 0xff) as u8) as u32) | ((((x >> 8) & 0xff) as u8) as u32) << 8 | ((((x >> 16)
        & 0xff) as u8) as u32) << 16 | ((((x >> 24) & 0xff) as u8) as u32) << 24 == x)
        by (bit_vector);
}

proof fn lemma_u32_canonical(a: u8, b: u8, c: u8, d: u8)
    ensures
        enc_u32(dec_u32(a, b, c, d)) == seq![a, b, c, d],
{
    let x = dec_u32(a, b, c, d);
    assert((((a as u32) | ((b as u32) << 8) | ((c as u32) << 16) | ((d as u32) << 24)) & 0xff) as u8
        == a && ((((a as u32) | ((b as u32) << 8) | ((c as u32) << 16) | ((d as u32) << 24)) >> 8)
        & 0xff) as u8 == b && ((((a as u32) | ((b as u32) << 8) | ((c as u32) << 16) | ((d as u32)
        << 24)) >> 16) & 0xff) as u8 == c && ((((a as u32) | ((b as u32) << 8) | ((c as u32) << 16)
        | ((d as u32) << 24)) >> 24) & 0xff) as u8 == d) by (bit_vector);
    assert(enc_u32(x) =~= seq![a, b, c, d]);
}

proof fn lemma_u64_round(x: u64)
    ensures
        dec_u64(
            (x & 0xff) as u8,
            ((x >> 8) & 0xff) as u8,
            ((x >> 16) & 0xff) as u8,
            ((x >> 24) & 0xff) as u8,
            ((x >> 32) & 0xff) as u8,
            ((x >> 40) & 0xff) as u8,
            ((x >> 48) & 0xff) as u8,
            ((x >> 56) & 0xff) as u8,
        ) == x,
{
    assert((((x & 0xff) as u8) as u64) | ((((x >> 8) & 0xff) as u8) as u64) << 8 | ((((x >> 16)
        & 0xff) as u8) as u64) << 16 | ((((x >> 24) & 0xff) as u8) as u64) << 24 | ((((x >> 32)
        & 0xff) as u8) as u64) << 32 | ((((x >> 40) & 0xff) as u8) as u64) << 40 | ((((x >> 48)
        & 0xff) as u8) as u64) << 48 | ((((x >> 56) & 0xff) as u8) as u64) << 56 == x)
        by (bit_vector);
}

proof fn lemma_u64_canonical(
    b0: u8,
    b1: u8,
    b2: u8,
    b3: u8,
    b4: u8,
    b5: u8,
    b6: u8,
    b7: u8,
)
    ensures
        enc_u64(dec_u64(b0, b1, b2, b3, b4, b5, b6, b7)) == seq![b0, b1, b2, b3, b4, b5, b6, b7],
{
    let x = dec_u64(b0, b1, b2, b3, b4, b5, b6, b7);
    assert({
        let y = (b0 as u64) | ((b1 as u64) << 8) | ((b2 as u64) << 16) | ((b3 as u64) << 24) | ((
        b4 as u64) << 32) | ((b5 as u64) << 40) | ((b6 as u64) << 48) | ((b7 as u64) << 56);
        (y & 0xff) as u8 == b0 && ((y >> 8) & 0xff) as u8 == b1 && ((y >> 16) & 0xff) as u8 == b2
            && ((y >> 24) & 0xff) as u8 == b3 && ((y >> 32) & 0xff) as u8 == b4 && ((y >> 40)
            & 0xff) as u8 == b5 && ((y >> 48) & 0xff) as u8 == b6 && ((y >> 56) & 0xff) as u8 == b7
    }) by (bit_vector);
    assert(enc_u64(x) =~= seq![b0, b1, b2, b3, b4, b5, b6, b7]);
}

/// Decoding a canonical encoding gives back the encoded message: encode then
/// decode is the identity, for every message that fits on the wire.
pub proof fn lemma_codec_round_trip(m: MessageView)
    requires
        wire_ok(m),
    ensures
        decode_spec(encode_spec(m)) == Some(m),
{
    let s = encode_spec(m);
    match m {
        MessageView::HostNewLobby => {},
        MessageView::NewLobbyResponse { lobby_id } => {
            let n = lobby_id.len() as u16;
            lemma_u16_round(n);
            assert(s[1] == enc_u16(n)[0] && s[2] == enc_u16(n)[1]);
            assert(dec_u16(s[1], s[2]) == n);
            assert(s.subrange(3, s.len() as int) =~= lobby_id);
        },
        MessageView::RequestSwap { lobby_id } => {
            let n = lobby_id.len() as u16;
            lemma_u16_round(n);
            assert(s[1] == enc_u16(n)[0] && s[2] == enc_u16(n)[1]);
            assert(dec_u16(s[1], s[2]) == n);
            assert(s.subrange(3, s.len() as int) =~= lobby_id);
        },
        MessageView::JoinLobbyResponse { err } => match err {
            None => {},
            Some(ClientErrorView::LobbyNotFound { lobby }) => {
                let n = lobby.len() as u16;
                lemma_u16_round(n);
                assert(s[2] == enc_u16(n)[0] && s[3] == enc_u16(n)[1]);
                assert(dec_u16(s[2], s[3]) == n);
                assert(s.subrange(4, s.len() as int) =~= lobby);
            },
            Some(ClientErrorView::InternalServerError) => {},
        },
        MessageView::AttemptHandshakeCommand { socket } => match socket {
            PeerAddr::V4 { ip, port } => {
                lemma_u32_round(ip);
                lemma_u16_round(port);
                assert(s.len() == 8);
                assert(s[2] == enc_u32(ip)[0] && s[3] == enc_u32(ip)[1] && s[4] == enc_u32(ip)[2]
                    && s[5] == enc_u32(ip)[3]);
                assert(s[6] == enc_u16(port)[0] && s[7] == enc_u16(port)[1]);
                assert(dec_u32(s[2], s[3], s[4], s[5]) == ip);
                assert(dec_u16(s[6], s[7]) == port);
            },
            PeerAddr::V6 { ip_hi, ip_lo, port } => {
                lemma_u64_round(ip_hi);
                lemma_u64_round(ip_lo);
                lemma_u16_round(port);
                assert(s.len() == 20);
                assert(s[2] == enc_u64(ip_hi)[0] && s[3] == enc_u64(ip_hi)[1] && s[4] == enc_u64(
                    ip_hi,
                )[2] && s[5] == enc_u64(ip_hi)[3] && s[6] == enc_u64(ip_hi)[4] && s[7] == enc_u64(
                    ip_hi,
                )[5] && s[8] == enc_u64(ip_hi)[6] && s[9] == enc_u64(ip_hi)[7]);
                assert(s[10] == enc_u64(ip_lo)[0] && s[11] == enc_u64(ip_lo)[1] && s[12]
                    == enc_u64(ip_lo)[2] && s[13] == enc_u64(ip_lo)[3] && s[14] == enc_u64(
                    ip_lo,
                )[4] && s[15] == enc_u64(ip_lo)[5] && s[16] == enc_u64(ip_lo)[6] && s[17]
                    == enc_u64(ip_lo)[7]);
                assert(s[18] == enc_u16(port)[0] && s[19] == enc_u16(port)[1]);
                assert(dec_u64(s[2], s[3], s[4], s[5], s[6], s[7], s[8], s[9]) == ip_hi);
                assert(dec_u64(s[10], s[11], s[12], s[13], s[14], s[15], s[16], s[17]) == ip_lo);
                assert(dec_u16(s[18], s[19]) == port);
            },
        },
    }
}

/// Decoding is strict: whenever a buffer decodes at all, it is exactly the
/// canonical encoding of the decoded message, so decode then encode gives the
/// buffer back byte for byte.
pub proof fn lemma_codec_canonical(s: Seq<u8>)
    ensures
        decode_spec(s) matches Some(m) ==> wire_ok(m) && encode_spec(m) == s,
{
    if let Some(m) = decode_spec(s) {
        if s[0] == TAG_NEW_LOBBY_RESPONSE || s[0] == TAG_REQUEST_SWAP {
            let n = dec_u16(s[1], s[2]);
            lemma_u16_canonical(s[1], s[2]);
            let body = s.subrange(3, s.len() as int);
            assert(body.len() == n);
            assert((body.len() as u16) == n);
            assert(encode_spec(m) =~= s);
        } else if s[0] == TAG_JOIN_LOBBY_RESPONSE {
            if s[1] == 0 || s[1] == 2 {
                assert(encode_spec(m) =~= s);
            } else {
                let n = dec_u16(s[2], s[3]);
                lemma_u16_canonical(s[2], s[3]);
                let body = s.subrange(4, s.len() as int);
                assert(body.len() == n);
                assert((body.len() as u16) == n);
                assert(encode_spec(m) =~= s);
            }
        } else if s[0] == TAG_ATTEMPT_HANDSHAKE {
            if s[1] == 0 {
                lemma_u32_canonical(s[2], s[3], s[4], s[5]);
                lemma_u16_canonical(s[6], s[7]);
                assert(encode_spec(m) =~= s);
            } else {
                lemma_u64_canonical(s[2], s[3], s[4], s[5], s[6], s[7], s[8], s[9]);
                lemma_u64_canonical(s[10], s[11], s[12], s[13], s[14], s[15], s[16], s[17]);
                lemma_u16_canonical(s[18], s[19]);
                assert(encode_spec(m) =~= s);
            }
        } else {
            assert(encode_spec(m) =~= s);
        }
    }
}

fn push_u16(v: &mut Vec<u8>, x: u16)
    ensures
        final(v)@ == old(v)@ + enc_u16(x),
{
    proof {
        lemma_u16_bytes_bounded(x);
    }
    v.push((x & 0xff) as u8);
    v.push(((x >> 8) & 0xff) as u8);
    assert(v@ =~= old(v)@ + enc_u16(x));
}

fn push_u32(v: &mut Vec<u8>, x: u32)
    ensures
        final(v)@ == old(v)@ + enc_u32(x),
{
    proof {
        lemma_u32_bytes_bounded(x);
    }
    v.push((x & 0xff) as u8);
    v.push(((x >> 8) & 0xff) as u8);
    v.push(((x >> 16) & 0xff) as u8);
    v.push(((x >> 24) & 0xff) as u8);
    assert(v@ =~= old(v)@ + enc_u32(x));
}

fn push_u64(v: &mut Vec<u8>, x: u64)
    ensures
        final(v)@ == old(v)@ + enc_u64(x),
{
    proof {
        lemma_u64_bytes_bounded(x);
    }
    v.push((x & 0xff) as u8);
    v.push(((x >> 8) & 0xff) as u8);
    v.push(((x >> 16) & 0xff) as u8);
    v.push(((x >> 24) & 0xff) as u8);
    v.push(((x >> 32) & 0xff) as u8);
    v.push(((x >> 40) & 0xff) as u8);
    v.push(((x >> 48) & 0xff) as u8);
    v.push(((x >> 56) & 0xff) as u8);
    assert(v@ =~= old(v)@ + enc_u64(x));
}

fn push_bytes(v: &mut Vec<u8>, b: &Vec<u8>)
    requires
        b@.len() <= 0xFFFF,
    ensures
        final(v)@ == old(v)@ + enc_u16(b@.len() as u16) + b@,
{
    push_u16(v, b.len() as u16);
    let ghost prefix: Seq<u8> = v@;
    let mut i: usize = 0;
    while i < b.len()
        invariant
            0 <= i <= b@.len(),
            v@ == prefix + b@.subrange(0, i as int),
        decreases b@.len() - i,
    {
        v.push(b[i]);
        assert(v@ =~= prefix + b@.subrange(0, i + 1 as int));
        i += 1;
    }
    assert(b@.subrange(0, b@.len() as int) =~= b@);
    assert(v@ =~= old(v)@ + enc_u16(b@.len() as u16) + b@);
}

/// Canonical encoding of a control message.
pub fn encode(m: &ClientHostMessage) -> (r: Vec<u8>)
    requires
        wire_ok(m@),
    ensures
        r@ == encode_spec(m@),
{
    let mut out: Vec<u8> = Vec::new();
    match m {
        ClientHostMessage::HostNewLobby => {
            out.push(TAG_HOST_NEW_LOBBY);
            assert(out@ =~= encode_spec(m@));
        },
        ClientHostMessage::NewLobbyResponse { lobby_id } => {
            out.push(TAG_NEW_LOBBY_RESPONSE);
            push_bytes(&mut out, lobby_id);
            assert(out@ =~= encode_spec(m@));
        },
        ClientHostMessage::RequestSwap { lobby_id } => {
            out.push(TAG_REQUEST_SWAP);
            push_bytes(&mut out, lobby_id);
            assert(out@ =~= encode_spec(m@));
        },
        ClientHostMessage::JoinLobbyResponse { err } => {
            out.push(TAG_JOIN_LOBBY_RESPONSE);
            match err {
                None => {
                    out.push(0);
                    assert(out@ =~= encode_spec(m@));
                },
                Some(ClientError::LobbyNotFound { lobby }) => {
                    out.push(1);
                    push_bytes(&mut out, lobby);
                    assert(out@ =~= encode_spec(m@));
                },
                Some(ClientError::InternalServerError) => {
                    out.push(2);
                    assert(out@ =~= encode_spec(m@));
                },
            }
        },
        ClientHostMessage::AttemptHandshakeCommand { socket } => {
            out.push(TAG_ATTEMPT_HANDSHAKE);
            match socket {
                PeerAddr::V4 { ip, port } => {
                    out.push(0);
                    push_u32(&mut out, *ip);
                    push_u16(&mut out, *port);
                    assert(out@ =~= encode_spec(m@));
                },
                PeerAddr::V6 { ip_hi, ip_lo, port } => {
                    out.push(1);
                    push_u64(&mut out, *ip_hi);
                    push_u64(&mut out, *ip_lo);
                    push_u16(&mut out, *port);
                    assert(out@ =~= encode_spec(m@));
                },
            }
        },
    }
    out
}

/// Total encoding entry point: checks the wire bound instead of demanding
/// it, and refuses a message whose byte-string field cannot fit its length
/// prefix.
pub fn encode_checked(m: &ClientHostMessage) -> (r: Option<Vec<u8>>)
    ensures
        (match r {
            Some(v) => wire_ok(m@) && v@ == encode_spec(m@),
            None => !wire_ok(m@),
        }),
{
    let ok = match m {
        ClientHostMessage::NewLobbyResponse { lobby_id } => lobby_id.len() <= 0xFFFF,
        ClientHostMessage::RequestSwap { lobby_id } => lobby_id.len() <= 0xFFFF,
        ClientHostMessage::JoinLobbyResponse { err } => match err {
            Some(ClientError::LobbyNotFound { lobby }) => lobby.len() <= 0xFFFF,
            _ => true,
        },
        _ => true,
    };
    if ok {
        Some(encode(m))
    } else {
        None
    }
}

fn dec_u16_exec(a: u8, b: u8) -> (r: u16)
    ensures
        r == dec_u16(a, b),
{
    (a as u16) | ((b as u16) << 8)
}

fn dec_u32_exec(a: u8, b: u8, c: u8, d: u8) -> (r: u32)
    ensures
        r == dec_u32(a, b, c, d),
{
    (a as u32) | ((b as u32) << 8) | ((c as u32) << 16) | ((d as u32) << 24)
}

fn dec_u64_exec(b0: u8, b1: u8, b2: u8, b3: u8, b4: u8, b5: u8, b6: u8, b7: u8) -> (r: u64)
    ensures
        r == dec_u64(b0, b1, b2, b3, b4, b5, b6, b7),
{
    (b0 as u64) | ((b1 as u64) << 8) | ((b2 as u64) << 16) | ((b3 as u64) << 24) | ((b4 as u64)
        << 32) | ((b5 as u64) << 40) | ((b6 as u64) << 48) | ((b7 as u64) << 56)
}

fn read_tail(buf: &Vec<u8>, start: usize) -> (r: Vec<u8>)
    requires
        start <= buf@.len(),
    ensures
        r@ == buf@.subrange(start as int, buf@.len() as int),
{
    let mut out: Vec<u8> = Vec::new();
    let mut i: usize = start;
    while i < buf.len()
        invariant
            start <= i <= buf@.len(),
            out@ == buf@.subrange(start as int, i as int),
        decreases buf@.len() - i,
    {
        out.push(buf[i]);
        assert(out@ =~= buf@.subrange(start as int, i + 1 as int));
        i += 1;
    }
    out
}

/// Strict decoding of a buffer; `None` on anything but one canonical
/// encoding.
pub fn decode(buf: &Vec<u8>) -> (r: Option<ClientHostMessage>)
    ensures
        msg_opt_view(r) == decode_spec(buf@),
{
    if buf.len() == 0 {
        return None;
    }
    let tag = buf[0];
    if tag == TAG_HOST_NEW_LOBBY {
        if buf.len() == 1 {
            Some(ClientHostMessage::HostNewLobby)
        } else {
            None
        }
    } else if tag == TAG_NEW_LOBBY_RESPONSE || tag == TAG_REQUEST_SWAP {
        if buf.len() < 3 {
            return None;
        }
        let n = dec_u16_exec(buf[1], buf[2]);
        if buf.len() - 3 != n as usize {
            return None;
        }
        let body = read_tail(buf, 3);
        if tag == TAG_NEW_LOBBY_RESPONSE {
            Some(ClientHostMessage::NewLobbyResponse { lobby_id: body })
        } else {
            Some(ClientHostMessage::RequestSwap { lobby_id: body })
        }
    } else if tag == TAG_JOIN_LOBBY_RESPONSE {
        if buf.len() < 2 {
            return None;
        }
        let kind = buf[1];
        if kind == 0 {
            if buf.len() == 2 {
                Some(ClientHostMessage::JoinLobbyResponse { err: None })
            } else {
                None
            }
        } else if kind == 1 {
            if buf.len() < 4 {
                return None;
            }
            let n = dec_u16_exec(buf[2], buf[3]);
            if buf.len() - 4 != n as usize {
                return None;
            }
            let body = read_tail(buf, 4);
            Some(
                ClientHostMessage::JoinLobbyResponse {
                    err: Some(ClientError::LobbyNotFound { lobby: body }),
                },
            )
        } else if kind == 2 {
            if buf.len() == 2 {
                Some(
                    ClientHostMessage::JoinLobbyResponse {
                        err: Some(ClientError::InternalServerError),
                    },
                )
            } else {
                None
            }
        } else {
            None
        }
    } else if tag == TAG_ATTEMPT_HANDSHAKE {
        if buf.len() < 2 {
            return None;
        }
        let family = buf[1];
        if family == 0 {
            if buf.len() != 8 {
                return None;
            }
            let ip = dec_u32_exec(buf[2], buf[3], buf[4], buf[5]);
            let port = dec_u16_exec(buf[6], buf[7]);
            Some(ClientHostMessage::AttemptHandshakeCommand { socket: PeerAddr::V4 { ip, port } })
        } else if family == 1 {
            if buf.len() != 20 {
                return None;
            }
            let ip_hi = dec_u64_exec(
                buf[2],
                buf[3],
                buf[4],
                buf[5],
                buf[6],
                buf[7],
                buf[8],
                buf[9],
            );
            let ip_lo = dec_u64_exec(
                buf[10],
                buf[11],
                buf[12],
                buf[13],
                buf[14],
                buf[15],
                buf[16],
                buf[17],
            );
            let port = dec_u16_exec(buf[18], buf[19]);
            Some(
                ClientHostMessage::AttemptHandshakeCommand {
                    socket: PeerAddr::V6 { ip_hi, ip_lo, port },
                },
            )
        } else {
            None
        }
    } else {
        None
    }
}

} // verus!
