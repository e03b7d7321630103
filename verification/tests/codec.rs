use punchthrough::codec::decode;
use punchthrough::codec::encode;
use punchthrough::codec::encode_checked;
use punchthrough::ClientError;
use punchthrough::ClientHostMessage;
use punchthrough::PeerAddr;

fn round_trips(m: ClientHostMessage) {
    let bytes = encode(&m);
    let back = decode(&bytes).expect("canonical encoding must decode");
    assert_eq!(back, m);
    let again = encode(&back);
    assert_eq!(again, bytes);
}

#[test]
fn round_trip_host_new_lobby() {
    round_trips(ClientHostMessage::HostNewLobby);
}

#[test]
fn round_trip_new_lobby_response() {
    round_trips(ClientHostMessage::NewLobbyResponse {
        lobby_id: b"K7QRM".to_vec(),
    });
}

#[test]
fn round_trip_request_swap() {
    round_trips(ClientHostMessage::RequestSwap {
        lobby_id: b"ab3de".to_vec(),
    });
}

#[test]
fn round_trip_request_swap_empty_id() {
    round_trips(ClientHostMessage::RequestSwap { lobby_id: Vec::new() });
}

#[test]
fn round_trip_join_response_ok() {
    round_trips(ClientHostMessage::JoinLobbyResponse { err: None });
}

#[test]
fn round_trip_join_response_not_found() {
    round_trips(ClientHostMessage::JoinLobbyResponse {
        err: Some(ClientError::LobbyNotFound {
            lobby: b"ZZZZZ".to_vec(),
        }),
    });
}

#[test]
fn round_trip_join_response_internal_error() {
    round_trips(ClientHostMessage::JoinLobbyResponse {
        err: Some(ClientError::InternalServerError),
    });
}

#[test]
fn round_trip_handshake_v4() {
    round_trips(ClientHostMessage::AttemptHandshakeCommand {
        socket: PeerAddr::V4 {
            ip: 0x7F00_0001,
            port: 5000,
        },
    });
}

#[test]
fn round_trip_handshake_v6() {
    round_trips(ClientHostMessage::AttemptHandshakeCommand {
        socket: PeerAddr::V6 {
            ip_hi: 0xFE80_0000_0000_0001,
            ip_lo: 0x0123_4567_89AB_CDEF,
            port: 65535,
        },
    });
}

#[test]
fn encode_host_new_lobby_is_one_tag_byte() {
    let bytes = encode(&ClientHostMessage::HostNewLobby);
    assert_eq!(bytes, vec![0u8]);
}

#[test]
fn encode_new_lobby_response_exact_bytes() {
    let bytes = encode(&ClientHostMessage::NewLobbyResponse {
        lobby_id: b"K7QRM".to_vec(),
    });
    assert_eq!(bytes, vec![1u8, 5, 0, b'K', b'7', b'Q', b'R', b'M']);
}

#[test]
fn encode_handshake_v4_exact_bytes() {
    let bytes = encode(&ClientHostMessage::AttemptHandshakeCommand {
        socket: PeerAddr::V4 {
            ip: 0x7F00_0001,
            port: 5000,
        },
    });
    // tag, family, ip little-endian, port little-endian
    assert_eq!(bytes, vec![4u8, 0, 0x01, 0x00, 0x00, 0x7F, 0x88, 0x13]);
}

#[test]
fn encode_checked_agrees_with_encode() {
    let m = ClientHostMessage::RequestSwap {
        lobby_id: b"K7QRM".to_vec(),
    };
    assert_eq!(encode_checked(&m), Some(encode(&m)));
}

#[test]
fn encode_checked_rejects_oversized_field() {
    let m = ClientHostMessage::RequestSwap {
        lobby_id: vec![b'A'; 0x1_0000],
    };
    assert_eq!(encode_checked(&m), None);
}

#[test]
fn decode_rejects_empty_buffer() {
    assert_eq!(decode(&Vec::new()), None);
}

#[test]
fn decode_rejects_unknown_tag() {
    assert_eq!(decode(&vec![9u8]), None);
}

#[test]
fn decode_rejects_trailing_bytes() {
    let mut bytes = encode(&ClientHostMessage::HostNewLobby);
    bytes.push(0);
    assert_eq!(decode(&bytes), None);
}

#[test]
fn decode_rejects_truncated_string() {
    // claims 5 bytes of lobby id, carries 4
    let bytes = vec![2u8, 5, 0, b'A', b'B', b'C', b'D'];
    assert_eq!(decode(&bytes), None);
}

#[test]
fn decode_rejects_bad_error_kind() {
    assert_eq!(decode(&vec![3u8, 9]), None);
}

#[test]
fn decode_rejects_bad_address_family() {
    assert_eq!(decode(&vec![4u8, 2, 0, 0, 0, 0, 0, 0]), None);
}

#[test]
fn decode_rejects_short_v4_address() {
    assert_eq!(decode(&vec![4u8, 0, 1, 2, 3]), None);
}
