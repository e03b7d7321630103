use punchthrough::client::handshake_succeeded;
use punchthrough::client::handshake_tick;
use punchthrough::client::process_client_message;
use punchthrough::client::request_swap_message;
use punchthrough::client::HandshakeAttempt;
use punchthrough::client::PunchthroughClientRes;
use punchthrough::client::PunchthroughEvent;
use punchthrough::client::RequestSwap;
use punchthrough::client::MAX_PUNCH_ATTEMPTS;
use punchthrough::client::PUNCH_RETRY_INTERVAL_MS;
use punchthrough::ClientError;
use punchthrough::ClientHostMessage;
use punchthrough::PeerAddr;

fn local() -> PeerAddr {
    PeerAddr::V4 {
        ip: 0x7F00_0001,
        port: 5001,
    }
}

fn server() -> PeerAddr {
    PeerAddr::V4 {
        ip: 0x7F00_0001,
        port: 5000,
    }
}

fn target() -> PeerAddr {
    PeerAddr::V4 {
        ip: 0x0808_0808,
        port: 4242,
    }
}

fn fresh() -> PunchthroughClientRes {
    PunchthroughClientRes::new(local(), server())
}

#[test]
fn new_lobby_response_becomes_host_success_event() {
    let mut res = fresh();
    let out = process_client_message(
        &mut res,
        &ClientHostMessage::NewLobbyResponse {
            lobby_id: b"K7QRM".to_vec(),
        },
        0,
    );
    assert_eq!(
        out.event,
        Some(PunchthroughEvent::HostSuccess {
            lobby: b"K7QRM".to_vec(),
        })
    );
    assert_eq!(out.punch, None);
    assert_eq!(res.target_addr, None);
}

#[test]
fn join_response_success_emits_no_event() {
    let mut res = fresh();
    let out = process_client_message(
        &mut res,
        &ClientHostMessage::JoinLobbyResponse { err: None },
        0,
    );
    assert_eq!(out.event, None);
    assert_eq!(out.punch, None);
}

#[test]
fn join_response_not_found_reports_failure() {
    let mut res = fresh();
    let out = process_client_message(
        &mut res,
        &ClientHostMessage::JoinLobbyResponse {
            err: Some(ClientError::LobbyNotFound {
                lobby: b"ZZZZZ".to_vec(),
            }),
        },
        0,
    );
    match out.event {
        Some(PunchthroughEvent::Failed { reason }) => assert_eq!(reason, "lobby not found"),
        other => panic!("expected a failure event, got {:?}", other),
    }
}

#[test]
fn join_response_internal_error_reports_failure() {
    let mut res = fresh();
    let out = process_client_message(
        &mut res,
        &ClientHostMessage::JoinLobbyResponse {
            err: Some(ClientError::InternalServerError),
        },
        0,
    );
    match out.event {
        Some(PunchthroughEvent::Failed { reason }) => {
            assert_eq!(reason, "internal server error")
        }
        other => panic!("expected a failure event, got {:?}", other),
    }
}

#[test]
fn handshake_command_starts_attempt_and_fires_at_once() {
    let mut res = fresh();
    let out = process_client_message(
        &mut res,
        &ClientHostMessage::AttemptHandshakeCommand { socket: target() },
        1_000,
    );
    assert_eq!(out.event, None);
    assert_eq!(out.punch, Some(target()));
    assert_eq!(
        res.target_addr,
        Some(HandshakeAttempt {
            target: target(),
            attempts_made: 1,
            last_attempt_at: 1_000,
        })
    );
}

#[test]
fn new_handshake_command_replaces_the_attempt() {
    let mut res = fresh();
    process_client_message(
        &mut res,
        &ClientHostMessage::AttemptHandshakeCommand { socket: target() },
        1_000,
    );
    let other = PeerAddr::V4 {
        ip: 0x0101_0101,
        port: 7,
    };
    let out = process_client_message(
        &mut res,
        &ClientHostMessage::AttemptHandshakeCommand { socket: other },
        2_000,
    );
    assert_eq!(out.punch, Some(other));
    assert_eq!(
        res.target_addr,
        Some(HandshakeAttempt {
            target: other,
            attempts_made: 1,
            last_attempt_at: 2_000,
        })
    );
}

#[test]
fn server_bound_messages_are_ignored_by_the_client() {
    let mut res = fresh();
    let out = process_client_message(&mut res, &ClientHostMessage::HostNewLobby, 0);
    assert_eq!(out.event, None);
    assert_eq!(out.punch, None);
    let out = process_client_message(
        &mut res,
        &ClientHostMessage::RequestSwap {
            lobby_id: b"AAAAA".to_vec(),
        },
        0,
    );
    assert_eq!(out.event, None);
    assert_eq!(out.punch, None);
    assert_eq!(res.target_addr, None);
}

#[test]
fn tick_with_no_attempt_does_nothing() {
    let mut res = fresh();
    let out = handshake_tick(&mut res, 10_000);
    assert_eq!(out.event, None);
    assert_eq!(out.punch, None);
}

#[test]
fn tick_before_interval_waits() {
    let mut res = fresh();
    process_client_message(
        &mut res,
        &ClientHostMessage::AttemptHandshakeCommand { socket: target() },
        1_000,
    );
    let out = handshake_tick(&mut res, 1_000 + PUNCH_RETRY_INTERVAL_MS - 1);
    assert_eq!(out.punch, None);
    assert_eq!(out.event, None);
    assert_eq!(res.target_addr.unwrap().attempts_made, 1);
}

#[test]
fn tick_after_interval_fires_and_counts() {
    let mut res = fresh();
    process_client_message(
        &mut res,
        &ClientHostMessage::AttemptHandshakeCommand { socket: target() },
        1_000,
    );
    let now = 1_000 + PUNCH_RETRY_INTERVAL_MS;
    let out = handshake_tick(&mut res, now);
    assert_eq!(out.punch, Some(target()));
    assert_eq!(out.event, None);
    assert_eq!(
        res.target_addr,
        Some(HandshakeAttempt {
            target: target(),
            attempts_made: 2,
            last_attempt_at: now,
        })
    );
}

#[test]
fn exhausted_attempt_budget_fails_and_clears() {
    let mut res = fresh();
    process_client_message(
        &mut res,
        &ClientHostMessage::AttemptHandshakeCommand { socket: target() },
        0,
    );
    let mut now = 0u64;
    let mut fired = 1u16;
    loop {
        now += PUNCH_RETRY_INTERVAL_MS;
        let out = handshake_tick(&mut res, now);
        if let Some(PunchthroughEvent::Failed { reason }) = out.event {
            assert_eq!(reason, "handshake attempts exhausted");
            assert_eq!(out.punch, None);
            break;
        }
        assert_eq!(out.punch, Some(target()));
        fired += 1;
        assert!(fired <= MAX_PUNCH_ATTEMPTS, "budget must be bounded");
    }
    assert_eq!(fired, MAX_PUNCH_ATTEMPTS);
    assert_eq!(res.target_addr, None);
    // a further tick stays quiet
    let out = handshake_tick(&mut res, now + PUNCH_RETRY_INTERVAL_MS);
    assert_eq!(out.event, None);
    assert_eq!(out.punch, None);
}

#[test]
fn success_signal_clears_attempt_and_reports_connected() {
    let mut res = fresh();
    process_client_message(
        &mut res,
        &ClientHostMessage::AttemptHandshakeCommand { socket: target() },
        1_000,
    );
    let out = handshake_succeeded(&mut res);
    assert_eq!(
        out,
        Some(PunchthroughEvent::Success {
            target_sock: target(),
            local_sock: local(),
        })
    );
    assert_eq!(res.target_addr, None);
    // the signal is idempotent once the attempt is gone
    assert_eq!(handshake_succeeded(&mut res), None);
}

#[test]
fn stale_success_signal_reports_nothing() {
    let mut res = fresh();
    assert_eq!(handshake_succeeded(&mut res), None);
    assert_eq!(res.target_addr, None);
}

#[test]
fn join_intent_becomes_request_swap_message() {
    let msg = request_swap_message(&RequestSwap::JoinLobby {
        lobby: b"k7qrm".to_vec(),
    });
    assert_eq!(
        msg,
        ClientHostMessage::RequestSwap {
            lobby_id: b"k7qrm".to_vec(),
        }
    );
}

#[test]
fn host_intent_becomes_host_new_lobby_message() {
    let msg = request_swap_message(&RequestSwap::HostLobby);
    assert_eq!(msg, ClientHostMessage::HostNewLobby);
}
