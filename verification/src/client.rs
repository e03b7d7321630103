//! Client-side protocol processor and handshake state machine.
//!
//! The processor turns inbound server messages into application-visible
//! events and handshake state changes, and application intents into
//! outbound control messages.  The handshake state machine holds at most
//! one in-flight attempt: a handshake command starts (or replaces) it, a
//! time-driven tick retries it at a fixed interval until a bounded budget
//! runs out, and exhaustion reports failure upward.  The surrounding
//! transport loop performs the actual sends.

use vstd::prelude::*;

use crate::clone_bytes;
use crate::ClientError;
use crate::ClientErrorView;
use crate::ClientHostMessage;
use crate::MessageView;
use crate::PeerAddr;

verus! {

/// How many punch transmissions one handshake attempt may make.
pub const MAX_PUNCH_ATTEMPTS: u16 = 8;

/// Milliseconds between successive punch transmissions.
pub const PUNCH_RETRY_INTERVAL_MS: u64 = 250;

/// Application-level intent handed to the processor.
#[derive(Debug, PartialEq, Eq)]
pub enum RequestSwap {
    JoinLobby { lobby: Vec<u8> },
    HostLobby,
}

/// Egress event to the embedding application: the only signals it should
/// observe.
#[derive(Debug, PartialEq, Eq)]
pub enum PunchthroughEvent {
    Success { target_sock: PeerAddr, local_sock: PeerAddr },
    HostSuccess { lobby: Vec<u8> },
    Failed { reason: String },
}

/// Mathematical image of a [`PunchthroughEvent`].
pub enum EventView {
    Success { target_sock: PeerAddr, local_sock: PeerAddr },
    HostSuccess { lobby: Seq<u8> },
    Failed { reason: Seq<char> },
}

impl View for PunchthroughEvent {
    type V = EventView;

    open spec fn view(&self) -> EventView {
        match self {
            PunchthroughEvent::Success { target_sock, local_sock } => EventView::Success {
                target_sock: *target_sock,
                local_sock: *local_sock,
            },
            PunchthroughEvent::HostSuccess { lobby } => EventView::HostSuccess { lobby: lobby@ },
            PunchthroughEvent::Failed { reason } => EventView::Failed { reason: reason@ },
        }
    }
}

/// Mathematical image of an optional event.
pub open spec fn event_opt_view(e: Option<PunchthroughEvent>) -> Option<EventView> {
    match e {
        Some(ev) => Some(ev.view()),
        None => None,
    }
}

/// The failure text reported upward for a protocol error.
pub open spec fn err_text(e: ClientErrorView) -> Seq<char> {
    match e {
        ClientErrorView::LobbyNotFound { lobby } => "lobby not found"@,
        ClientErrorView::InternalServerError => "internal server error"@,
    }
}

/// One in-flight handshake attempt toward a target address.
#[derive(Clone, Copy, Debug, PartialEq, Eq, Structural)]
pub struct HandshakeAttempt {
    /// Where punch packets go: the peer's server-observed address.
    pub target: PeerAddr,
    /// How many punch packets have been sent for this attempt.
    pub attempts_made: u16,
    /// When the last punch packet was sent, on the caller's monotonic
    /// millisecond clock.
    pub last_attempt_at: u64,
}

/// Client-side protocol state: the configured endpoints and at most one
/// in-flight handshake attempt.
pub struct PunchthroughClientRes {
    /// The active handshake attempt, if any; a new handshake command
    /// replaces it.
    pub target_addr: Option<HandshakeAttempt>,
    /// The local address punch packets are sent from.
    pub local_socket: PeerAddr,
    /// The rendezvous server's address.
    pub punchthrough_server: PeerAddr,
}

/// What one processing step asks of its surroundings: an event to hand to
/// the application, and possibly one punch packet to fire from the local
/// socket toward a target, right now.
pub struct ProcessOutcome {
    pub event: Option<PunchthroughEvent>,
    pub punch: Option<PeerAddr>,
}

impl PunchthroughClientRes {
    /// Fresh client state with no handshake in flight.
    pub fn new(local_socket: PeerAddr, punchthrough_server: PeerAddr) -> (r: Self)
        ensures
            r.target_addr is None,
            r.local_socket == local_socket,
            r.punchthrough_server == punchthrough_server,
    {
        PunchthroughClientRes { target_addr: None, local_socket, punchthrough_server }
    }
}

/// Consumes one control message from the server.  A lobby response becomes
/// a hosting-started event; a join response reports failure upward, or
/// nothing on success (the handshake command follows separately); a
/// handshake command starts or replaces the attempt, with its first punch
/// fired immediately; server-bound messages are ignored.
pub fn process_client_message(
    res: &mut PunchthroughClientRes,
    msg: &ClientHostMessage,
    now_ms: u64,
) -> (out: ProcessOutcome)
    ensures
        final(res).local_socket == old(res).local_socket,
        final(res).punchthrough_server == old(res).punchthrough_server,
        (match msg@ {
            MessageView::NewLobbyResponse { lobby_id } => final(res).target_addr == old(
                res,
            ).target_addr && out.punch is None && event_opt_view(out.event) == Some(
                EventView::HostSuccess { lobby: lobby_id },
            ),
            MessageView::JoinLobbyResponse { err } => final(res).target_addr == old(
                res,
            ).target_addr && out.punch is None && (match err {
                None => out.event is None,
                Some(e) => event_opt_view(out.event) == Some(
                    EventView::Failed { reason: err_text(e) },
                ),
            }),
            MessageView::AttemptHandshakeCommand { socket } => final(res).target_addr == Some(
                (HandshakeAttempt { target: socket, attempts_made: 1, last_attempt_at: now_ms }),
            ) && out.punch == Some(socket) && out.event is None,
            _ => final(res).target_addr == old(res).target_addr && out.punch is None && out.event
                is None,
        }),
{
    match msg {
        ClientHostMessage::NewLobbyResponse { lobby_id } => ProcessOutcome {
            event: Some(PunchthroughEvent::HostSuccess { lobby: clone_bytes(lobby_id) }),
            punch: None,
        },
        ClientHostMessage::JoinLobbyResponse { err } => {
            match err {
                None => ProcessOutcome { event: None, punch: None },
                Some(ClientError::LobbyNotFound { lobby }) => ProcessOutcome {
                    event: Some(
                        PunchthroughEvent::Failed {
                            reason: String::from_str("lobby not found"),
                        },
                    ),
                    punch: None,
                },
                Some(ClientError::InternalServerError) => ProcessOutcome {
                    event: Some(
                        PunchthroughEvent::Failed {
                            reason: String::from_str("internal server error"),
                        },
                    ),
                    punch: None,
                },
            }
        },
        ClientHostMessage::AttemptHandshakeCommand { socket } => {
            res.target_addr = Some(
                HandshakeAttempt { target: *socket, attempts_made: 1, last_attempt_at: now_ms },
            );
            ProcessOutcome { event: None, punch: Some(*socket) }
        },
        _ => ProcessOutcome { event: None, punch: None },
    }
}

/// One tick of the time-driven retry loop.  With no attempt in flight
/// nothing happens.  An attempt whose budget is spent is discarded and
/// reported as failed.  Otherwise, once the retry interval has elapsed
/// since the last transmission, one more punch is fired and the attempt
/// records it; between intervals nothing happens.
pub fn handshake_tick(res: &mut PunchthroughClientRes, now_ms: u64) -> (out: ProcessOutcome)
    ensures
        final(res).local_socket == old(res).local_socket,
        final(res).punchthrough_server == old(res).punchthrough_server,
        (match old(res).target_addr {
            None => final(res).target_addr is None && out.event is None && out.punch is None,
            Some(att) => {
                if att.attempts_made >= MAX_PUNCH_ATTEMPTS {
                    &&& final(res).target_addr is None
                    &&& out.punch is None
                    &&& event_opt_view(out.event) == Some(
                        EventView::Failed { reason: "handshake attempts exhausted"@ },
                    )
                } else if now_ms >= att.last_attempt_at && now_ms - att.last_attempt_at
                    >= PUNCH_RETRY_INTERVAL_MS {
                    &&& final(res).target_addr == Some(
                        (HandshakeAttempt {
                            target: att.target,
                            attempts_made: (att.attempts_made + 1) as u16,
                            last_attempt_at: now_ms,
                        }),
                    )
                    &&& out.punch == Some(att.target)
                    &&& out.event is None
                } else {
                    &&& final(res).target_addr == old(res).target_addr
                    &&& out.punch is None
                    &&& out.event is None
                }
            },
        }),
{
    match res.target_addr {
        None => ProcessOutcome { event: None, punch: None },
        Some(att) => {
            if att.attempts_made >= MAX_PUNCH_ATTEMPTS {
                res.target_addr = None;
                ProcessOutcome {
                    event: Some(
                        PunchthroughEvent::Failed {
                            reason: String::from_str("handshake attempts exhausted"),
                        },
                    ),
                    punch: None,
                }
            } else if now_ms >= att.last_attempt_at && now_ms - att.last_attempt_at
                >= PUNCH_RETRY_INTERVAL_MS {
                res.target_addr = Some(
                    HandshakeAttempt {
                        target: att.target,
                        attempts_made: att.attempts_made + 1,
                        last_attempt_at: now_ms,
                    },
                );
                ProcessOutcome { event: None, punch: Some(att.target) }
            } else {
                ProcessOutcome { event: None, punch: None }
            }
        },
    }
}

/// Records the externally observed success signal: a working peer link is
/// never locally verifiable, so the surroundings report it.  An in-flight
/// attempt is discarded and a `Success` event carries the peer's and the
/// local address upward; with nothing in flight the signal is stale and
/// nothing is reported.
pub fn handshake_succeeded(res: &mut PunchthroughClientRes) -> (out: Option<PunchthroughEvent>)
    ensures
        final(res).local_socket == old(res).local_socket,
        final(res).punchthrough_server == old(res).punchthrough_server,
        final(res).target_addr is None,
        (match old(res).target_addr {
            Some(att) => event_opt_view(out) == Some(
                EventView::Success { target_sock: att.target, local_sock: old(res).local_socket },
            ),
            None => out is None,
        }),
{
    match res.target_addr {
        Some(att) => {
            res.target_addr = None;
            Some(
                PunchthroughEvent::Success {
                    target_sock: att.target,
                    local_sock: res.local_socket,
                },
            )
        },
        None => None,
    }
}

/// Translates an application intent into the control message to send on
/// the reliable command channel.
pub fn request_swap_message(req: &RequestSwap) -> (r: ClientHostMessage)
    ensures
        (match req {
            RequestSwap::JoinLobby { lobby } => r@ == (MessageView::RequestSwap {
                lobby_id: lobby@,
            }),
            RequestSwap::HostLobby => r@ == MessageView::HostNewLobby,
        }),
{
    match req {
        RequestSwap::JoinLobby { lobby } => ClientHostMessage::RequestSwap {
            lobby_id: clone_bytes(lobby),
        },
        RequestSwap::HostLobby => ClientHostMessage::HostNewLobby,
    }
}

} // verus!
