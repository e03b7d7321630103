//! Rendezvous support for UDP hole punching between two NAT-bound peers.
//!
//! One client hosts a lobby and receives a short code for it; a second client
//! joins by code, and the rendezvous server commands both to fire punch
//! packets at each other's externally observed addresses.  This crate holds
//! the protocol core: the server-side lobby registry and message dispatch,
//! the client-side protocol processor and handshake state machine, and the
//! wire codec for control messages.  Transport plumbing (sockets, delivery)
//! stays outside, behind plain-value interfaces.

use vstd::prelude::*;

pub mod client;
pub mod codec;
pub mod registry;
pub mod server;

verus! {

/// Length, in bytes, of a generated lobby code.
pub const LOBBY_CODE_LEN: usize = 5;

/// A network endpoint as the transport observes it: either an IPv4 address
/// (four octets packed big-endian into a `u32`) or an IPv6 address (sixteen
/// octets packed big-endian into two `u64`s), plus a port.
#[derive(Clone, Copy, PartialEq, Eq, Structural, Debug)]
pub enum PeerAddr {
    V4 { ip: u32, port: u16 },
    V6 { ip_hi: u64, ip_lo: u64, port: u16 },
}

/// Failure reported to a joining client inside `JoinLobbyResponse`.
#[derive(Debug, PartialEq, Eq)]
pub enum ClientError {
    LobbyNotFound { lobby: Vec<u8> },
    InternalServerError,
}

/// Mathematical image of a [`ClientError`].
pub enum ClientErrorView {
    LobbyNotFound { lobby: Seq<u8> },
    InternalServerError,
}

impl View for ClientError {
    type V = ClientErrorView;

    open spec fn view(&self) -> ClientErrorView {
        match self {
            ClientError::LobbyNotFound { lobby } => ClientErrorView::LobbyNotFound {
                lobby: lobby@,
            },
            ClientError::InternalServerError => ClientErrorView::InternalServerError,
        }
    }
}

/// Mathematical image of an optional [`ClientError`].
pub open spec fn err_opt_view(e: Option<ClientError>) -> Option<ClientErrorView> {
    match e {
        Some(x) => Some(x.view()),
        None => None,
    }
}

/// Control message exchanged between a client and the rendezvous server.
/// Exactly one variant is active per message; lobby identifiers travel as
/// byte strings, case-normalized by the server on lookup.
#[derive(Debug, PartialEq, Eq)]
pub enum ClientHostMessage {
    /// Client asks the server to open a lobby on its behalf.
    HostNewLobby,
    /// Server acknowledges a new lobby and hands back its code.
    NewLobbyResponse { lobby_id: Vec<u8> },
    /// Client asks to be introduced to the host of the named lobby.
    RequestSwap { lobby_id: Vec<u8> },
    /// Server answers a swap request; `err` is `None` on success.
    JoinLobbyResponse { err: Option<ClientError> },
    /// Server commands a client to fire punch packets at `socket`.
    AttemptHandshakeCommand { socket: PeerAddr },
}

/// Mathematical image of a [`ClientHostMessage`].
pub enum MessageView {
    HostNewLobby,
    NewLobbyResponse { lobby_id: Seq<u8> },
    RequestSwap { lobby_id: Seq<u8> },
    JoinLobbyResponse { err: Option<ClientErrorView> },
    AttemptHandshakeCommand { socket: PeerAddr },
}

impl View for ClientHostMessage {
    type V = MessageView;

    open spec fn view(&self) -> MessageView {
        match self {
            ClientHostMessage::HostNewLobby => MessageView::HostNewLobby,
            ClientHostMessage::NewLobbyResponse { lobby_id } => MessageView::NewLobbyResponse {
                lobby_id: lobby_id@,
            },
            ClientHostMessage::RequestSwap { lobby_id } => MessageView::RequestSwap {
                lobby_id: lobby_id@,
            },
            ClientHostMessage::JoinLobbyResponse { err } => MessageView::JoinLobbyResponse {
                err: err_opt_view(*err),
            },
            ClientHostMessage::AttemptHandshakeCommand { socket } => {
                MessageView::AttemptHandshakeCommand { socket: *socket }
            },
        }
    }
}

/// Channels a client sends on.
pub enum ClientChannel {
    Input,
    Command,
}

/// Channels the server sends on.
pub enum ServerChannel {
    ServerMessages,
    NetworkFrame,
}

impl ClientChannel {
    /// Wire identifier of the channel.
    pub fn id(&self) -> (r: u8)
        ensures
            r == (match self {
                ClientChannel::Input => 0u8,
                ClientChannel::Command => 1u8,
            }),
    {
        match self {
            Self::Input => 0,
            Self::Command => 1,
        }
    }
}

impl ServerChannel {
    /// Wire identifier of the channel.
    pub fn id(&self) -> (r: u8)
        ensures
            r == (match self {
                ServerChannel::NetworkFrame => 0u8,
                ServerChannel::ServerMessages => 1u8,
            }),
    {
        match self {
            Self::NetworkFrame => 0,
            Self::ServerMessages => 1,
        }
    }
}

/// An ASCII lowercase letter mapped to uppercase; anything else unchanged.
pub open spec fn upper_byte(b: u8) -> u8 {
    if 97 <= b <= 122 {
        (b - 32) as u8
    } else {
        b
    }
}

/// Case normalization of a lobby identifier: ASCII uppercase, byte by byte.
pub open spec fn norm_code(s: Seq<u8>) -> Seq<u8> {
    s.map_values(|b: u8| upper_byte(b))
}

/// An uppercase ASCII letter or a decimal digit.
pub open spec fn is_upper_alnum(b: u8) -> bool {
    (65 <= b <= 90) || (48 <= b <= 57)
}

/// An ASCII letter of either case, or a decimal digit.
pub open spec fn is_ascii_alnum(b: u8) -> bool {
    (65 <= b <= 90) || (97 <= b <= 122) || (48 <= b <= 57)
}

/// A well-formed stored lobby code: fixed length, normalized alphanumeric.
pub open spec fn is_lobby_code(s: Seq<u8>) -> bool {
    &&& s.len() == LOBBY_CODE_LEN
    &&& forall|i: int| 0 <= i < s.len() ==> is_upper_alnum(#[trigger] s[i])
}

/// Case normalization is idempotent: normalizing a normalized identifier
/// changes nothing.  Lookup by code therefore cannot care how many times a
/// code passed through normalization.
pub proof fn lemma_norm_code_idempotent(s: Seq<u8>)
    ensures
        norm_code(norm_code(s)) == norm_code(s),
{
    assert forall|i: int| 0 <= i < s.len() implies #[trigger] norm_code(norm_code(s))[i]
        == norm_code(s)[i] by {
        assert(norm_code(s)[i] == upper_byte(s[i]));
    }
    assert(norm_code(norm_code(s)) =~= norm_code(s));
}

/// A well-formed lobby code is already normalized: normalization fixes it.
/// Together with case-insensitive lookup, a code is found under exactly the
/// byte string the server handed out, in any case.
pub proof fn lemma_lobby_code_normalized(s: Seq<u8>)
    requires
        is_lobby_code(s),
    ensures
        norm_code(s) == s,
{
    assert forall|i: int| 0 <= i < s.len() implies #[trigger] norm_code(s)[i] == s[i] by {
        assert(is_upper_alnum(s[i]));
    }
    assert(norm_code(s) =~= s);
}

/// Exec mirror of [`norm_code`]: uppercases a lobby identifier.
pub fn normalize_code(s: &Vec<u8>) -> (r: Vec<u8>)
    ensures
        r@ == norm_code(s@),
{
    let mut out: Vec<u8> = Vec::new();
    let mut i: usize = 0;
    while i < s.len()
        invariant
            0 <= i <= s@.len(),
            out@.len() == i,
            forall|j: int| 0 <= j < i ==> out@[j] == upper_byte(#[trigger] s@[j]),
        decreases s@.len() - i,
    {
        let b = s[i];
        if 97 <= b && b <= 122 {
            out.push(b - 32);
        } else {
            out.push(b);
        }
        i += 1;
    }
    assert(out@ =~= norm_code(s@));
    out
}

/// An owned copy of a byte string.
pub fn clone_bytes(v: &Vec<u8>) -> (r: Vec<u8>)
    ensures
        r@ == v@,
{
    let mut out: Vec<u8> = Vec::new();
    let mut i: usize = 0;
    while i < v.len()
        invariant
            0 <= i <= v@.len(),
            out@ == v@.subrange(0, i as int),
        decreases v@.len() - i,
    {
        out.push(v[i]);
        assert(out@ =~= v@.subrange(0, i + 1 as int));
        i += 1;
    }
    assert(v@.subrange(0, v@.len() as int) =~= v@);
    out
}

/// Byte-string equality, stated over the views.
pub fn bytes_eq(a: &Vec<u8>, b: &Vec<u8>) -> (r: bool)
    ensures
        r == (a@ == b@),
{
    if a.len() != b.len() {
        return false;
    }
    let mut i: usize = 0;
    while i < a.len()
        invariant
            0 <= i <= a@.len(),
            a@.len() == b@.len(),
            forall|j: int| 0 <= j < i ==> a@[j] == b@[j],
        decreases a@.len() - i,
    {
        if a[i] != b[i] {
            return false;
        }
        i += 1;
    }
    assert(a@ =~= b@);
    true
}

} // verus!
