//! Rendezvous protocol handler.
//!
//! Stateless dispatch of transport events and client control messages
//! against the lobby registry.  Each step mutates the registry as specified
//! and returns exactly the messages owed, as recipient/message pairs; the
//! transport loop around it only delivers them.  A lobby persists after a
//! successful swap and disappears when its host disconnects.

use vstd::prelude::*;

use crate::codec::decode;
use crate::codec::decode_spec;
use crate::registry::find_code;
use crate::registry::remove_client;
use crate::registry::EntryView;
use crate::registry::PunchThroughServerRes;
use crate::is_lobby_code;
use crate::norm_code;
use crate::normalize_code;
use crate::ClientError;
use crate::ClientErrorView;
use crate::ClientHostMessage;
use crate::MessageView;
use crate::PeerAddr;

verus! {

/// Connection lifecycle event reported by the transport.
#[derive(Clone, Copy, Debug, PartialEq, Eq, Structural)]
pub enum ServerEvent {
    ClientConnected { id: u64 },
    ClientDisconnected { id: u64 },
}

/// Mathematical image of a batch of outbound sends: recipient and message,
/// in order.
pub open spec fn sends_view(v: Seq<(u64, ClientHostMessage)>) -> Seq<(u64, MessageView)> {
    v.map(|i: int, p: (u64, ClientHostMessage)| (p.0, p.1.view()))
}

/// Exactly the message set owed in answer to a swap request for the
/// normalized code `k`, sent by `sender` observed at `sender_addr`, against
/// the registry `pre`.  A found host gets the joiner's observed address,
/// the joiner gets the host's, and the joiner's response carries no error;
/// a miss yields a single `LobbyNotFound` response, and nobody receives a
/// handshake command.
pub open spec fn swap_outs_ok(
    pre: Seq<EntryView>,
    sender: u64,
    sender_addr: PeerAddr,
    k: Seq<u8>,
    outs: Seq<(u64, MessageView)>,
) -> bool {
    match find_code(pre, k) {
        Some(e) => outs == seq![
            (sender, MessageView::JoinLobbyResponse { err: None }),
            (e.client, MessageView::AttemptHandshakeCommand { socket: sender_addr }),
            (sender, MessageView::AttemptHandshakeCommand { socket: e.addr }),
        ],
        None => outs == seq![
            (
                sender,
                MessageView::JoinLobbyResponse {
                    err: Some(ClientErrorView::LobbyNotFound { lobby: k }),
                },
            ),
        ],
    }
}

/// One handler step for a host request: either a fresh code was found, the
/// registry gained exactly that lobby for the sender (replacing any lobby
/// the sender already hosted), and the sender alone was told the code; or
/// the random code budget ran dry against other clients' records, nothing
/// was sent and nothing changed.  Success is owed whenever no other client
/// holds a lobby: the no-op escape needs a possible collision.
pub open spec fn host_step_ok(
    pre: Seq<EntryView>,
    post: Seq<EntryView>,
    sender: u64,
    sender_addr: PeerAddr,
    outs: Seq<(u64, MessageView)>,
) -> bool {
    ||| (remove_client(pre, sender).len() > 0 && post == pre && outs == Seq::<(
        u64,
        MessageView,
    )>::empty())
    ||| (outs.len() == 1 && outs[0].0 == sender && (outs[0].1 matches MessageView::NewLobbyResponse
        { lobby_id } && is_lobby_code(lobby_id) && find_code(remove_client(pre, sender), lobby_id)
        is None && post == remove_client(pre, sender).push(
        (EntryView { code: lobby_id, client: sender, addr: sender_addr }),
    )))
}

/// The full step relation of the handler on one decoded message: what the
/// registry becomes and exactly which messages go out.
pub open spec fn server_step_ok(
    pre: Seq<EntryView>,
    post: Seq<EntryView>,
    sender: u64,
    sender_addr: PeerAddr,
    m: MessageView,
    outs: Seq<(u64, MessageView)>,
) -> bool {
    match m {
        MessageView::HostNewLobby => host_step_ok(pre, post, sender, sender_addr, outs),
        MessageView::RequestSwap { lobby_id } => post == pre && swap_outs_ok(
            pre,
            sender,
            sender_addr,
            norm_code(lobby_id),
            outs,
        ),
        _ => post == pre && outs == Seq::<(u64, MessageView)>::empty(),
    }
}

/// Applies one transport event to the registry: a disconnect unregisters
/// whatever lobby the client hosted; a connect is informational only.
pub fn handle_server_event(reg: &mut PunchThroughServerRes, ev: &ServerEvent)
    requires
        old(reg).wf(),
    ensures
        final(reg).wf(),
        (match ev {
            ServerEvent::ClientConnected { id } => final(reg)@ == old(reg)@,
            ServerEvent::ClientDisconnected { id } => final(reg)@ == remove_client(
                old(reg)@,
                *id,
            ),
        }),
{
    match ev {
        ServerEvent::ClientConnected { .. } => {},
        ServerEvent::ClientDisconnected { id } => {
            reg.unregister(*id);
        },
    }
}

/// Dispatches one decoded control message from `sender`, observed by the
/// transport at `sender_addr`, and returns the messages to send in order.
pub fn handle_client_message(
    reg: &mut PunchThroughServerRes,
    sender: u64,
    sender_addr: PeerAddr,
    msg: &ClientHostMessage,
) -> (outs: Vec<(u64, ClientHostMessage)>)
    requires
        old(reg).wf(),
    ensures
        final(reg).wf(),
        server_step_ok(old(reg)@, final(reg)@, sender, sender_addr, msg@, sends_view(outs@)),
{
    let mut outs: Vec<(u64, ClientHostMessage)> = Vec::new();
    match msg {
        ClientHostMessage::HostNewLobby => {
            match reg.register(sender, sender_addr) {
                Some(code) => {
                    let ghost cv: Seq<u8> = code@;
                    outs.push((sender, ClientHostMessage::NewLobbyResponse { lobby_id: code }));
                    proof {
                        assert(sends_view(outs@) =~= seq![
                            (sender, MessageView::NewLobbyResponse { lobby_id: cv }),
                        ]);
                    }
                },
                None => {
                    proof {
                        assert(sends_view(outs@) =~= Seq::<(u64, MessageView)>::empty());
                    }
                },
            }
        },
        ClientHostMessage::RequestSwap { lobby_id } => {
            match reg.lookup(lobby_id) {
                Some(entry) => {
                    outs.push((sender, ClientHostMessage::JoinLobbyResponse { err: None }));
                    outs.push(
                        (
                            entry.client_id,
                            ClientHostMessage::AttemptHandshakeCommand { socket: sender_addr },
                        ),
                    );
                    outs.push(
                        (
                            sender,
                            ClientHostMessage::AttemptHandshakeCommand { socket: entry.addr },
                        ),
                    );
                    proof {
                        let e = find_code(reg@, norm_code(lobby_id@)).unwrap();
                        assert(sends_view(outs@) =~= seq![
                            (sender, MessageView::JoinLobbyResponse { err: None }),
                            (e.client, MessageView::AttemptHandshakeCommand { socket: sender_addr }),
                            (sender, MessageView::AttemptHandshakeCommand { socket: e.addr }),
                        ]);
                    }
                },
                None => {
                    let k = normalize_code(lobby_id);
                    let ghost kv: Seq<u8> = k@;
                    outs.push(
                        (
                            sender,
                            ClientHostMessage::JoinLobbyResponse {
                                err: Some(ClientError::LobbyNotFound { lobby: k }),
                            },
                        ),
                    );
                    proof {
                        assert(sends_view(outs@) =~= seq![
                            (
                                sender,
                                MessageView::JoinLobbyResponse {
                                    err: Some(ClientErrorView::LobbyNotFound { lobby: kv }),
                                },
                            ),
                        ]);
                    }
                },
            }
        },
        _ => {
            proof {
                assert(sends_view(outs@) =~= Seq::<(u64, MessageView)>::empty());
            }
        },
    }
    outs
}

/// Dispatches one raw payload from `sender`: undecodable bytes are dropped
/// without reply and without touching the registry; anything else is
/// handled as the decoded message.
pub fn handle_raw_client_message(
    reg: &mut PunchThroughServerRes,
    sender: u64,
    sender_addr: PeerAddr,
    bytes: &Vec<u8>,
) -> (outs: Vec<(u64, ClientHostMessage)>)
    requires
        old(reg).wf(),
    ensures
        final(reg).wf(),
        (match decode_spec(bytes@) {
            Some(m) => server_step_ok(old(reg)@, final(reg)@, sender, sender_addr, m, sends_view(
                outs@,
            )),
            None => final(reg)@ == old(reg)@ && outs@.len() == 0,
        }),
{
    match decode(bytes) {
        Some(msg) => handle_client_message(reg, sender, sender_addr, &msg),
        None => Vec::new(),
    }
}

} // verus!
