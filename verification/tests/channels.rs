use punchthrough::ClientChannel;
use punchthrough::ServerChannel;

#[test]
fn client_channel_ids_are_stable() {
    assert_eq!(ClientChannel::Input.id(), 0);
    assert_eq!(ClientChannel::Command.id(), 1);
}

#[test]
fn server_channel_ids_are_stable() {
    assert_eq!(ServerChannel::NetworkFrame.id(), 0);
    assert_eq!(ServerChannel::ServerMessages.id(), 1);
}
