use punchthrough::registry::HostEntry;
use punchthrough::registry::PunchThroughServerRes;
use punchthrough::PeerAddr;

fn addr(port: u16) -> PeerAddr {
    PeerAddr::V4 {
        ip: 0xC0A8_0001,
        port,
    }
}

fn lower(code: &[u8]) -> Vec<u8> {
    code.iter()
        .map(|b| if b.is_ascii_uppercase() { b + 32 } else { *b })
        .collect()
}

#[test]
fn register_then_lookup_finds_host() {
    let mut reg = PunchThroughServerRes::new();
    let code = reg.register(7, addr(1000)).expect("a fresh code");
    assert_eq!(code.len(), 5);
    assert!(code
        .iter()
        .all(|b| b.is_ascii_uppercase() || b.is_ascii_digit()));
    let entry = reg.lookup(&code).expect("registered code must resolve");
    assert_eq!(
        entry,
        HostEntry {
            client_id: 7,
            addr: addr(1000)
        }
    );
    assert_eq!(reg.lookup_client(7), Some(code));
}

#[test]
fn lookup_is_case_insensitive() {
    let mut reg = PunchThroughServerRes::new();
    assert!(reg.register_with_code(&b"AB3DE".to_vec(), 1, addr(1)));
    let entry = reg.lookup(&b"ab3de".to_vec()).expect("lowercase query must match");
    assert_eq!(entry.client_id, 1);
    let entry = reg.lookup(&b"Ab3dE".to_vec()).expect("mixed-case query must match");
    assert_eq!(entry.client_id, 1);
}

#[test]
fn generated_code_matches_lowercase_query() {
    let mut reg = PunchThroughServerRes::new();
    let code = reg.register(42, addr(9)).expect("a fresh code");
    let entry = reg.lookup(&lower(&code)).expect("lowercased code must match");
    assert_eq!(entry.client_id, 42);
}

#[test]
fn unregister_removes_entry_and_reverse_index() {
    let mut reg = PunchThroughServerRes::new();
    let code = reg.register(5, addr(2)).expect("a fresh code");
    reg.unregister(5);
    assert_eq!(reg.lookup(&code), None);
    assert_eq!(reg.lookup_client(5), None);
    assert_eq!(reg.host_count(), 0);
}

#[test]
fn unregister_is_idempotent() {
    let mut reg = PunchThroughServerRes::new();
    let code = reg.register(5, addr(2)).expect("a fresh code");
    let other = reg.register(6, addr(3)).expect("a fresh code");
    reg.unregister(5);
    reg.unregister(5);
    assert_eq!(reg.lookup(&code), None);
    assert_eq!(reg.host_count(), 1);
    assert_eq!(reg.lookup(&other).map(|e| e.client_id), Some(6));
}

#[test]
fn unregister_unknown_client_is_a_no_op() {
    let mut reg = PunchThroughServerRes::new();
    reg.register(1, addr(1)).expect("a fresh code");
    reg.unregister(99);
    assert_eq!(reg.host_count(), 1);
}

#[test]
fn at_most_one_host_per_code() {
    let mut reg = PunchThroughServerRes::new();
    assert!(reg.register_with_code(&b"AAAA1".to_vec(), 1, addr(1)));
    // same code for another client is refused outright
    assert!(!reg.register_with_code(&b"AAAA1".to_vec(), 2, addr(2)));
    assert_eq!(reg.host_count(), 1);
    let entry = reg.lookup(&b"AAAA1".to_vec()).expect("code resolves");
    assert_eq!(entry.client_id, 1);
}

#[test]
fn reregistering_replaces_own_lobby() {
    let mut reg = PunchThroughServerRes::new();
    assert!(reg.register_with_code(&b"AAAA1".to_vec(), 1, addr(1)));
    assert!(reg.register_with_code(&b"BBBB2".to_vec(), 1, addr(1)));
    assert_eq!(reg.lookup(&b"AAAA1".to_vec()), None);
    assert_eq!(reg.lookup(&b"BBBB2".to_vec()).map(|e| e.client_id), Some(1));
    assert_eq!(reg.lookup_client(1), Some(b"BBBB2".to_vec()));
    assert_eq!(reg.host_count(), 1);
}

#[test]
fn register_with_code_rejects_malformed_codes() {
    let mut reg = PunchThroughServerRes::new();
    assert!(!reg.register_with_code(&b"abc".to_vec(), 1, addr(1)));
    assert!(!reg.register_with_code(&b"abcde".to_vec(), 1, addr(1)));
    assert!(!reg.register_with_code(&b"AB DE".to_vec(), 1, addr(1)));
    assert!(!reg.register_with_code(&b"ABCDEF".to_vec(), 1, addr(1)));
    assert_eq!(reg.host_count(), 0);
}

#[test]
fn registered_codes_stay_distinct() {
    let mut reg = PunchThroughServerRes::new();
    let mut codes: Vec<Vec<u8>> = Vec::new();
    for client in 0..20u64 {
        let code = reg.register(client, addr(client as u16)).expect("a fresh code");
        assert!(!codes.contains(&code), "codes must never collide");
        codes.push(code);
    }
    assert_eq!(reg.host_count(), 20);
}
