use redis_starter_rust::command::{Command, SetParams};
use redis_starter_rust::replication::{
    fullresync_reply, handshake_start, handshake_step, parse_replicaof, snapshot_received,
    HandshakeError, HandshakeState, MasterReplicationInfo, ReplicaRegistry,
};

#[test]
fn replid_is_forty_alphanumerics() {
    let a = MasterReplicationInfo::new();
    assert_eq!(a.replid.len(), 40);
    assert!(a.replid.iter().all(|b| b.is_ascii_alphanumeric()));
    assert_eq!(a.repl_offset, 0);
    let b = MasterReplicationInfo::new();
    assert_ne!(a.replid, b.replid);
}

#[test]
fn fullresync_reply_has_no_trailing_line_end() {
    assert_eq!(fullresync_reply(b"abc", b"XY"), b"+FULLRESYNC abc 0\r\n$2\r\nXY".to_vec());
}

#[test]
fn handshake_runs_in_order() {
    let (state, ping) = handshake_start(6380);
    assert_eq!(state, HandshakeState::Pinging);
    assert_eq!(ping, b"*1\r\n$4\r\nPING\r\n".to_vec());
    let (state, msg) = handshake_step(state, 6380, b"+PONG\r\n").unwrap();
    assert_eq!(state, HandshakeState::CapaPort);
    assert_eq!(msg.unwrap(), b"*3\r\n$8\r\nREPLCONF\r\n$14\r\nlistening-port\r\n$4\r\n6380\r\n".to_vec());
    let (state, msg) = handshake_step(state, 6380, b"+OK\r\n").unwrap();
    assert_eq!(state, HandshakeState::CapaPsync2);
    assert_eq!(msg.unwrap(), b"*3\r\n$8\r\nREPLCONF\r\n$4\r\ncapa\r\n$6\r\npsync2\r\n".to_vec());
    let (state, msg) = handshake_step(state, 6380, b"+OK\r\n").unwrap();
    assert_eq!(state, HandshakeState::Psync);
    assert_eq!(msg.unwrap(), b"*3\r\n$5\r\nPSYNC\r\n$1\r\n?\r\n$2\r\n-1\r\n".to_vec());
    let (state, msg) = handshake_step(state, 6380, b"+FULLRESYNC 0123456789012345678901234567890123456789 0\r\n").unwrap();
    assert_eq!(state, HandshakeState::AwaitingSnapshot);
    assert!(msg.is_none());
    assert_eq!(snapshot_received(state), Ok(HandshakeState::Streaming));
}

#[test]
fn handshake_accepts_ok_for_ping() {
    let (state, _) = handshake_start(1);
    assert_eq!(handshake_step(state, 1, b"+OK\r\n").unwrap().0, HandshakeState::CapaPort);
}

#[test]
fn handshake_fails_on_unexpected_reply() {
    let (state, _) = handshake_start(1);
    assert_eq!(handshake_step(state, 1, b"-ERR no\r\n").err(), Some(HandshakeError::UnexpectedReply));
    assert_eq!(
        handshake_step(HandshakeState::Psync, 1, b"+CONTINUE\r\n").err(),
        Some(HandshakeError::UnexpectedReply)
    );
    assert_eq!(snapshot_received(HandshakeState::Pinging), Err(HandshakeError::UnexpectedReply));
    assert_eq!(
        handshake_step(HandshakeState::Streaming, 1, b"+OK\r\n").err(),
        Some(HandshakeError::UnexpectedReply)
    );
}

#[test]
fn replicaof_splits_host_and_port() {
    assert_eq!(parse_replicaof(b"localhost 6379"), Some((b"localhost".to_vec(), 6379)));
    assert_eq!(parse_replicaof(b"localhost"), None);
    assert_eq!(parse_replicaof(b" 6379"), None);
    assert_eq!(parse_replicaof(b"localhost 65536"), None);
    assert_eq!(parse_replicaof(b"localhost x"), None);
}

#[test]
fn registry_keeps_registration_order() {
    let mut r = ReplicaRegistry::new();
    r.register(5);
    r.register(2);
    r.register(5);
    r.register(9);
    assert_eq!(r.ids(), vec![5, 2, 9]);
    assert!(r.contains(2));
    r.remove(2);
    assert_eq!(r.ids(), vec![5, 9]);
    assert!(!r.contains(2));
    assert_eq!(r.count(), 2);
}

#[test]
fn replica_handshake_frames_round_trip() {
    let c = Command::SetKey(SetParams { key: b"k".to_vec(), value: b"v".to_vec(), px: None });
    assert_eq!(c.encode(), b"*3\r\n$3\r\nSET\r\n$1\r\nk\r\n$1\r\nv\r\n".to_vec());
}
