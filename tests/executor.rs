use redis_starter_rust::command::{Command, SetParams};
use redis_starter_rust::keyspace::Keyspace;
use redis_starter_rust::processing::{process_command, Args, Server};
use redis_starter_rust::replication::{empty_snapshot, MasterReplicationInfo};
use redis_starter_rust::session::{Session, Step};

fn replid() -> Vec<u8> {
    let mut v = b"R".to_vec();
    v.extend(std::iter::repeat(b'x').take(39));
    v
}

fn server(replica: bool) -> Server {
    let args = Args {
        dir: Some(b"/tmp/redis-files".to_vec()),
        dbfilename: Some(b"dump.rdb".to_vec()),
        port: 6379,
        replicaof: if replica { Some(b"localhost 6379".to_vec()) } else { None },
    };
    Server::new(args, MasterReplicationInfo { replid: replid(), repl_offset: 0 })
}

/// Feeds `input` to the session and runs it until it needs more bytes;
/// returns everything it would send back, and the mutations it hands on.
fn run(server: &mut Server, session: &mut Session, input: &[u8], now: u64) -> (Vec<u8>, Vec<Vec<u8>>) {
    session.feed(input);
    let mut out = Vec::new();
    let mut propagated = Vec::new();
    loop {
        match session.step(server, now, false) {
            Step::Executed(o) => {
                if let Some(r) = o.reply {
                    out.extend(r);
                }
                if let Some(p) = o.propagate {
                    propagated.push(p);
                }
            }
            Step::Rejected(r) => {
                if let Some(r) = r {
                    out.extend(r);
                }
            }
            Step::NeedMore => break,
            Step::Close(_) => panic!("unexpected close"),
        }
    }
    (out, propagated)
}

fn reply(server: &mut Server, input: &[u8], now: u64) -> Vec<u8> {
    let mut session = Session::new(1, false);
    run(server, &mut session, input, now).0
}

#[test]
fn scenario_echo() {
    let mut s = server(false);
    assert_eq!(reply(&mut s, b"*2\r\n$4\r\nECHO\r\n$5\r\nhello\r\n", 0), b"$5\r\nhello\r\n".to_vec());
}

#[test]
fn scenario_ping() {
    let mut s = server(false);
    assert_eq!(reply(&mut s, b"*1\r\n$4\r\nPING\r\n", 0), b"+PONG\r\n".to_vec());
}

#[test]
fn scenario_set_then_get() {
    let mut s = server(false);
    assert_eq!(reply(&mut s, b"*3\r\n$3\r\nSET\r\n$3\r\nfoo\r\n$3\r\nbar\r\n", 1000), b"$2\r\nOK\r\n".to_vec());
    assert_eq!(reply(&mut s, b"*2\r\n$3\r\nGET\r\n$3\r\nfoo\r\n", 1001), b"$3\r\nbar\r\n".to_vec());
}

#[test]
fn scenario_set_px_then_get_after_expiry() {
    let mut s = server(false);
    assert_eq!(
        reply(&mut s, b"*5\r\n$3\r\nSET\r\n$1\r\na\r\n$1\r\n1\r\n$2\r\nPX\r\n$2\r\n10\r\n", 5000),
        b"$2\r\nOK\r\n".to_vec()
    );
    assert_eq!(reply(&mut s, b"*2\r\n$3\r\nGET\r\n$1\r\na\r\n", 5020), b"$-1\r\n".to_vec());
}

#[test]
fn scenario_info_on_master() {
    let mut s = server(false);
    let payload = format!("role:master\rmaster_replid:{}\rmaster_repl_offset:0", String::from_utf8(replid()).unwrap());
    let expected = format!("${}\r\n{}\r\n", payload.len(), payload);
    assert_eq!(
        reply(&mut s, b"*2\r\n$4\r\nINFO\r\n$11\r\nreplication\r\n", 0),
        expected.into_bytes()
    );
}

#[test]
fn info_on_replica_says_slave() {
    let mut s = server(true);
    let out = reply(&mut s, b"*2\r\n$4\r\nINFO\r\n$11\r\nreplication\r\n", 0);
    assert!(out.windows(10).any(|w| w == b"role:slave"));
}

#[test]
fn scenario_psync_full_resync() {
    let mut s = server(false);
    let mut session = Session::new(7, false);
    let (out, _) = run(&mut s, &mut session, b"*3\r\n$5\r\nPSYNC\r\n$1\r\n?\r\n$2\r\n-1\r\n", 0);
    let snapshot = empty_snapshot().unwrap();
    let mut expected = format!("+FULLRESYNC {} 0\r\n${}\r\n", String::from_utf8(replid()).unwrap(), snapshot.len()).into_bytes();
    expected.extend(&snapshot);
    assert_eq!(out, expected);
    assert_eq!(s.replicas.ids(), vec![7]);
}

#[test]
fn set_then_get_without_expiry_at_any_time() {
    let mut s = server(false);
    reply(&mut s, b"*3\r\n$3\r\nSET\r\n$1\r\nk\r\n$2\r\nv1\r\n", 10);
    assert_eq!(reply(&mut s, b"*2\r\n$3\r\nGET\r\n$1\r\nk\r\n", u64::MAX), b"$2\r\nv1\r\n".to_vec());
    reply(&mut s, b"*3\r\n$3\r\nSET\r\n$1\r\nk\r\n$2\r\nv2\r\n", 20);
    assert_eq!(reply(&mut s, b"*2\r\n$3\r\nGET\r\n$1\r\nk\r\n", 0), b"$2\r\nv2\r\n".to_vec());
}

#[test]
fn expiry_boundary_at_fifty_milliseconds() {
    let mut s = server(false);
    reply(&mut s, b"*5\r\n$3\r\nSET\r\n$1\r\nk\r\n$1\r\nv\r\n$2\r\nPX\r\n$2\r\n50\r\n", 1000);
    assert_eq!(reply(&mut s, b"*2\r\n$3\r\nGET\r\n$1\r\nk\r\n", 1049), b"$1\r\nv\r\n".to_vec());
    assert_eq!(reply(&mut s, b"*2\r\n$3\r\nGET\r\n$1\r\nk\r\n", 1050), b"$-1\r\n".to_vec());
    assert_eq!(reply(&mut s, b"*2\r\n$3\r\nGET\r\n$1\r\nk\r\n", 9999), b"$-1\r\n".to_vec());
}

#[test]
fn get_of_missing_key_is_null() {
    let mut s = server(false);
    assert_eq!(reply(&mut s, b"*2\r\n$3\r\nGET\r\n$4\r\nnope\r\n", 0), b"$-1\r\n".to_vec());
}

#[test]
fn unknown_config_key_names_the_key() {
    let mut s = server(false);
    assert_eq!(
        reply(&mut s, b"*3\r\n$6\r\nCONFIG\r\n$3\r\nGET\r\n$3\r\nfoo\r\n", 0),
        b"-Config key 'foo' unknown\r\n".to_vec()
    );
}

#[test]
fn config_get_dir_and_dbfilename() {
    let mut s = server(false);
    assert_eq!(
        reply(&mut s, b"*3\r\n$6\r\nCONFIG\r\n$3\r\nGET\r\n$3\r\ndir\r\n", 0),
        b"*2\r\n$3\r\ndir\r\n$16\r\n/tmp/redis-files\r\n".to_vec()
    );
    assert_eq!(
        reply(&mut s, b"*3\r\n$6\r\nCONFIG\r\n$3\r\nGET\r\n$10\r\nDBFILENAME\r\n", 0),
        b"*2\r\n$10\r\ndbfilename\r\n$8\r\ndump.rdb\r\n".to_vec()
    );
}

#[test]
fn keys_lists_every_key_once() {
    let mut s = server(false);
    reply(&mut s, b"*3\r\n$3\r\nSET\r\n$1\r\na\r\n$1\r\n1\r\n", 0);
    reply(&mut s, b"*3\r\n$3\r\nSET\r\n$1\r\nb\r\n$1\r\n2\r\n", 0);
    reply(&mut s, b"*3\r\n$3\r\nSET\r\n$1\r\na\r\n$1\r\n3\r\n", 0);
    let out = reply(&mut s, b"*2\r\n$4\r\nKEYS\r\n$1\r\n*\r\n", 0);
    let ab = b"*2\r\n$1\r\na\r\n$1\r\nb\r\n".to_vec();
    let ba = b"*2\r\n$1\r\nb\r\n$1\r\na\r\n".to_vec();
    assert!(out == ab || out == ba);
}

#[test]
fn unknown_command_is_an_error() {
    let mut s = server(false);
    assert_eq!(reply(&mut s, b"*1\r\n$3\r\nFOO\r\n", 0), b"-unknown command 'FOO'\r\n".to_vec());
}

#[test]
fn save_is_not_supported() {
    let mut s = server(false);
    assert_eq!(reply(&mut s, b"*1\r\n$4\r\nSAVE\r\n", 0), b"-ERR SAVE is not supported\r\n".to_vec());
}

#[test]
fn wait_counts_registered_replicas() {
    let mut s = server(false);
    assert_eq!(reply(&mut s, b"*3\r\n$4\r\nWAIT\r\n$1\r\n1\r\n$3\r\n500\r\n", 0), b":0\r\n".to_vec());
    s.replicas.register(3);
    s.replicas.register(4);
    assert_eq!(reply(&mut s, b"*3\r\n$4\r\nWAIT\r\n$1\r\n1\r\n$3\r\n500\r\n", 0), b":2\r\n".to_vec());
}

#[test]
fn replconf_during_handshake_is_acknowledged() {
    let mut s = server(false);
    assert_eq!(
        reply(&mut s, b"*3\r\n$8\r\nREPLCONF\r\n$14\r\nlistening-port\r\n$4\r\n6380\r\n", 0),
        b"+OK\r\n".to_vec()
    );
    assert_eq!(reply(&mut s, b"*3\r\n$8\r\nREPLCONF\r\n$4\r\ncapa\r\n$6\r\npsync2\r\n", 0), b"+OK\r\n".to_vec());
}

#[test]
fn rejected_requests_get_error_replies() {
    let mut s = server(false);
    assert_eq!(
        reply(&mut s, b"*1\r\n$3\r\nGET\r\n", 0),
        b"-ERR wrong number of arguments for 'GET' command\r\n".to_vec()
    );
    assert_eq!(
        reply(&mut s, b"*5\r\n$3\r\nSET\r\n$1\r\na\r\n$1\r\n1\r\n$2\r\nEX\r\n$2\r\n10\r\n", 0),
        b"-ERR syntax error\r\n".to_vec()
    );
}

#[test]
fn malformed_bytes_get_an_error_and_the_connection_goes_on() {
    let mut s = server(false);
    let mut session = Session::new(1, false);
    let (out, _) = run(&mut s, &mut session, b"*x\r\n", 0);
    assert_eq!(out, b"-ERR Protocol error: invalid header\r\n".to_vec());
    let (out, _) = run(&mut s, &mut session, b"*1\r\n$4\r\nPING\r\n", 0);
    assert_eq!(out, b"+PONG\r\n".to_vec());
}

#[test]
fn frame_cut_short_at_end_of_stream() {
    let mut s = server(false);
    let mut session = Session::new(1, false);
    session.feed(b"*1\r\n$4\r\nPI");
    assert!(matches!(session.step(&mut s, 0, false), Step::NeedMore));
    match session.step(&mut s, 0, true) {
        Step::Close(Some(r)) => assert_eq!(r, b"-ERR Protocol error: unexpected end of stream\r\n".to_vec()),
        _ => panic!("expected close"),
    }
    assert!(matches!(session.step(&mut s, 0, true), Step::Close(None)));
}

#[test]
fn replies_come_in_request_order() {
    let mut s = server(false);
    let out = reply(&mut s, b"*1\r\n$4\r\nPING\r\n*2\r\n$4\r\nECHO\r\n$1\r\nx\r\n*1\r\n$4\r\nPING\r\n", 0);
    assert_eq!(out, b"+PONG\r\n$1\r\nx\r\n+PONG\r\n".to_vec());
}

#[test]
fn master_propagates_sets_and_counts_offset() {
    let mut s = server(false);
    let mut session = Session::new(1, false);
    let set = b"*3\r\n$3\r\nSET\r\n$3\r\nfoo\r\n$3\r\nbar\r\n";
    let (_, propagated) = run(&mut s, &mut session, set, 0);
    assert_eq!(propagated, vec![set.to_vec()]);
    // nothing was written to a replica yet
    assert_eq!(s.info.repl_offset, 0);
    s.replicas.register(5);
    let (_, propagated) = run(&mut s, &mut session, set, 0);
    assert_eq!(propagated, vec![set.to_vec()]);
    assert_eq!(s.info.repl_offset, set.len() as u64);
    let (_, propagated) = run(&mut s, &mut session, b"*2\r\n$3\r\nGET\r\n$3\r\nfoo\r\n", 0);
    assert!(propagated.is_empty());
    assert_eq!(s.info.repl_offset, set.len() as u64);
}

#[test]
fn replica_applies_master_stream_and_matches_master() {
    let mut master = server(false);
    let mut client = Session::new(1, false);
    let mut stream = Vec::new();
    let sets: Vec<&[u8]> = vec![
        b"*3\r\n$3\r\nSET\r\n$1\r\na\r\n$1\r\n1\r\n",
        b"*3\r\n$3\r\nset\r\n$1\r\nb\r\n$1\r\n2\r\n",
        b"*3\r\n$3\r\nSET\r\n$1\r\na\r\n$1\r\n3\r\n",
    ];
    for set in sets {
        let (_, propagated) = run(&mut master, &mut client, set, 0);
        for p in propagated {
            stream.extend(p);
        }
    }
    let mut replica = server(true);
    let mut link = Session::new(9, true);
    let (out, _) = run(&mut replica, &mut link, &stream, 0);
    assert!(out.is_empty());
    for key in [b"a".as_slice(), b"b".as_slice()] {
        assert_eq!(master.keyspace.get(key, 0), replica.keyspace.get(key, 0));
    }
    assert_eq!(replica.keyspace.get(b"a", 0), Some(b"3".to_vec()));
    let mut mk = master.keyspace.keys();
    let mut rk = replica.keyspace.keys();
    mk.sort();
    rk.sort();
    assert_eq!(mk, rk);
}

#[test]
fn replica_offset_skips_replconf_frames() {
    let mut replica = server(true);
    let mut link = Session::new(9, true);
    let ping = b"*1\r\n$4\r\nPING\r\n";
    let set = b"*3\r\n$3\r\nSET\r\n$3\r\nfoo\r\n$1\r\n1\r\n";
    let getack = b"*3\r\n$8\r\nREPLCONF\r\n$6\r\nGETACK\r\n$1\r\n*\r\n";
    let (out, _) = run(&mut replica, &mut link, getack, 0);
    assert_eq!(out, b"*3\r\n$8\r\nREPLCONF\r\n$3\r\nACK\r\n$1\r\n0\r\n".to_vec());
    let mut input = Vec::new();
    input.extend(ping);
    input.extend(set);
    input.extend(getack);
    let (out, _) = run(&mut replica, &mut link, &input, 0);
    let offset = (ping.len() + set.len()).to_string();
    let expected = format!("*3\r\n$8\r\nREPLCONF\r\n$3\r\nACK\r\n${}\r\n{}\r\n", offset.len(), offset);
    assert_eq!(out, expected.into_bytes());
    assert_eq!(link.offset, (ping.len() + set.len()) as u64);
}

#[test]
fn replica_link_suppresses_replies() {
    let mut replica = server(true);
    let mut link = Session::new(9, true);
    let (out, _) = run(
        &mut replica,
        &mut link,
        b"*1\r\n$4\r\nPING\r\n*1\r\n$3\r\nFOO\r\n*2\r\n$3\r\nGET\r\n$1\r\na\r\n*1\r\n$3\r\nGET\r\n",
        0,
    );
    assert!(out.is_empty());
}

#[test]
fn process_command_directly() {
    let mut s = server(false);
    let set = Command::SetKey(SetParams { key: b"x".to_vec(), value: b"y".to_vec(), px: Some(5) });
    let o = process_command(&mut s, &set, 1, false, 0, 100);
    assert_eq!(o.reply, Some(b"$2\r\nOK\r\n".to_vec()));
    assert_eq!(o.propagate, Some(set.encode()));
    assert!(!o.became_replica);
    let o = process_command(&mut s, &Command::Get(b"x".to_vec()), 1, false, 0, 104);
    assert_eq!(o.reply, Some(b"$1\r\ny\r\n".to_vec()));
    let o = process_command(&mut s, &Command::Get(b"x".to_vec()), 1, false, 0, 105);
    assert_eq!(o.reply, Some(b"$-1\r\n".to_vec()));
}

#[test]
fn keyspace_keeps_expired_entries_until_overwritten() {
    let mut k = Keyspace::new();
    k.set(b"a".to_vec(), b"1".to_vec(), Some(10), 0);
    assert_eq!(k.get(b"a", 9), Some(b"1".to_vec()));
    assert_eq!(k.get(b"a", 10), None);
    assert_eq!(k.keys(), vec![b"a".to_vec()]);
    k.set(b"a".to_vec(), b"2".to_vec(), None, 20);
    assert_eq!(k.get(b"a", 30), Some(b"2".to_vec()));
}

#[test]
fn expiry_saturates_at_the_largest_instant() {
    let mut k = Keyspace::new();
    k.set(b"a".to_vec(), b"1".to_vec(), Some(100), u64::MAX - 10);
    assert_eq!(k.get(b"a", u64::MAX - 1), Some(b"1".to_vec()));
}
