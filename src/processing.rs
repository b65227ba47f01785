//! The command executor: the reply to each request, its effect on the
//! keyspace, and the mutations handed to the replication plane.
use crate::command::{command_parts, copy_bytes, encode_parts, Command, CommandModel};
use crate::decimal::decimal;
use crate::frame::parts_view;
use crate::keyspace::{expiry_of, live_value, KeyMap, Keyspace};
use crate::replication::{
    empty_snapshot, empty_snapshot_bytes, fullresync_bytes, fullresync_reply,
    MasterReplicationInfo, ReplicaRegistry,
};
use crate::resp::{
    append, append_decimal, array_bytes, bulk_bytes, error_bytes,
    frame_bytes, integer_bytes, simple_bytes, Array, BaseError, BulkString, RespInteger,
    SimpleString,
};
use crate::text::{text, text_bytes, Text};
use crate::words::{is_name, is_word, upper, word, word_bytes, word_upper, Word};
use vstd::prelude::*;

verus! {

/// The server's settings.
pub struct Args {
    /// The directory of the snapshot file.
    pub dir: Option<Vec<u8>>,
    /// The name of the snapshot file.
    pub dbfilename: Option<Vec<u8>>,
    /// The port to listen on.
    pub port: u16,
    /// `<host> <port>` of the master, when this server is a replica.
    pub replicaof: Option<Vec<u8>>,
}

/// An optional byte string, viewed.
pub open spec fn opt_view(o: Option<Vec<u8>>) -> Option<Seq<u8>> {
    match o {
        Some(v) => Some(v@),
        None => None,
    }
}

/// The state a request is executed against.
pub struct Server {
    pub args: Args,
    pub info: MasterReplicationInfo,
    pub keyspace: Keyspace,
    pub replicas: ReplicaRegistry,
}

impl Server {
    pub open spec fn wf(&self) -> bool {
        self.keyspace.wf() && self.replicas.wf()
    }

    /// A server with an empty keyspace and no replicas.
    pub fn new(args: Args, info: MasterReplicationInfo) -> (r: Server)
        ensures
            r.wf(),
            r.args == args,
            r.info == info,
            r.keyspace@ == KeyMap::empty(),
            r.replicas@ == Seq::<u64>::empty(),
    {
        Server { args, info, keyspace: Keyspace::new(), replicas: ReplicaRegistry::new() }
    }
}

/// What executing a request gives.
pub struct Outcome {
    /// The bytes to send back on the connection, if any.
    pub reply: Option<Vec<u8>>,
    /// The mutation to send to every replica, in registration order.
    pub propagate: Option<Vec<u8>>,
    /// The connection is now registered as a replica.
    pub became_replica: bool,
}

/// The keyspace after executing `c` at `now`: a `SET` replaces its key's
/// entry; nothing else writes.
pub open spec fn apply_command(m: KeyMap, c: CommandModel, now: u64) -> KeyMap {
    match c {
        CommandModel::SetKey(k, v, px) => m.insert(k, (v, expiry_of(now, px))),
        _ => m,
    }
}

/// The reply to `GET key` at `now`.
pub open spec fn get_reply(m: KeyMap, key: Seq<u8>, now: u64) -> Seq<u8> {
    bulk_bytes(live_value(m, key, now))
}

/// The reply to `INFO replication`:
/// `role:<master|slave>\rmaster_replid:<id>\rmaster_repl_offset:<n>` in a bulk string.
pub open spec fn info_bytes(replica: bool, replid: Seq<u8>, offset: u64) -> Seq<u8> {
    let role = if replica {
        text(Text::RoleSlave)
    } else {
        text(Text::RoleMaster)
    };
    bulk_bytes(
        Some(
            role + seq![13u8] + text(Text::MasterReplid) + replid + seq![13u8] + text(
                Text::MasterReplOffset,
            ) + decimal(offset as nat),
        ),
    )
}

/// The reply to `CONFIG GET field`.
pub open spec fn config_reply(
    dir: Option<Seq<u8>>,
    dbfilename: Option<Seq<u8>>,
    field: Seq<u8>,
) -> Seq<u8> {
    if is_name(field, word(Word::Dir)) {
        array_bytes(seq![Some(word(Word::Dir)), dir])
    } else if is_name(field, word(Word::DbFilename)) {
        array_bytes(seq![Some(word(Word::DbFilename)), dbfilename])
    } else {
        error_bytes(text(Text::ConfigKey) + field + text(Text::Unknown))
    }
}

/// The acknowledgement `REPLCONF ACK <offset>`.
pub open spec fn ack_bytes(offset: u64) -> Seq<u8> {
    frame_bytes(seq![upper(word(Word::ReplConf)), upper(word(Word::Ack)), decimal(offset as nat)])
}

/// The reply to an unknown command.
pub open spec fn unknown_bytes(name: Seq<u8>) -> Seq<u8> {
    error_bytes(text(Text::UnknownCommand) + name + text(Text::Quote))
}

/// Whether `ks` lists every key of `m` once, in some order.
pub open spec fn listing(m: KeyMap, ks: Seq<Seq<u8>>) -> bool {
    &&& forall|i: int| 0 <= i < ks.len() ==> m.contains_key(#[trigger] ks[i])
    &&& forall|k: Seq<u8>| #[trigger] m.contains_key(k) ==> ks.contains(k)
    &&& ks.no_duplicates()
}

/// Whether `c` is `REPLCONF GETACK ...`.
pub open spec fn is_getack(c: CommandModel) -> bool {
    c matches CommandModel::ReplConf(k, _) && is_name(k, word(Word::GetAck))
}

/// The reply to `c` when it does not come from the master, for every
/// command but `KEYS` and `PSYNC`, whose replies `process_command` states
/// apart.
pub open spec fn reply_spec(s: Server, c: CommandModel, link_offset: u64, now: u64) -> Option<
    Seq<u8>,
> {
    match c {
        CommandModel::Ping => Some(simple_bytes(text(Text::Pong))),
        CommandModel::Echo(x) => Some(bulk_bytes(Some(x))),
        CommandModel::Get(k) => Some(get_reply(s.keyspace@, k, now)),
        CommandModel::SetKey(_, _, _) => Some(bulk_bytes(Some(text(Text::Okay)))),
        CommandModel::Info(_) => Some(
            info_bytes(s.args.replicaof is Some, s.info.replid@, s.info.repl_offset),
        ),
        CommandModel::Config(f) => Some(
            config_reply(opt_view(s.args.dir), opt_view(s.args.dbfilename), f),
        ),
        CommandModel::Wait(_, _) => Some(integer_bytes(clamp_i64(s.replicas@.len() as int))),
        CommandModel::Save => Some(error_bytes(text(Text::SaveUnsupported))),
        CommandModel::Unknown(n) => Some(unknown_bytes(n)),
        CommandModel::ReplConf(k, _) => if is_name(k, word(Word::GetAck)) {
            Some(ack_bytes(link_offset))
        } else if is_name(k, word(Word::Ack)) {
            None
        } else {
            Some(simple_bytes(text(Text::Okay)))
        },
        _ => None,
    }
}

/// `n`, or the largest `i64` when `n` is larger.
pub open spec fn clamp_i64(n: int) -> int {
    if n > i64::MAX {
        i64::MAX as int
    } else {
        n
    }
}

/// Whether executing `c` sends a mutation to the replicas: a `SET` that
/// a master takes from a client.
pub open spec fn propagates(s: Server, c: CommandModel, from_master: bool) -> bool {
    c is SetKey && !from_master && s.args.replicaof is None
}

/// `a + b`, or the largest `u64` when that overflows.
pub open spec fn sat_add(a: u64, b: int) -> u64 {
    if a + b > u64::MAX {
        u64::MAX
    } else {
        (a + b) as u64
    }
}

/// What executing `c` from connection `conn` at `now` does: `s` is the
/// server before, `t` after, `r` the outcome. A mutation goes down the
/// replication stream, and `repl_offset` grows by its length while a
/// replica is registered to receive it.
pub open spec fn executes(
    s: Server,
    t: Server,
    c: CommandModel,
    conn: u64,
    from_master: bool,
    link_offset: u64,
    now: u64,
    r: Outcome,
) -> bool {
    &&& t.args == s.args
    &&& t.info.replid == s.info.replid
    &&& t.keyspace@ == apply_command(s.keyspace@, c, now)
    &&& if propagates(s, c, from_master) {
        &&& r.propagate matches Some(p) && p@ == frame_bytes(command_parts(c))
        &&& t.info.repl_offset == if s.replicas@.len() > 0 {
            sat_add(s.info.repl_offset, frame_bytes(command_parts(c)).len() as int)
        } else {
            s.info.repl_offset
        }
    } else {
        r.propagate is None && t.info.repl_offset == s.info.repl_offset
    }
    &&& r.became_replica <==> (c is PSync && !from_master && empty_snapshot_bytes() is Some)
    &&& t.replicas@ == if r.became_replica {
        if s.replicas@.contains(conn) {
            s.replicas@
        } else {
            s.replicas@.push(conn)
        }
    } else {
        s.replicas@
    }
    &&& if from_master {
        if is_getack(c) {
            r.reply matches Some(b) && b@ == ack_bytes(link_offset)
        } else {
            r.reply is None
        }
    } else {
        match c {
            CommandModel::Keys(_) => r.reply is Some && exists|ks: Seq<Seq<u8>>|
                listing(s.keyspace@, ks) && #[trigger] frame_bytes(ks) == r.reply->0@,
            CommandModel::PSync(_, _) => match empty_snapshot_bytes() {
                Some(snapshot) => r.reply matches Some(b) && b@ == fullresync_bytes(
                    s.info.replid@,
                    snapshot,
                ),
                None => r.reply matches Some(b) && b@ == error_bytes(
                    text(Text::SnapshotUnavailable),
                ),
            },
            _ => match reply_spec(s, c, link_offset, now) {
                Some(x) => r.reply matches Some(b) && b@ == x,
                None => r.reply is None,
            },
        }
    }
}

/// Executes `command` from connection `conn` at instant `now` (milliseconds
/// since the Unix epoch). `from_master` tells that the connection is this
/// replica's link to its master, whose commands are applied without a
/// reply (but for `REPLCONF GETACK`); `link_offset` is the byte offset
/// reported on that link.
pub fn process_command(
    server: &mut Server,
    command: &Command,
    conn: u64,
    from_master: bool,
    link_offset: u64,
    now: u64,
) -> (r: Outcome)
    requires
        old(server).wf(),
    ensures
        final(server).wf(),
        executes(*old(server), *final(server), command@, conn, from_master, link_offset, now, r),
{
    let mut reply: Option<Vec<u8>> = None;
    let mut propagate: Option<Vec<u8>> = None;
    let mut became_replica = false;
    match command {
        Command::Ping => {
            reply = Some(SimpleString { value: text_bytes(Text::Pong) }.encode());
        },
        Command::Echo(x) => {
            reply = Some(BulkString { payload: Some(copy_bytes(x)) }.encode());
        },
        Command::Get(k) => {
            let v = server.keyspace.get(k.as_slice(), now);
            reply = Some(BulkString { payload: v }.encode());
        },
        Command::SetKey(p) => {
            server.keyspace.set(copy_bytes(&p.key), copy_bytes(&p.value), p.px, now);
            if !from_master && server.args.replicaof.is_none() {
                let frame = command.encode();
                if server.replicas.count() > 0 {
                    server.info.repl_offset = server.info.repl_offset.saturating_add(
                        frame.len() as u64,
                    );
                }
                propagate = Some(frame);
            }
            reply = Some(BulkString { payload: Some(text_bytes(Text::Okay)) }.encode());
        },
        Command::Keys(_) => {
            let ks = server.keyspace.keys();
            proof {
                let pv = parts_view(ks@);
                assert forall|k: Seq<u8>| #[trigger]
                    old(server).keyspace@.contains_key(k) implies pv.contains(k) by {
                    let i = choose|i: int| 0 <= i < ks.len() && ks@[i]@ == k;
                    assert(pv[i] == k);
                }
                assert(listing(old(server).keyspace@, pv));
            }
            reply = Some(encode_parts(&ks));
        },
        Command::Info(_) => {
            reply = Some(info_reply(server));
        },
        Command::Config(f) => {
            reply = Some(config_get(&server.args, f));
        },
        Command::Wait(_, _) => {
            let n = server.replicas.count();
            let value: i64 = if n as u64 > 9223372036854775807u64 {
                i64::MAX
            } else {
                n as i64
            };
            reply = Some(RespInteger { value }.encode());
        },
        Command::Save => {
            reply = Some(BaseError { message: text_bytes(Text::SaveUnsupported) }.encode());
        },
        Command::Unknown(n) => {
            let mut message = text_bytes(Text::UnknownCommand);
            append(&mut message, n.as_slice());
            let q = text_bytes(Text::Quote);
            append(&mut message, q.as_slice());
            reply = Some(BaseError { message }.encode());
        },
        Command::ReplConf(k, _) => {
            if is_word(k.as_slice(), Word::GetAck) {
                reply = Some(ack_reply(link_offset));
            } else if is_word(k.as_slice(), Word::Ack) {
                reply = None;
            } else {
                reply = Some(SimpleString { value: text_bytes(Text::Okay) }.encode());
            }
        },
        Command::PSync(_, _) => {
            if !from_master {
                match empty_snapshot() {
                    Some(snapshot) => {
                        reply = Some(
                            fullresync_reply(server.info.replid.as_slice(), snapshot.as_slice()),
                        );
                        server.replicas.register(conn);
                        became_replica = true;
                    },
                    None => {
                        reply = Some(
                            BaseError { message: text_bytes(Text::SnapshotUnavailable) }.encode(),
                        );
                    },
                }
            }
        },
    }
    if from_master && !(is_getack_command(command)) {
        reply = None;
    }
    Outcome { reply, propagate, became_replica }
}

fn is_getack_command(c: &Command) -> (r: bool)
    ensures
        r == is_getack(c@),
{
    match c {
        Command::ReplConf(k, _) => is_word(k.as_slice(), Word::GetAck),
        _ => false,
    }
}

/// A `SET` without expiry, then a `GET` of the same key at any later (or
/// earlier) instant, answers the value that was set.
pub proof fn lemma_set_then_get(m: KeyMap, k: Seq<u8>, v: Seq<u8>, t1: u64, t2: u64)
    ensures
        get_reply(apply_command(m, CommandModel::SetKey(k, v, None), t1), k, t2) == bulk_bytes(
            Some(v),
        ),
{
}

/// A `SET` with `PX px` at `t1`: a `GET` before `t1 + px` answers the value,
/// a `GET` from `t1 + px` on answers the null bulk string (when `t1 + px`
/// is an instant the clock can show).
pub proof fn lemma_set_px_then_get(m: KeyMap, k: Seq<u8>, v: Seq<u8>, px: u32, t1: u64, t2: u64)
    requires
        t1 + px <= u64::MAX,
    ensures
        t2 < t1 + px ==> get_reply(apply_command(m, CommandModel::SetKey(k, v, Some(px)), t1), k, t2)
            == bulk_bytes(Some(v)),
        t2 >= t1 + px ==> get_reply(
            apply_command(m, CommandModel::SetKey(k, v, Some(px)), t1),
            k,
            t2,
        ) == bulk_bytes(None),
{
}

/// `CONFIG GET` of any field but `dir` and `dbfilename` answers an error
/// whose message holds the field's name, right after `Config key '`.
pub proof fn lemma_unknown_config_key(dir: Option<Seq<u8>>, dbfilename: Option<Seq<u8>>, field: Seq<u8>)
    requires
        !is_name(field, word(Word::Dir)),
        !is_name(field, word(Word::DbFilename)),
    ensures
        exists|message: Seq<u8>|
            config_reply(dir, dbfilename, field) == error_bytes(message) && message.subrange(
                12,
                12 + field.len() as int,
            ) == field,
{
    let message = text(Text::ConfigKey) + field + text(Text::Unknown);
    assert(text(Text::ConfigKey).len() == 12);
    assert(message.subrange(12, 12 + field.len() as int) == field);
    assert(config_reply(dir, dbfilename, field) == error_bytes(message));
}

/// `REPLCONF ACK <offset>` as an array of bulk strings.
pub fn ack_reply(offset: u64) -> (r: Vec<u8>)
    ensures
        r@ == ack_bytes(offset),
{
    let mut parts: Vec<Vec<u8>> = Vec::new();
    parts.push(word_upper(Word::ReplConf));
    parts.push(word_upper(Word::Ack));
    parts.push(crate::decimal::format_u64(offset));
    assert(parts_view(parts@) == seq![
        upper(word(Word::ReplConf)),
        upper(word(Word::Ack)),
        decimal(offset as nat),
    ]);
    encode_parts(&parts)
}

/// The reply to `INFO replication`.
pub fn info_reply(server: &Server) -> (r: Vec<u8>)
    ensures
        r@ == info_bytes(server.args.replicaof is Some, server.info.replid@, server.info.repl_offset),
{
    let mut payload = if server.args.replicaof.is_some() {
        text_bytes(Text::RoleSlave)
    } else {
        text_bytes(Text::RoleMaster)
    };
    let ghost role = payload@;
    payload.push(13);
    let t = text_bytes(Text::MasterReplid);
    append(&mut payload, t.as_slice());
    append(&mut payload, server.info.replid.as_slice());
    payload.push(13);
    let t2 = text_bytes(Text::MasterReplOffset);
    append(&mut payload, t2.as_slice());
    append_decimal(&mut payload, server.info.repl_offset);
    assert(payload@ == role + seq![13u8] + text(Text::MasterReplid) + server.info.replid@ + seq![
        13u8,
    ] + text(Text::MasterReplOffset) + decimal(server.info.repl_offset as nat));
    BulkString { payload: Some(payload) }.encode()
}

fn copy_opt(o: &Option<Vec<u8>>) -> (r: Option<Vec<u8>>)
    ensures
        opt_view(r) == opt_view(*o),
{
    match o {
        Some(v) => Some(copy_bytes(v)),
        None => None,
    }
}

/// The reply to `CONFIG GET field`.
pub fn config_get(args: &Args, field: &Vec<u8>) -> (r: Vec<u8>)
    ensures
        r@ == config_reply(opt_view(args.dir), opt_view(args.dbfilename), field@),
{
    if is_word(field.as_slice(), Word::Dir) {
        let a = Array {
            payload: vec![
                BulkString { payload: Some(word_bytes(Word::Dir)) },
                BulkString { payload: copy_opt(&args.dir) },
            ],
        };
        assert(a@ == seq![Some(word(Word::Dir)), opt_view(args.dir)]);
        a.encode()
    } else if is_word(field.as_slice(), Word::DbFilename) {
        let a = Array {
            payload: vec![
                BulkString { payload: Some(word_bytes(Word::DbFilename)) },
                BulkString { payload: copy_opt(&args.dbfilename) },
            ],
        };
        assert(a@ == seq![Some(word(Word::DbFilename)), opt_view(args.dbfilename)]);
        a.encode()
    } else {
        let mut message = text_bytes(Text::ConfigKey);
        append(&mut message, field.as_slice());
        let t = text_bytes(Text::Unknown);
        append(&mut message, t.as_slice());
        BaseError { message }.encode()
    }
}

} // verus!
