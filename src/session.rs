//! The connection loop's decisions: take a frame from the bytes read so
//! far, execute it, and say what to send. The loop itself (reading,
//! writing, waiting) is the caller's.
use crate::command::{
    command_from_parts, command_of, command_parts, lemma_request_round_trip, sendable,
    CommandModel, Rejection,
};
use crate::frame::{
    lemma_frame_round_trip, lemma_frame_shape, parse_frame, parts_fit, scan_frame, Frame,
    FrameError, Scan, MAX_ARGS,
};
use crate::keyspace::KeyMap;
use crate::processing::{apply_command, executes, process_command, sat_add, Outcome, Server};
use crate::resp::{append, error_bytes, frame_bytes, BaseError};
use crate::text::{text, text_bytes, Text};
use crate::words::{is_name, is_word, word, Word};
use vstd::prelude::*;

verus! {

/// One connection's state: the bytes received and not yet used, and the
/// byte offset of the frames taken from it.
pub struct Session {
    pub buffer: Vec<u8>,
    /// The connection's identifier.
    pub conn: u64,
    /// The connection is this replica's link to its master.
    pub from_master: bool,
    /// The total length of the frames taken so far, `REPLCONF` frames apart.
    pub offset: u64,
}

/// What one step of a connection gives.
pub enum Step {
    /// A frame was taken and executed.
    Executed(Outcome),
    /// A frame was taken, or unusable bytes dropped, with this error reply
    /// (none on the link to the master).
    Rejected(Option<Vec<u8>>),
    /// More bytes are needed.
    NeedMore,
    /// The stream has ended: send the reply, if any, then close.
    Close(Option<Vec<u8>>),
}

/// The offset after a frame of `n` bytes with elements `parts`: `REPLCONF`
/// frames do not count.
pub open spec fn advance(off: u64, parts: Seq<Seq<u8>>, n: int) -> u64 {
    if is_name(parts[0], word(Word::ReplConf)) {
        off
    } else {
        sat_add(off, n)
    }
}

/// The error reply to a frame that is not a valid request.
pub open spec fn rejection_bytes(e: Rejection, name: Seq<u8>) -> Seq<u8> {
    match e {
        Rejection::WrongArity => error_bytes(
            text(Text::WrongArity) + name + text(Text::CommandSuffix),
        ),
        Rejection::Syntax => error_bytes(text(Text::SyntaxError)),
        Rejection::NotAnInteger => error_bytes(text(Text::NotAnInteger)),
    }
}

/// The error reply to bytes that are not a frame.
pub open spec fn frame_error_bytes(e: FrameError) -> Seq<u8> {
    match e {
        FrameError::BadHeader => error_bytes(text(Text::BadHeader)),
        FrameError::BadLength => error_bytes(text(Text::BadLength)),
        FrameError::LengthMismatch => error_bytes(text(Text::LengthMismatch)),
        FrameError::PrematureEof => error_bytes(text(Text::PrematureEof)),
    }
}

/// The error reply to a frame that is not a valid request.
pub fn rejection_reply(e: Rejection, name: &[u8]) -> (r: Vec<u8>)
    ensures
        r@ == rejection_bytes(e, name@),
{
    let message = match e {
        Rejection::WrongArity => {
            let mut m = text_bytes(Text::WrongArity);
            append(&mut m, name);
            let t = text_bytes(Text::CommandSuffix);
            append(&mut m, t.as_slice());
            m
        },
        Rejection::Syntax => text_bytes(Text::SyntaxError),
        Rejection::NotAnInteger => text_bytes(Text::NotAnInteger),
    };
    BaseError { message }.encode()
}

/// The error reply to bytes that are not a frame.
pub fn frame_error_reply(e: FrameError) -> (r: Vec<u8>)
    ensures
        r@ == frame_error_bytes(e),
{
    let t = match e {
        FrameError::BadHeader => Text::BadHeader,
        FrameError::BadLength => Text::BadLength,
        FrameError::LengthMismatch => Text::LengthMismatch,
        FrameError::PrematureEof => Text::PrematureEof,
    };
    BaseError { message: text_bytes(t) }.encode()
}

/// `buf` without its first `n` bytes.
fn drop_front(buf: &Vec<u8>, n: usize) -> (r: Vec<u8>)
    requires
        n <= buf.len(),
    ensures
        r@ == buf@.subrange(n as int, buf.len() as int),
{
    let mut out: Vec<u8> = Vec::new();
    let mut i: usize = n;
    while i < buf.len()
        invariant
            n <= i <= buf.len(),
            out@ == buf@.subrange(n as int, i as int),
        decreases buf.len() - i,
    {
        out.push(buf[i]);
        i = i + 1;
        assert(out@ == buf@.subrange(n as int, i as int));
    }
    out
}

impl Session {
    /// A connection with nothing received yet.
    pub fn new(conn: u64, from_master: bool) -> (r: Session)
        ensures
            r.buffer@ == Seq::<u8>::empty(),
            r.conn == conn,
            r.from_master == from_master,
            r.offset == 0,
    {
        Session { buffer: Vec::new(), conn, from_master, offset: 0 }
    }

    /// Appends bytes read from the connection.
    pub fn feed(&mut self, bytes: &[u8])
        ensures
            final(self).buffer@ == old(self).buffer@ + bytes@,
            final(self).conn == old(self).conn,
            final(self).from_master == old(self).from_master,
            final(self).offset == old(self).offset,
    {
        append(&mut self.buffer, bytes);
    }

    /// Takes the next frame from the buffer and executes it at `now`;
    /// `at_eof` tells that the connection will bring no more bytes. A frame
    /// that cannot be read drops the buffered bytes, so that reading starts
    /// afresh with the next bytes.
    pub fn step(&mut self, server: &mut Server, now: u64, at_eof: bool) -> (r: Step)
        requires
            old(server).wf(),
        ensures
            final(server).wf(),
            final(self).conn == old(self).conn,
            final(self).from_master == old(self).from_master,
            match scan_frame(old(self).buffer@) {
                Scan::Found(parts, n) => {
                    &&& final(self).buffer@ == old(self).buffer@.subrange(
                        n,
                        old(self).buffer@.len() as int,
                    )
                    &&& final(self).offset == advance(old(self).offset, parts, n)
                    &&& match command_of(parts) {
                        Ok(c) => r matches Step::Executed(o) && executes(
                            *old(server),
                            *final(server),
                            c,
                            old(self).conn,
                            old(self).from_master,
                            old(self).offset,
                            now,
                            o,
                        ),
                        Err(e) => {
                            &&& r matches Step::Rejected(reply)
                            &&& *final(server) == *old(server)
                            &&& if old(self).from_master {
                                reply is None
                            } else {
                                reply matches Some(b) && b@ == rejection_bytes(e, parts[0])
                            }
                        },
                    }
                },
                Scan::Short => {
                    &&& *final(server) == *old(server)
                    &&& final(self).offset == old(self).offset
                    &&& if !at_eof {
                        &&& r is NeedMore
                        &&& final(self).buffer@ == old(self).buffer@
                    } else if old(self).buffer@.len() == 0 {
                        r matches Step::Close(reply) && reply is None
                    } else {
                        &&& final(self).buffer@.len() == 0
                        &&& r matches Step::Close(reply)
                        &&& if old(self).from_master {
                            reply is None
                        } else {
                            reply matches Some(b) && b@ == frame_error_bytes(
                                FrameError::PrematureEof,
                            )
                        }
                    }
                },
                Scan::Bad(e) => {
                    &&& *final(server) == *old(server)
                    &&& final(self).offset == old(self).offset
                    &&& final(self).buffer@.len() == 0
                    &&& r matches Step::Rejected(reply)
                    &&& if old(self).from_master {
                        reply is None
                    } else {
                        reply matches Some(b) && b@ == frame_error_bytes(e)
                    }
                },
            },
    {
        proof {
            lemma_frame_shape(self.buffer@);
        }
        match parse_frame(self.buffer.as_slice()) {
            Frame::Complete(parts, n) => {
                let counted = !is_word(parts[0].as_slice(), Word::ReplConf);
                let link_offset = self.offset;
                self.buffer = drop_front(&self.buffer, n);
                if counted {
                    self.offset = self.offset.saturating_add(n as u64);
                }
                match command_from_parts(&parts) {
                    Ok(c) => {
                        let o = process_command(server, &c, self.conn, self.from_master, link_offset, now);
                        Step::Executed(o)
                    },
                    Err(e) => {
                        if self.from_master {
                            Step::Rejected(None)
                        } else {
                            Step::Rejected(Some(rejection_reply(e, parts[0].as_slice())))
                        }
                    },
                }
            },
            Frame::Incomplete => {
                if !at_eof {
                    Step::NeedMore
                } else if self.buffer.len() == 0 {
                    Step::Close(None)
                } else {
                    self.buffer = Vec::new();
                    if self.from_master {
                        Step::Close(None)
                    } else {
                        Step::Close(Some(frame_error_reply(FrameError::PrematureEof)))
                    }
                }
            },
            Frame::Malformed(e) => {
                self.buffer = Vec::new();
                if self.from_master {
                    Step::Rejected(None)
                } else {
                    Step::Rejected(Some(frame_error_reply(e)))
                }
            },
        }
    }
}

/// The frames of `frames`, one after the other.
pub open spec fn stream(frames: Seq<Seq<Seq<u8>>>) -> Seq<u8>
    decreases frames.len(),
{
    if frames.len() == 0 {
        Seq::empty()
    } else {
        frame_bytes(frames[0]) + stream(frames.drop_first())
    }
}

/// Whether every element of `frames` can be sent as a frame.
pub open spec fn valid_frames(frames: Seq<Seq<Seq<u8>>>) -> bool {
    forall|i: int|
        0 <= i < frames.len() ==> 1 <= (#[trigger] frames[i]).len() <= MAX_ARGS && parts_fit(
            frames[i],
        )
}

/// The offset after `k` steps that take frames from `s`, from offset `off`.
pub open spec fn replay_offset(off: u64, s: Seq<u8>, k: nat) -> u64
    decreases k,
{
    if k == 0 {
        off
    } else {
        match scan_frame(s) {
            Scan::Found(parts, n) => replay_offset(
                advance(off, parts, n),
                s.subrange(n, s.len() as int),
                (k - 1) as nat,
            ),
            _ => off,
        }
    }
}

/// The total length of the frames of `frames` that are not `REPLCONF`.
pub open spec fn counted_len(frames: Seq<Seq<Seq<u8>>>) -> int
    decreases frames.len(),
{
    if frames.len() == 0 {
        0
    } else {
        (if is_name(frames[0][0], word(Word::ReplConf)) {
            0
        } else {
            frame_bytes(frames[0]).len() as int
        }) + counted_len(frames.drop_first())
    }
}

proof fn lemma_counted_len_nonneg(frames: Seq<Seq<Seq<u8>>>)
    ensures
        counted_len(frames) >= 0,
    decreases frames.len(),
{
    if frames.len() > 0 {
        lemma_counted_len_nonneg(frames.drop_first());
    }
}

/// A replica that takes a stream of frames one by one reports as its offset
/// the summed lengths of the frames that are not `REPLCONF` (while that sum
/// fits in a `u64`).
pub proof fn lemma_offset_skips_replconf(off: u64, frames: Seq<Seq<Seq<u8>>>)
    requires
        valid_frames(frames),
        off + counted_len(frames) <= u64::MAX,
    ensures
        replay_offset(off, stream(frames), frames.len()) == off + counted_len(frames),
    decreases frames.len(),
{
    if frames.len() > 0 {
        let f = frames[0];
        let tail = frames.drop_first();
        let rest = stream(tail);
        let s = stream(frames);
        assert(1 <= f.len() <= MAX_ARGS && parts_fit(f));
        lemma_frame_round_trip(f, rest);
        let n = frame_bytes(f).len() as int;
        assert(s == frame_bytes(f) + rest);
        assert(s.subrange(n, s.len() as int) == rest);
        lemma_counted_len_nonneg(tail);
        assert forall|i: int| 0 <= i < tail.len() implies 1 <= (#[trigger] tail[i]).len() <= MAX_ARGS
            && parts_fit(tail[i]) by {
            assert(tail[i] == frames[i + 1]);
        }
        lemma_offset_skips_replconf(advance(off, f, n), tail);
    }
}

/// The keyspace after running `cmds` on `m`, the `i`-th at instant `ts[i]`.
pub open spec fn run_commands(m: KeyMap, cmds: Seq<CommandModel>, ts: Seq<u64>) -> KeyMap
    decreases cmds.len(),
{
    if cmds.len() == 0 || ts.len() == 0 {
        m
    } else {
        run_commands(apply_command(m, cmds[0], ts[0]), cmds.drop_first(), ts.drop_first())
    }
}

/// The keyspace after a connection takes frames from `s` one by one, the
/// `i`-th at instant `ts[i]`, starting from `m`.
pub open spec fn replay_keyspace(m: KeyMap, s: Seq<u8>, ts: Seq<u64>) -> KeyMap
    decreases ts.len(),
{
    if ts.len() == 0 {
        m
    } else {
        match scan_frame(s) {
            Scan::Found(parts, n) => {
                let next = match command_of(parts) {
                    Ok(c) => apply_command(m, c, ts[0]),
                    Err(_) => m,
                };
                replay_keyspace(next, s.subrange(n, s.len() as int), ts.drop_first())
            },
            _ => m,
        }
    }
}

/// The replication stream of `cmds`: each one's frame, in order.
pub open spec fn command_stream(cmds: Seq<CommandModel>) -> Seq<u8> {
    stream(cmds.map_values(|c: CommandModel| command_parts(c)))
}

/// A replica that starts from the master's keyspace and applies the
/// master's replication stream ends with the master's keyspace; a `SET`
/// with an expiry must be applied at the instant the master applied it,
/// since the expiry counts from that instant.
pub proof fn lemma_replica_matches_master(
    m: KeyMap,
    cmds: Seq<CommandModel>,
    master_ts: Seq<u64>,
    replica_ts: Seq<u64>,
)
    requires
        forall|i: int| 0 <= i < cmds.len() ==> sendable(#[trigger] cmds[i]),
        master_ts.len() == cmds.len(),
        replica_ts.len() == cmds.len(),
        forall|i: int|
            0 <= i < cmds.len() && (#[trigger] cmds[i] matches CommandModel::SetKey(_, _, Some(_)))
                ==> master_ts[i] == replica_ts[i],
    ensures
        replay_keyspace(m, command_stream(cmds), replica_ts) == run_commands(m, cmds, master_ts),
    decreases cmds.len(),
{
    if cmds.len() > 0 {
        let c = cmds[0];
        let tail = cmds.drop_first();
        let frames = cmds.map_values(|c: CommandModel| command_parts(c));
        assert(frames.drop_first() == tail.map_values(|c: CommandModel| command_parts(c)));
        let rest = command_stream(tail);
        let s = command_stream(cmds);
        assert(sendable(cmds[0]));
        lemma_request_round_trip(c, rest);
        let n = frame_bytes(command_parts(c)).len() as int;
        assert(s == frame_bytes(command_parts(c)) + rest);
        assert(s.subrange(n, s.len() as int) == rest);
        assert(apply_command(m, c, replica_ts[0]) == apply_command(m, c, master_ts[0])) by {
            if c matches CommandModel::SetKey(_, _, Some(_)) {
                assert(master_ts[0] == replica_ts[0]);
            }
        }
        assert forall|i: int| 0 <= i < tail.len() implies sendable(#[trigger] tail[i]) by {
            assert(tail[i] == cmds[i + 1]);
        }
        assert forall|i: int|
            0 <= i < tail.len() && (#[trigger] tail[i] matches CommandModel::SetKey(_, _, Some(_)))
                implies master_ts.drop_first()[i] == replica_ts.drop_first()[i] by {
            assert(tail[i] == cmds[i + 1]);
        }
        lemma_replica_matches_master(
            apply_command(m, c, master_ts[0]),
            tail,
            master_ts.drop_first(),
            replica_ts.drop_first(),
        );
    }
}

} // verus!
