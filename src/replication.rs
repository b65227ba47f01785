//! The replication plane: the master's identity and replica registry, the
//! full-resync reply, and the replica's side of the handshake.
use crate::command::{command_parts, parse_u32, Command, CommandModel};
use crate::decimal::{decimal, format_u64};
use crate::resp::{append, append_crlf, blob_bytes, crlf, encode_blob, frame_bytes, simple_bytes};
use crate::text::{text, text_bytes, Text};
use crate::words::{word, word_bytes, Word};
use base64::Engine;
use rand::Rng;
use vstd::prelude::*;
use vstd::string::StringSliceAdditionalSpecFns;

verus! {

/// Whether `b` is an ASCII letter or digit.
pub open spec fn is_alphanumeric(b: u8) -> bool {
    (48 <= b <= 57) || (65 <= b <= 90) || (97 <= b <= 122)
}

/// Relies on sampling `rand::distr::Alphanumeric` from `rand::rng()`: each
/// byte is drawn from `A-Z`, `a-z` and `0-9`.
#[verifier::external_body]
fn random_alphanumeric(n: usize) -> (r: Vec<u8>)
    ensures
        r@.len() == n,
        forall|i: int| 0 <= i < r@.len() ==> is_alphanumeric(#[trigger] r@[i]),
{
    rand::rng().sample_iter(&rand::distr::Alphanumeric).take(n).collect()
}

/// The master's replication identity and stream offset.
pub struct MasterReplicationInfo {
    /// 40 random ASCII letters and digits, drawn once at startup.
    pub replid: Vec<u8>,
    /// Bytes of mutations sent down the replication stream so far.
    pub repl_offset: u64,
}

impl MasterReplicationInfo {
    /// The identifier is 40 ASCII letters and digits.
    pub open spec fn wf(&self) -> bool {
        &&& self.replid@.len() == 40
        &&& forall|i: int| 0 <= i < 40 ==> is_alphanumeric(#[trigger] self.replid@[i])
    }

    /// A fresh identity with offset zero.
    pub fn new() -> (r: MasterReplicationInfo)
        ensures
            r.wf(),
            r.repl_offset == 0,
    {
        MasterReplicationInfo { replid: random_alphanumeric(40), repl_offset: 0 }
    }
}

/// `base64::DecodeError`, carried opaque: the reason a decoding failed.
#[verifier::external_type_specification]
#[verifier::external_body]
pub struct ExDecodeError(base64::DecodeError);

/// What standard base64 text `s` decodes to: the bytes, or nothing when
/// `s` is not valid standard base64.
pub uninterp spec fn base64_decoding(s: Seq<u8>) -> Option<Seq<u8>>;

/// Relies on `base64::engine::general_purpose::STANDARD.decode`: the
/// decoding of the input, or an error exactly when it is not valid.
#[verifier::external_body]
fn decode_base64(s: &[u8]) -> (r: Result<Vec<u8>, base64::DecodeError>)
    ensures
        match base64_decoding(s@) {
            Some(v) => r matches Ok(x) && x@ == v,
            None => r is Err,
        },
{
    base64::engine::general_purpose::STANDARD.decode(s)
}

/// The empty snapshot sent to a new replica, in standard base64.
pub const EMPTY_SNAPSHOT_BASE64: &'static str = "UkVESVMwMDEx+glyZWRpcy12ZXIFNy4yLjD6CnJlZGlzLWJpdHPAQPoFY3RpbWXCbQi8ZfoIdXNlZC1tZW3CsMQQAPoIYW9mLWJhc2XAAP/wbjv+wP9aog==";

/// The decoding of the built-in empty snapshot's text.
pub open spec fn empty_snapshot_bytes() -> Option<Seq<u8>> {
    base64_decoding(EMPTY_SNAPSHOT_BASE64.spec_bytes())
}

/// The built-in empty snapshot.
pub fn empty_snapshot() -> (r: Option<Vec<u8>>)
    ensures
        match empty_snapshot_bytes() {
            Some(v) => r matches Some(x) && x@ == v,
            None => r is None,
        },
{
    match decode_base64(EMPTY_SNAPSHOT_BASE64.as_bytes()) {
        Ok(v) => Some(v),
        Err(_) => None,
    }
}

/// `+FULLRESYNC <replid> 0\r\n` followed by the snapshot as a raw blob.
pub open spec fn fullresync_bytes(replid: Seq<u8>, snapshot: Seq<u8>) -> Seq<u8> {
    simple_bytes(text(Text::FullResync) + replid + text(Text::SpaceZero)) + blob_bytes(snapshot)
}

/// The answer to `PSYNC ? -1`: the full-resync line, then the snapshot.
pub fn fullresync_reply(replid: &[u8], snapshot: &[u8]) -> (r: Vec<u8>)
    ensures
        r@ == fullresync_bytes(replid@, snapshot@),
{
    let mut out: Vec<u8> = Vec::new();
    out.push(43);
    let head = text_bytes(Text::FullResync);
    append(&mut out, head.as_slice());
    append(&mut out, replid);
    let zero = text_bytes(Text::SpaceZero);
    append(&mut out, zero.as_slice());
    append_crlf(&mut out);
    let blob = encode_blob(snapshot);
    append(&mut out, blob.as_slice());
    assert(out@ == seq![43u8] + (text(Text::FullResync) + replid@ + text(Text::SpaceZero)) + crlf()
        + blob_bytes(snapshot@));
    out
}

/// `s` without the elements equal to `id`, in the same order.
pub open spec fn without(s: Seq<u64>, id: u64) -> Seq<u64>
    decreases s.len(),
{
    if s.len() == 0 {
        s
    } else if s.last() == id {
        without(s.drop_last(), id)
    } else {
        without(s.drop_last(), id).push(s.last())
    }
}

proof fn lemma_without(s: Seq<u64>, id: u64)
    requires
        s.no_duplicates(),
    ensures
        without(s, id).no_duplicates(),
        forall|x: u64| #[trigger] without(s, id).contains(x) <==> s.contains(x) && x != id,
    decreases s.len(),
{
    if s.len() > 0 {
        let init = s.drop_last();
        assert forall|i: int, j: int| 0 <= i < j < init.len() implies init[i] != init[j] by {
            assert(init[i] == s[i] && init[j] == s[j]);
        }
        lemma_without(init, id);
        assert forall|x: u64| s.contains(x) <==> init.contains(x) || x == s.last() by {
            if s.contains(x) {
                let k = choose|k: int| 0 <= k < s.len() && s[k] == x;
                if k < init.len() {
                    assert(init[k] == x);
                }
            }
            if init.contains(x) {
                let k = choose|k: int| 0 <= k < init.len() && init[k] == x;
                assert(s[k] == x);
            }
            if x == s.last() {
                assert(s[s.len() - 1] == x);
            }
        }
        if s.last() != id {
            let w = without(init, id);
            assert(!init.contains(s.last())) by {
                if init.contains(s.last()) {
                    let k = choose|k: int| 0 <= k < init.len() && init[k] == s.last();
                    assert(s[k] == s[s.len() - 1]);
                }
            }
            assert forall|x: u64| #[trigger] w.push(s.last()).contains(x) <==> w.contains(x) || x
                == s.last() by {
                if w.push(s.last()).contains(x) {
                    let k = choose|k: int| 0 <= k < w.len() + 1 && w.push(s.last())[k] == x;
                    if k < w.len() {
                        assert(w[k] == x);
                    }
                }
                if w.contains(x) {
                    let k = choose|k: int| 0 <= k < w.len() && w[k] == x;
                    assert(w.push(s.last())[k] == x);
                }
                if x == s.last() {
                    assert(w.push(s.last())[w.len() as int] == x);
                }
            }
            assert forall|i: int, j: int|
                0 <= i < j < w.len() + 1 implies w.push(s.last())[i] != w.push(s.last())[j] by {
                if j == w.len() {
                    assert(w.contains(w[i]));
                }
            }
        }
    }
}

/// The connections registered as replicas, in registration order.
pub struct ReplicaRegistry {
    sinks: Vec<u64>,
}

impl View for ReplicaRegistry {
    type V = Seq<u64>;

    closed spec fn view(&self) -> Seq<u64> {
        self.sinks@
    }
}

impl ReplicaRegistry {
    /// Each connection is registered at most once.
    pub open spec fn wf(&self) -> bool {
        self@.no_duplicates()
    }

    /// An empty registry.
    pub fn new() -> (r: ReplicaRegistry)
        ensures
            r@ == Seq::<u64>::empty(),
            r.wf(),
    {
        ReplicaRegistry { sinks: Vec::new() }
    }

    /// Whether connection `id` is registered.
    pub fn contains(&self, id: u64) -> (r: bool)
        ensures
            r == self@.contains(id),
    {
        let mut i: usize = 0;
        while i < self.sinks.len()
            invariant
                i <= self.sinks.len(),
                forall|j: int| 0 <= j < i ==> self.sinks@[j] != id,
            decreases self.sinks.len() - i,
        {
            if self.sinks[i] == id {
                assert(self@[i as int] == id);
                return true;
            }
            i = i + 1;
        }
        false
    }

    /// Registers connection `id` after the others, unless it already is.
    pub fn register(&mut self, id: u64)
        requires
            old(self).wf(),
        ensures
            final(self).wf(),
            final(self)@ == if old(self)@.contains(id) {
                old(self)@
            } else {
                old(self)@.push(id)
            },
    {
        if !self.contains(id) {
            self.sinks.push(id);
            assert forall|i: int, j: int|
                0 <= i < j < self@.len() implies self@[i] != self@[j] by {
                if j == self@.len() - 1 {
                    assert(old(self)@.contains(old(self)@[i]));
                }
            }
        }
    }

    /// Removes connection `id`, as when writing to it failed; the others keep
    /// their order.
    pub fn remove(&mut self, id: u64)
        requires
            old(self).wf(),
        ensures
            final(self).wf(),
            final(self)@ == without(old(self)@, id),
            forall|x: u64| #[trigger] final(self)@.contains(x) <==> old(self)@.contains(x) && x != id,
    {
        let mut kept: Vec<u64> = Vec::new();
        let mut i: usize = 0;
        while i < self.sinks.len()
            invariant
                i <= self.sinks.len(),
                kept@ == without(self.sinks@.subrange(0, i as int), id),
            decreases self.sinks.len() - i,
        {
            let x = self.sinks[i];
            if x != id {
                kept.push(x);
            }
            i = i + 1;
            assert(self.sinks@.subrange(0, i as int).drop_last() == self.sinks@.subrange(0, i - 1));
        }
        assert(self.sinks@.subrange(0, self.sinks.len() as int) == self.sinks@);
        proof {
            lemma_without(old(self)@, id);
        }
        self.sinks = kept;
    }

    /// The registered connections, in registration order.
    pub fn ids(&self) -> (r: Vec<u64>)
        ensures
            r@ == self@,
    {
        self.sinks.clone()
    }

    /// The number of registered connections.
    pub fn count(&self) -> (r: usize)
        ensures
            r == self@.len(),
    {
        self.sinks.len()
    }
}

/// The replica's progress through the handshake with its master.
#[derive(Debug, Clone, Copy, PartialEq, Eq, Structural)]
pub enum HandshakeState {
    Disconnected,
    /// `PING` sent.
    Pinging,
    /// `REPLCONF listening-port` sent.
    CapaPort,
    /// `REPLCONF capa psync2` sent.
    CapaPsync2,
    /// `PSYNC ? -1` sent.
    Psync,
    /// `+FULLRESYNC` received; the snapshot is due.
    AwaitingSnapshot,
    /// The snapshot is consumed; the link carries commands.
    Streaming,
}

/// The master answered a handshake step with something else than expected.
#[derive(Debug, Clone, Copy, PartialEq, Eq, Structural)]
pub enum HandshakeError {
    UnexpectedReply,
}

/// The request the replica sends on entering `state`.
pub open spec fn handshake_request(state: HandshakeState, port: u16) -> CommandModel {
    match state {
        HandshakeState::CapaPort => CommandModel::ReplConf(
            word(Word::ListeningPort),
            decimal(port as nat),
        ),
        HandshakeState::CapaPsync2 => CommandModel::ReplConf(word(Word::Capa), word(Word::Psync2)),
        HandshakeState::Psync => CommandModel::PSync(seq![63u8], seq![45u8, 49]),
        _ => CommandModel::Ping,
    }
}

/// Whether `line` is a `+FULLRESYNC ...` status line.
pub open spec fn is_fullresync_line(line: Seq<u8>) -> bool {
    &&& line.len() >= 14
    &&& line.subrange(0, 12) == seq![43u8] + text(Text::FullResync)
    &&& line.subrange(line.len() - 2, line.len() as int) == crlf()
}

/// The state after the master answers `line` in `state`, if that answer is
/// the expected one.
pub open spec fn handshake_next(state: HandshakeState, line: Seq<u8>) -> Option<HandshakeState> {
    let ok = line == simple_bytes(text(Text::Okay));
    match state {
        HandshakeState::Pinging => if line == simple_bytes(text(Text::Pong)) || ok {
            Some(HandshakeState::CapaPort)
        } else {
            None
        },
        HandshakeState::CapaPort => if ok {
            Some(HandshakeState::CapaPsync2)
        } else {
            None
        },
        HandshakeState::CapaPsync2 => if ok {
            Some(HandshakeState::Psync)
        } else {
            None
        },
        HandshakeState::Psync => if is_fullresync_line(line) {
            Some(HandshakeState::AwaitingSnapshot)
        } else {
            None
        },
        _ => None,
    }
}

/// Whether `a` and `b` hold the same bytes.
pub fn bytes_eq(a: &[u8], b: &[u8]) -> (r: bool)
    ensures
        r == (a@ == b@),
{
    if a.len() != b.len() {
        return false;
    }
    let mut i: usize = 0;
    while i < a.len()
        invariant
            i <= a.len() == b.len(),
            forall|j: int| 0 <= j < i ==> a@[j] == b@[j],
        decreases a.len() - i,
    {
        if a[i] != b[i] {
            return false;
        }
        i = i + 1;
    }
    assert(a@ == b@);
    true
}

/// `+<t>\r\n`
fn simple_text(t: Text) -> (r: Vec<u8>)
    ensures
        r@ == simple_bytes(text(t)),
{
    let mut out: Vec<u8> = Vec::new();
    out.push(43);
    let body = text_bytes(t);
    append(&mut out, body.as_slice());
    append_crlf(&mut out);
    assert(out@ == seq![43u8] + text(t) + crlf());
    out
}

/// The request to send on entering `state`.
fn handshake_request_bytes(state: HandshakeState, port: u16) -> (r: Vec<u8>)
    ensures
        r@ == frame_bytes(command_parts(handshake_request(state, port))),
{
    let c = match state {
        HandshakeState::CapaPort => Command::ReplConf(
            word_bytes(Word::ListeningPort),
            format_u64(port as u64),
        ),
        HandshakeState::CapaPsync2 => Command::ReplConf(word_bytes(Word::Capa), word_bytes(Word::Psync2)),
        HandshakeState::Psync => {
            let a = vec![63u8];
            let b = vec![45u8, 49];
            assert(a@ == seq![63u8]);
            assert(b@ == seq![45u8, 49]);
            Command::PSync(a, b)
        },
        _ => Command::Ping,
    };
    c.encode()
}

/// Starts the handshake once connected: the state and the `PING` to send.
pub fn handshake_start(port: u16) -> (r: (HandshakeState, Vec<u8>))
    ensures
        r.0 == HandshakeState::Pinging,
        r.1@ == frame_bytes(command_parts(CommandModel::Ping)),
{
    (HandshakeState::Pinging, handshake_request_bytes(HandshakeState::Pinging, port))
}

/// Takes the master's answer `line` (its `\r\n` included) in `state`: the
/// next state and the request to send then, if any; `port` is the replica's
/// own listening port.
pub fn handshake_step(state: HandshakeState, port: u16, line: &[u8]) -> (r: Result<
    (HandshakeState, Option<Vec<u8>>),
    HandshakeError,
>)
    ensures
        match handshake_next(state, line@) {
            Some(next) => r matches Ok((s, msg)) && s == next && (if next
                == HandshakeState::AwaitingSnapshot {
                msg is None
            } else {
                msg matches Some(m) && m@ == frame_bytes(command_parts(handshake_request(next, port)))
            }),
            None => r == Err::<(HandshakeState, Option<Vec<u8>>), HandshakeError>(
                HandshakeError::UnexpectedReply,
            ),
        },
{
    let ok = bytes_eq(line, simple_text(Text::Okay).as_slice());
    let next = match state {
        HandshakeState::Pinging => {
            if bytes_eq(line, simple_text(Text::Pong).as_slice()) || ok {
                HandshakeState::CapaPort
            } else {
                return Err(HandshakeError::UnexpectedReply);
            }
        },
        HandshakeState::CapaPort => {
            if ok {
                HandshakeState::CapaPsync2
            } else {
                return Err(HandshakeError::UnexpectedReply);
            }
        },
        HandshakeState::CapaPsync2 => {
            if ok {
                HandshakeState::Psync
            } else {
                return Err(HandshakeError::UnexpectedReply);
            }
        },
        HandshakeState::Psync => {
            if fullresync_line(line) {
                return Ok((HandshakeState::AwaitingSnapshot, None));
            } else {
                return Err(HandshakeError::UnexpectedReply);
            }
        },
        _ => {
            return Err(HandshakeError::UnexpectedReply);
        },
    };
    Ok((next, Some(handshake_request_bytes(next, port))))
}

fn fullresync_line(line: &[u8]) -> (r: bool)
    ensures
        r == is_fullresync_line(line@),
{
    if line.len() < 14 {
        return false;
    }
    let mut head: Vec<u8> = Vec::new();
    head.push(43);
    let t = text_bytes(Text::FullResync);
    append(&mut head, t.as_slice());
    let n = line.len();
    let start = vstd::slice::slice_subrange(line, 0, 12);
    let end = vstd::slice::slice_subrange(line, n - 2, n);
    let mut lf: Vec<u8> = Vec::new();
    append_crlf(&mut lf);
    assert(lf@ == crlf());
    bytes_eq(start, head.as_slice()) && bytes_eq(end, lf.as_slice())
}

/// Marks the snapshot as consumed: the link now carries commands.
pub fn snapshot_received(state: HandshakeState) -> (r: Result<HandshakeState, HandshakeError>)
    ensures
        state == HandshakeState::AwaitingSnapshot ==> r == Ok::<HandshakeState, HandshakeError>(
            HandshakeState::Streaming,
        ),
        state != HandshakeState::AwaitingSnapshot ==> r == Err::<HandshakeState, HandshakeError>(
            HandshakeError::UnexpectedReply,
        ),
{
    if state == HandshakeState::AwaitingSnapshot {
        Ok(HandshakeState::Streaming)
    } else {
        Err(HandshakeError::UnexpectedReply)
    }
}

/// The port number written in decimal by `s`, if it is one.
pub open spec fn u16_of(s: Seq<u8>) -> Option<u16> {
    match crate::command::u32_of(s) {
        Some(v) => if v <= 65535 {
            Some(v as u16)
        } else {
            None
        },
        None => None,
    }
}

/// Whether `i` is the position of the first space of `s`.
pub open spec fn first_space(s: Seq<u8>, i: int) -> bool {
    0 <= i < s.len() && s[i] == 32 && forall|j: int| 0 <= j < i ==> s[j] != 32
}

/// Splits `<host> <port>` at its first space; the host is not empty and the
/// port is a decimal `u16`.
pub fn parse_replicaof(s: &[u8]) -> (r: Option<(Vec<u8>, u16)>)
    ensures
        match r {
            Some((host, port)) => exists|i: int|
                first_space(s@, i) && i > 0 && host@ == s@.subrange(0, i) && u16_of(
                    s@.subrange(i + 1, s@.len() as int),
                ) == Some(port),
            None => forall|i: int|
                first_space(s@, i) ==> i == 0 || u16_of(s@.subrange(i + 1, s@.len() as int))
                    is None,
        },
{
    let mut i: usize = 0;
    while i < s.len() && s[i] != 32
        invariant
            i <= s.len(),
            forall|j: int| 0 <= j < i ==> s@[j] != 32,
        decreases s.len() - i,
    {
        i = i + 1;
    }
    if i == s.len() {
        assert forall|k: int| !first_space(s@, k) by {}
        return None;
    }
    assert(first_space(s@, i as int));
    assert forall|k: int| first_space(s@, k) implies k == i by {
        if k < i {
            assert(s@[k] != 32);
        } else if k > i {
            assert(s@[i as int] != 32);
        }
    }
    if i == 0 {
        return None;
    }
    let rest = vstd::slice::slice_subrange(s, i + 1, s.len());
    match parse_u32(rest) {
        Some(v) => {
            if v > 65535 {
                None
            } else {
                let host = vstd::slice::slice_subrange(s, 0, i);
                let mut h: Vec<u8> = Vec::new();
                append(&mut h, host);
                assert(h@ == s@.subrange(0, i as int));
                Some((h, v as u16))
            }
        },
        None => None,
    }
}

} // verus!
