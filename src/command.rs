//! Requests: what a frame asks for, how it is read from a frame, and how
//! it is written back as one.
use crate::decimal::{all_digits, decimal, digits_value, format_u64, lemma_decimal_digits, lemma_decimal_len, pow10};
use crate::frame::{
    lemma_frame_round_trip, lemma_frame_shape, parse_frame, parts_fit, parts_view, scan_frame, Frame, FrameError,
    Scan,
};
use crate::resp::{append, append_bulk_payload, append_crlf, append_decimal, bulks_bytes, crlf, frame_bytes};
use crate::words::{is_name, is_word, to_lower, lemma_upper_is_name, upper, word, word_upper, Word};
use vstd::prelude::*;

verus! {

/// The arguments of a `SET`.
pub struct SetParams {
    pub key: Vec<u8>,
    pub value: Vec<u8>,
    /// Time to live in milliseconds.
    pub px: Option<u32>,
}

/// A recognised request.
pub enum Command {
    Unknown(Vec<u8>),
    Ping,
    Save,
    Info(Vec<u8>),
    Echo(Vec<u8>),
    Keys(Vec<u8>),
    Get(Vec<u8>),
    SetKey(SetParams),
    /// `CONFIG GET <field>`
    Config(Vec<u8>),
    Wait(u32, u32),
    ReplConf(Vec<u8>, Vec<u8>),
    PSync(Vec<u8>, Vec<u8>),
}

/// A decoded request.
pub struct Request {
    pub command: Command,
}

/// The mathematical value of a [`Command`].
pub enum CommandModel {
    Unknown(Seq<u8>),
    Ping,
    Save,
    Info(Seq<u8>),
    Echo(Seq<u8>),
    Keys(Seq<u8>),
    Get(Seq<u8>),
    SetKey(Seq<u8>, Seq<u8>, Option<u32>),
    Config(Seq<u8>),
    Wait(u32, u32),
    ReplConf(Seq<u8>, Seq<u8>),
    PSync(Seq<u8>, Seq<u8>),
}

impl View for SetParams {
    type V = (Seq<u8>, Seq<u8>, Option<u32>);

    open spec fn view(&self) -> (Seq<u8>, Seq<u8>, Option<u32>) {
        (self.key@, self.value@, self.px)
    }
}

impl View for Command {
    type V = CommandModel;

    open spec fn view(&self) -> CommandModel {
        match self {
            Command::Unknown(n) => CommandModel::Unknown(n@),
            Command::Ping => CommandModel::Ping,
            Command::Save => CommandModel::Save,
            Command::Info(s) => CommandModel::Info(s@),
            Command::Echo(s) => CommandModel::Echo(s@),
            Command::Keys(s) => CommandModel::Keys(s@),
            Command::Get(s) => CommandModel::Get(s@),
            Command::SetKey(p) => CommandModel::SetKey(p.key@, p.value@, p.px),
            Command::Config(s) => CommandModel::Config(s@),
            Command::Wait(a, b) => CommandModel::Wait(*a, *b),
            Command::ReplConf(a, b) => CommandModel::ReplConf(a@, b@),
            Command::PSync(a, b) => CommandModel::PSync(a@, b@),
        }
    }
}

impl View for Request {
    type V = CommandModel;

    open spec fn view(&self) -> CommandModel {
        self.command@
    }
}

/// Why a whole frame is not a valid request.
#[derive(Debug, Clone, Copy, PartialEq, Eq, Structural)]
pub enum Rejection {
    /// The command takes another number of arguments.
    WrongArity,
    /// An option or sub-command is not recognised.
    Syntax,
    /// A numeric argument is not a decimal `u32`.
    NotAnInteger,
}

/// The `u32` written in decimal by `s`, if it is one (at most ten digits).
pub open spec fn u32_of(s: Seq<u8>) -> Option<u32> {
    if 1 <= s.len() <= 10 && all_digits(s) && digits_value(s) <= u32::MAX {
        Some(digits_value(s) as u32)
    } else {
        None
    }
}

/// The options of a `SET` from position `i` on: pairs `PX <ms>`; the last
/// one counts.
pub open spec fn set_options(parts: Seq<Seq<u8>>, i: int, px: Option<u32>) -> Result<
    Option<u32>,
    Rejection,
>
    decreases parts.len() - i,
{
    if i >= parts.len() {
        Ok(px)
    } else if !is_name(parts[i], word(Word::Px)) || i + 1 >= parts.len() {
        Err(Rejection::Syntax)
    } else {
        match u32_of(parts[i + 1]) {
            Some(v) => set_options(parts, i + 2, Some(v)),
            None => Err(Rejection::NotAnInteger),
        }
    }
}

/// The request that the elements of a frame spell.
pub open spec fn command_of(parts: Seq<Seq<u8>>) -> Result<CommandModel, Rejection> {
    let n = parts.len();
    if n == 0 {
        Err(Rejection::WrongArity)
    } else {
        let name = parts[0];
        if is_name(name, word(Word::Ping)) {
            if n == 1 {
                Ok(CommandModel::Ping)
            } else {
                Err(Rejection::WrongArity)
            }
        } else if is_name(name, word(Word::Save)) {
            if n == 1 {
                Ok(CommandModel::Save)
            } else {
                Err(Rejection::WrongArity)
            }
        } else if is_name(name, word(Word::Echo)) {
            if n == 2 {
                Ok(CommandModel::Echo(parts[1]))
            } else {
                Err(Rejection::WrongArity)
            }
        } else if is_name(name, word(Word::Get)) {
            if n == 2 {
                Ok(CommandModel::Get(parts[1]))
            } else {
                Err(Rejection::WrongArity)
            }
        } else if is_name(name, word(Word::Keys)) {
            if n == 2 {
                Ok(CommandModel::Keys(parts[1]))
            } else {
                Err(Rejection::WrongArity)
            }
        } else if is_name(name, word(Word::Info)) {
            if n == 1 {
                Ok(CommandModel::Info(Seq::empty()))
            } else if n == 2 {
                Ok(CommandModel::Info(parts[1]))
            } else {
                Err(Rejection::WrongArity)
            }
        } else if is_name(name, word(Word::SetKey)) {
            if n < 3 {
                Err(Rejection::WrongArity)
            } else {
                match set_options(parts, 3, None) {
                    Ok(px) => Ok(CommandModel::SetKey(parts[1], parts[2], px)),
                    Err(e) => Err(e),
                }
            }
        } else if is_name(name, word(Word::Config)) {
            if n != 3 {
                Err(Rejection::WrongArity)
            } else if !is_name(parts[1], word(Word::Get)) {
                Err(Rejection::Syntax)
            } else {
                Ok(CommandModel::Config(parts[2]))
            }
        } else if is_name(name, word(Word::ReplConf)) {
            if n == 3 {
                Ok(CommandModel::ReplConf(parts[1], parts[2]))
            } else {
                Err(Rejection::WrongArity)
            }
        } else if is_name(name, word(Word::PSync)) {
            if n == 3 {
                Ok(CommandModel::PSync(parts[1], parts[2]))
            } else {
                Err(Rejection::WrongArity)
            }
        } else if is_name(name, word(Word::Wait)) {
            if n != 3 {
                Err(Rejection::WrongArity)
            } else {
                match (u32_of(parts[1]), u32_of(parts[2])) {
                    (Some(a), Some(b)) => Ok(CommandModel::Wait(a, b)),
                    _ => Err(Rejection::NotAnInteger),
                }
            }
        } else {
            Ok(CommandModel::Unknown(name))
        }
    }
}

/// The elements of the frame that sends `c`; names go in capitals.
pub open spec fn command_parts(c: CommandModel) -> Seq<Seq<u8>> {
    match c {
        CommandModel::Unknown(n) => seq![n],
        CommandModel::Ping => seq![upper(word(Word::Ping))],
        CommandModel::Save => seq![upper(word(Word::Save))],
        CommandModel::Info(s) => seq![upper(word(Word::Info)), s],
        CommandModel::Echo(s) => seq![upper(word(Word::Echo)), s],
        CommandModel::Keys(s) => seq![upper(word(Word::Keys)), s],
        CommandModel::Get(s) => seq![upper(word(Word::Get)), s],
        CommandModel::SetKey(k, v, px) => match px {
            Some(ms) => seq![
                upper(word(Word::SetKey)),
                k,
                v,
                upper(word(Word::Px)),
                decimal(ms as nat),
            ],
            None => seq![upper(word(Word::SetKey)), k, v],
        },
        CommandModel::Config(f) => seq![upper(word(Word::Config)), upper(word(Word::Get)), f],
        CommandModel::Wait(a, b) => seq![
            upper(word(Word::Wait)),
            decimal(a as nat),
            decimal(b as nat),
        ],
        CommandModel::ReplConf(a, b) => seq![upper(word(Word::ReplConf)), a, b],
        CommandModel::PSync(a, b) => seq![upper(word(Word::PSync)), a, b],
    }
}

/// Whether `c` is a command of the grammar that can be sent: a recognised
/// one whose byte strings fit the payload limit.
pub open spec fn sendable(c: CommandModel) -> bool {
    !(c is Unknown) && parts_fit(command_parts(c))
}

proof fn lemma_u32_round_trip(n: u32)
    ensures
        u32_of(decimal(n as nat)) == Some(n),
{
    lemma_decimal_digits(n as nat);
    reveal_with_fuel(pow10, 11);
    lemma_decimal_len(n as nat, 10, pow10(10));
}

proof fn lemma_first_letter(s: Seq<u8>, w: Word)
    ensures
        is_name(s, word(w)) ==> s.len() == word(w).len() && (s.len() > 0 ==> to_lower(s[0])
            == word(w)[0]),
{
}

/// Encoding a request and decoding the bytes (and whatever follows them)
/// gives back the same request, from a frame of the same length.
pub proof fn lemma_request_round_trip(c: CommandModel, rest: Seq<u8>)
    requires
        sendable(c),
    ensures
        scan_frame(frame_bytes(command_parts(c)) + rest) == Scan::Found(
            command_parts(c),
            frame_bytes(command_parts(c)).len() as int,
        ),
        command_of(command_parts(c)) == Ok::<CommandModel, Rejection>(c),
{
    let parts = command_parts(c);
    lemma_frame_round_trip(parts, rest);
    let name = parts[0];
    lemma_first_letter(name, Word::Ping);
    lemma_first_letter(name, Word::Save);
    lemma_first_letter(name, Word::Echo);
    lemma_first_letter(name, Word::Get);
    lemma_first_letter(name, Word::Keys);
    lemma_first_letter(name, Word::Info);
    lemma_first_letter(name, Word::SetKey);
    lemma_first_letter(name, Word::Config);
    lemma_first_letter(name, Word::ReplConf);
    lemma_first_letter(name, Word::PSync);
    lemma_first_letter(name, Word::Wait);
    match c {
        CommandModel::Ping => lemma_upper_is_name(Word::Ping),
        CommandModel::Save => lemma_upper_is_name(Word::Save),
        CommandModel::Info(_) => lemma_upper_is_name(Word::Info),
        CommandModel::Echo(_) => lemma_upper_is_name(Word::Echo),
        CommandModel::Keys(_) => lemma_upper_is_name(Word::Keys),
        CommandModel::Get(_) => lemma_upper_is_name(Word::Get),
        CommandModel::SetKey(k, v, px) => {
            lemma_upper_is_name(Word::SetKey);
            if let Some(ms) = px {
                lemma_upper_is_name(Word::Px);
                lemma_u32_round_trip(ms);
                assert(set_options(parts, 5, Some(ms)) == Ok::<Option<u32>, Rejection>(Some(ms)));
            }
        },
        CommandModel::Config(_) => {
            lemma_upper_is_name(Word::Config);
            lemma_upper_is_name(Word::Get);
        },
        CommandModel::Wait(a, b) => {
            lemma_upper_is_name(Word::Wait);
            lemma_u32_round_trip(a);
            lemma_u32_round_trip(b);
        },
        CommandModel::ReplConf(_, _) => lemma_upper_is_name(Word::ReplConf),
        CommandModel::PSync(_, _) => lemma_upper_is_name(Word::PSync),
        CommandModel::Unknown(_) => {},
    }
}

/// Reads a decimal `u32`.
pub fn parse_u32(s: &[u8]) -> (r: Option<u32>)
    ensures
        r == u32_of(s@),
{
    if s.len() == 0 || s.len() > 10 {
        return None;
    }
    let mut v: u64 = 0;
    let mut i: usize = 0;
    while i < s.len()
        invariant
            1 <= s.len() <= 10,
            i <= s.len(),
            all_digits(s@.subrange(0, i as int)),
            v == digits_value(s@.subrange(0, i as int)),
            v < pow10(i as nat),
            pow10(i as nat) <= 10000000000,
        decreases s.len() - i,
    {
        let b = s[i];
        if b < 48 || b > 57 {
            assert(!all_digits(s@)) by {
                assert(!crate::decimal::is_digit(s@[i as int]));
            }
            return None;
        }
        proof {
            let t = s@.subrange(0, i + 1);
            assert(t.drop_last() == s@.subrange(0, i as int));
            assert(pow10((i + 1) as nat) == 10 * pow10(i as nat));
            lemma_pow10_le_ten((i + 1) as nat);
            assert(v * 10 + (b - 48) < 10 * pow10(i as nat)) by (nonlinear_arith)
                requires
                    v < pow10(i as nat),
                    b - 48 < 10,
            ;
        }
        v = v * 10 + (b - 48) as u64;
        i = i + 1;
    }
    assert(s@.subrange(0, s.len() as int) == s@);
    if v > 4294967295 {
        None
    } else {
        Some(v as u32)
    }
}

proof fn lemma_pow10_le_ten(k: nat)
    requires
        k <= 10,
    ensures
        pow10(k) <= 10000000000,
    decreases 10 - k,
{
    if k < 10 {
        lemma_pow10_le_ten(k + 1);
    } else {
        reveal_with_fuel(pow10, 11);
    }
}

/// Builds the parameters of a `SET` from its elements: name, key, value,
/// then the options; a frame without key or value takes the wrong number of
/// arguments.
pub fn build_set_params(args: &Vec<Vec<u8>>) -> (r: Result<SetParams, Rejection>)
    ensures
        args.len() < 3 ==> r == Err::<SetParams, Rejection>(Rejection::WrongArity),
        args.len() >= 3 ==> match set_options(parts_view(args@), 3, None) {
            Ok(px) => r matches Ok(p) && p@ == (args@[1]@, args@[2]@, px),
            Err(e) => r == Err::<SetParams, Rejection>(e),
        },
{
    if args.len() < 3 {
        return Err(Rejection::WrongArity);
    }
    let ghost parts = parts_view(args@);
    let mut px: Option<u32> = None;
    let mut i: usize = 3;
    while i < args.len()
        invariant
            3 <= i,
            parts == parts_view(args@),
            set_options(parts, 3, None) == set_options(parts, i as int, px),
        decreases args.len() - i,
    {
        if !is_word(args[i].as_slice(), Word::Px) || i + 1 >= args.len() {
            return Err(Rejection::Syntax);
        }
        match parse_u32(args[i + 1].as_slice()) {
            Some(v) => {
                px = Some(v);
            },
            None => {
                return Err(Rejection::NotAnInteger);
            },
        }
        i = i + 2;
    }
    Ok(SetParams { key: copy_bytes(&args[1]), value: copy_bytes(&args[2]), px })
}

/// A copy of `v`.
pub fn copy_bytes(v: &Vec<u8>) -> (r: Vec<u8>)
    ensures
        r@ == v@,
{
    let mut out: Vec<u8> = Vec::new();
    append(&mut out, v.as_slice());
    assert(out@ == Seq::<u8>::empty() + v@);
    out
}

/// Reads the request that the elements of a frame spell.
pub fn command_from_parts(parts: &Vec<Vec<u8>>) -> (r: Result<Command, Rejection>)
    ensures
        match command_of(parts_view(parts@)) {
            Ok(m) => r matches Ok(c) && c@ == m,
            Err(e) => r == Err::<Command, Rejection>(e),
        },
{
    let ghost pv = parts_view(parts@);
    let n = parts.len();
    if n == 0 {
        return Err(Rejection::WrongArity);
    }
    let name = parts[0].as_slice();
    assert(name@ == pv[0]);
    if is_word(name, Word::Ping) {
        if n == 1 {
            Ok(Command::Ping)
        } else {
            Err(Rejection::WrongArity)
        }
    } else if is_word(name, Word::Save) {
        if n == 1 {
            Ok(Command::Save)
        } else {
            Err(Rejection::WrongArity)
        }
    } else if is_word(name, Word::Echo) {
        if n == 2 {
            Ok(Command::Echo(copy_bytes(&parts[1])))
        } else {
            Err(Rejection::WrongArity)
        }
    } else if is_word(name, Word::Get) {
        if n == 2 {
            Ok(Command::Get(copy_bytes(&parts[1])))
        } else {
            Err(Rejection::WrongArity)
        }
    } else if is_word(name, Word::Keys) {
        if n == 2 {
            Ok(Command::Keys(copy_bytes(&parts[1])))
        } else {
            Err(Rejection::WrongArity)
        }
    } else if is_word(name, Word::Info) {
        if n == 1 {
            Ok(Command::Info(Vec::new()))
        } else if n == 2 {
            Ok(Command::Info(copy_bytes(&parts[1])))
        } else {
            Err(Rejection::WrongArity)
        }
    } else if is_word(name, Word::SetKey) {
        if n < 3 {
            Err(Rejection::WrongArity)
        } else {
            match build_set_params(parts) {
                Ok(p) => Ok(Command::SetKey(p)),
                Err(e) => Err(e),
            }
        }
    } else if is_word(name, Word::Config) {
        if n != 3 {
            Err(Rejection::WrongArity)
        } else if !is_word(parts[1].as_slice(), Word::Get) {
            Err(Rejection::Syntax)
        } else {
            Ok(Command::Config(copy_bytes(&parts[2])))
        }
    } else if is_word(name, Word::ReplConf) {
        if n == 3 {
            Ok(Command::ReplConf(copy_bytes(&parts[1]), copy_bytes(&parts[2])))
        } else {
            Err(Rejection::WrongArity)
        }
    } else if is_word(name, Word::PSync) {
        if n == 3 {
            Ok(Command::PSync(copy_bytes(&parts[1]), copy_bytes(&parts[2])))
        } else {
            Err(Rejection::WrongArity)
        }
    } else if is_word(name, Word::Wait) {
        if n != 3 {
            Err(Rejection::WrongArity)
        } else {
            match (parse_u32(parts[1].as_slice()), parse_u32(parts[2].as_slice())) {
                (Some(a), Some(b)) => Ok(Command::Wait(a, b)),
                _ => Err(Rejection::NotAnInteger),
            }
        }
    } else {
        Ok(Command::Unknown(copy_bytes(&parts[0])))
    }
}

/// What the start of a connection's buffer holds.
pub enum Decoded {
    /// A whole frame holding a request, and the frame's length.
    Request(Request, usize),
    /// A whole frame that is not a valid request: why, the command name it
    /// gave, and the frame's length.
    Rejected(Rejection, Vec<u8>, usize),
    /// The beginning of a frame at most: more bytes are needed.
    Incomplete,
    /// Nothing, and the stream has ended.
    Closed,
}

/// Decodes the request at the start of `buf`; `at_eof` tells that no more
/// bytes will follow. A frame may hold up to `MAX_ARGS` elements, each of at
/// most `MAX_BULK_LEN` bytes (512 MiB); a larger declared count or length is
/// `FrameError::BadLength`.
pub fn to_command(buf: &[u8], at_eof: bool) -> (r: Result<Decoded, FrameError>)
    ensures
        match scan_frame(buf@) {
            Scan::Found(parts, n) => match command_of(parts) {
                Ok(c) => r matches Ok(Decoded::Request(req, m)) && req@ == c && m == n,
                Err(e) => r matches Ok(Decoded::Rejected(e2, name, m)) && e2 == e && name@
                    == parts[0] && m == n,
            },
            Scan::Short => if buf@.len() == 0 && at_eof {
                r matches Ok(Decoded::Closed)
            } else if at_eof {
                r == Err::<Decoded, FrameError>(FrameError::PrematureEof)
            } else {
                r matches Ok(Decoded::Incomplete)
            },
            Scan::Bad(e) => r == Err::<Decoded, FrameError>(e),
        },
{
    proof {
        lemma_frame_shape(buf@);
    }
    match parse_frame(buf) {
        Frame::Complete(parts, n) => {
            match command_from_parts(&parts) {
                Ok(command) => Ok(Decoded::Request(Request { command }, n)),
                Err(e) => Ok(Decoded::Rejected(e, copy_bytes(&parts[0]), n)),
            }
        },
        Frame::Incomplete => {
            if buf.len() == 0 && at_eof {
                Ok(Decoded::Closed)
            } else if at_eof {
                Err(FrameError::PrematureEof)
            } else {
                Ok(Decoded::Incomplete)
            }
        },
        Frame::Malformed(e) => Err(e),
    }
}

/// Encodes `parts` as a request frame.
pub fn encode_parts(parts: &Vec<Vec<u8>>) -> (r: Vec<u8>)
    ensures
        r@ == frame_bytes(parts_view(parts@)),
{
    let ghost pv = parts_view(parts@);
    let mut out: Vec<u8> = Vec::new();
    out.push(42);
    append_decimal(&mut out, parts.len() as u64);
    append_crlf(&mut out);
    let ghost head = out@;
    let mut i: usize = 0;
    while i < parts.len()
        invariant
            i <= parts.len(),
            pv == parts_view(parts@),
            head == seq![42u8] + decimal(pv.len()) + crlf(),
            out@ == head + bulks_bytes(somes(pv.subrange(0, i as int))),
        decreases parts.len() - i,
    {
        append_bulk_payload(&mut out, parts[i].as_slice());
        i = i + 1;
        proof {
            let items = somes(pv.subrange(0, i as int));
            assert(items.drop_last() == somes(pv.subrange(0, i - 1)));
            assert(items.last() == Some(parts@[i - 1]@));
        }
    }
    assert(pv.subrange(0, parts.len() as int) == pv);
    out
}

/// Each byte string as a present bulk string.
pub open spec fn somes(s: Seq<Seq<u8>>) -> Seq<Option<Seq<u8>>> {
    s.map_values(|p: Seq<u8>| Some(p))
}

impl Command {
    /// The elements of the frame that sends this command.
    pub fn parts(&self) -> (r: Vec<Vec<u8>>)
        ensures
            parts_view(r@) == command_parts(self@),
    {
        let mut v: Vec<Vec<u8>> = Vec::new();
        match self {
            Command::Unknown(n) => {
                v.push(copy_bytes(n));
            },
            Command::Ping => {
                v.push(word_upper(Word::Ping));
            },
            Command::Save => {
                v.push(word_upper(Word::Save));
            },
            Command::Info(s) => {
                v.push(word_upper(Word::Info));
                v.push(copy_bytes(s));
            },
            Command::Echo(s) => {
                v.push(word_upper(Word::Echo));
                v.push(copy_bytes(s));
            },
            Command::Keys(s) => {
                v.push(word_upper(Word::Keys));
                v.push(copy_bytes(s));
            },
            Command::Get(s) => {
                v.push(word_upper(Word::Get));
                v.push(copy_bytes(s));
            },
            Command::SetKey(p) => {
                v.push(word_upper(Word::SetKey));
                v.push(copy_bytes(&p.key));
                v.push(copy_bytes(&p.value));
                match p.px {
                    Some(ms) => {
                        v.push(word_upper(Word::Px));
                        v.push(format_u64(ms as u64));
                    },
                    None => {},
                }
            },
            Command::Config(f) => {
                v.push(word_upper(Word::Config));
                v.push(word_upper(Word::Get));
                v.push(copy_bytes(f));
            },
            Command::Wait(a, b) => {
                v.push(word_upper(Word::Wait));
                v.push(format_u64(*a as u64));
                v.push(format_u64(*b as u64));
            },
            Command::ReplConf(a, b) => {
                v.push(word_upper(Word::ReplConf));
                v.push(copy_bytes(a));
                v.push(copy_bytes(b));
            },
            Command::PSync(a, b) => {
                v.push(word_upper(Word::PSync));
                v.push(copy_bytes(a));
                v.push(copy_bytes(b));
            },
        }
        assert(parts_view(v@) == command_parts(self@));
        v
    }

    /// The request frame that sends this command: an array of bulk strings.
    pub fn encode(&self) -> (r: Vec<u8>)
        ensures
            r@ == frame_bytes(command_parts(self@)),
    {
        let parts = self.parts();
        encode_parts(&parts)
    }
}

} // verus!
