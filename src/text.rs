//! The fixed texts of replies.
use vstd::prelude::*;

verus! {

/// A fixed reply text.
#[derive(Debug, Clone, Copy, PartialEq, Eq, Structural)]
pub enum Text {
    /// `PONG`
    Pong,
    /// `OK`
    Okay,
    /// `FULLRESYNC `
    FullResync,
    /// ` 0`
    SpaceZero,
    /// `role:master`
    RoleMaster,
    /// `role:slave`
    RoleSlave,
    /// `master_replid:`
    MasterReplid,
    /// `master_repl_offset:`
    MasterReplOffset,
    /// `Config key '`
    ConfigKey,
    /// `' unknown`
    Unknown,
    /// `unknown command '`
    UnknownCommand,
    /// `'`
    Quote,
    /// `ERR SAVE is not supported`
    SaveUnsupported,
    /// `ERR wrong number of arguments for '`
    WrongArity,
    /// `' command`
    CommandSuffix,
    /// `ERR syntax error`
    SyntaxError,
    /// `ERR value is not an integer or out of range`
    NotAnInteger,
    /// `ERR Protocol error: invalid header`
    BadHeader,
    /// `ERR Protocol error: invalid length`
    BadLength,
    /// `ERR Protocol error: payload length mismatch`
    LengthMismatch,
    /// `ERR Protocol error: unexpected end of stream`
    PrematureEof,
    /// `ERR snapshot unavailable`
    SnapshotUnavailable,
}

/// The bytes of `t`.
pub open spec fn text(t: Text) -> Seq<u8> {
    match t {
        Text::Pong => seq![80u8, 79, 78, 71],
        Text::Okay => seq![79u8, 75],
        Text::FullResync => seq![70u8, 85, 76, 76, 82, 69, 83, 89, 78, 67, 32],
        Text::SpaceZero => seq![32u8, 48],
        Text::RoleMaster => seq![114u8, 111, 108, 101, 58, 109, 97, 115, 116, 101, 114],
        Text::RoleSlave => seq![114u8, 111, 108, 101, 58, 115, 108, 97, 118, 101],
        Text::MasterReplid => seq![109u8, 97, 115, 116, 101, 114, 95, 114, 101, 112, 108, 105, 100, 58],
        Text::MasterReplOffset => seq![109u8, 97, 115, 116, 101, 114, 95, 114, 101, 112, 108, 95, 111, 102, 102, 115, 101, 116, 58],
        Text::ConfigKey => seq![67u8, 111, 110, 102, 105, 103, 32, 107, 101, 121, 32, 39],
        Text::Unknown => seq![39u8, 32, 117, 110, 107, 110, 111, 119, 110],
        Text::UnknownCommand => seq![117u8, 110, 107, 110, 111, 119, 110, 32, 99, 111, 109, 109, 97, 110, 100, 32, 39],
        Text::Quote => seq![39u8],
        Text::SaveUnsupported => seq![69u8, 82, 82, 32, 83, 65, 86, 69, 32, 105, 115, 32, 110, 111, 116, 32, 115, 117, 112, 112, 111, 114, 116, 101, 100],
        Text::WrongArity => seq![69u8, 82, 82, 32, 119, 114, 111, 110, 103, 32, 110, 117, 109, 98, 101, 114, 32, 111, 102, 32, 97, 114, 103, 117, 109, 101, 110, 116, 115, 32, 102, 111, 114, 32, 39],
        Text::CommandSuffix => seq![39u8, 32, 99, 111, 109, 109, 97, 110, 100],
        Text::SyntaxError => seq![69u8, 82, 82, 32, 115, 121, 110, 116, 97, 120, 32, 101, 114, 114, 111, 114],
        Text::NotAnInteger => seq![69u8, 82, 82, 32, 118, 97, 108, 117, 101, 32, 105, 115, 32, 110, 111, 116, 32, 97, 110, 32, 105, 110, 116, 101, 103, 101, 114, 32, 111, 114, 32, 111, 117, 116, 32, 111, 102, 32, 114, 97, 110, 103, 101],
        Text::BadHeader => seq![69u8, 82, 82, 32, 80, 114, 111, 116, 111, 99, 111, 108, 32, 101, 114, 114, 111, 114, 58, 32, 105, 110, 118, 97, 108, 105, 100, 32, 104, 101, 97, 100, 101, 114],
        Text::BadLength => seq![69u8, 82, 82, 32, 80, 114, 111, 116, 111, 99, 111, 108, 32, 101, 114, 114, 111, 114, 58, 32, 105, 110, 118, 97, 108, 105, 100, 32, 108, 101, 110, 103, 116, 104],
        Text::LengthMismatch => seq![69u8, 82, 82, 32, 80, 114, 111, 116, 111, 99, 111, 108, 32, 101, 114, 114, 111, 114, 58, 32, 112, 97, 121, 108, 111, 97, 100, 32, 108, 101, 110, 103, 116, 104, 32, 109, 105, 115, 109, 97, 116, 99, 104],
        Text::PrematureEof => seq![69u8, 82, 82, 32, 80, 114, 111, 116, 111, 99, 111, 108, 32, 101, 114, 114, 111, 114, 58, 32, 117, 110, 101, 120, 112, 101, 99, 116, 101, 100, 32, 101, 110, 100, 32, 111, 102, 32, 115, 116, 114, 101, 97, 109],
        Text::SnapshotUnavailable => seq![69u8, 82, 82, 32, 115, 110, 97, 112, 115, 104, 111, 116, 32, 117, 110, 97, 118, 97, 105, 108, 97, 98, 108, 101],
    }
}

/// The bytes of `t`.
pub fn text_bytes(t: Text) -> (r: Vec<u8>)
    ensures
        r@ == text(t),
{
    match t {
        Text::Pong => vec![80u8, 79, 78, 71],
        Text::Okay => vec![79u8, 75],
        Text::FullResync => vec![70u8, 85, 76, 76, 82, 69, 83, 89, 78, 67, 32],
        Text::SpaceZero => vec![32u8, 48],
        Text::RoleMaster => vec![114u8, 111, 108, 101, 58, 109, 97, 115, 116, 101, 114],
        Text::RoleSlave => vec![114u8, 111, 108, 101, 58, 115, 108, 97, 118, 101],
        Text::MasterReplid => vec![109u8, 97, 115, 116, 101, 114, 95, 114, 101, 112, 108, 105, 100, 58],
        Text::MasterReplOffset => vec![109u8, 97, 115, 116, 101, 114, 95, 114, 101, 112, 108, 95, 111, 102, 102, 115, 101, 116, 58],
        Text::ConfigKey => vec![67u8, 111, 110, 102, 105, 103, 32, 107, 101, 121, 32, 39],
        Text::Unknown => vec![39u8, 32, 117, 110, 107, 110, 111, 119, 110],
        Text::UnknownCommand => vec![117u8, 110, 107, 110, 111, 119, 110, 32, 99, 111, 109, 109, 97, 110, 100, 32, 39],
        Text::Quote => vec![39u8],
        Text::SaveUnsupported => vec![69u8, 82, 82, 32, 83, 65, 86, 69, 32, 105, 115, 32, 110, 111, 116, 32, 115, 117, 112, 112, 111, 114, 116, 101, 100],
        Text::WrongArity => vec![69u8, 82, 82, 32, 119, 114, 111, 110, 103, 32, 110, 117, 109, 98, 101, 114, 32, 111, 102, 32, 97, 114, 103, 117, 109, 101, 110, 116, 115, 32, 102, 111, 114, 32, 39],
        Text::CommandSuffix => vec![39u8, 32, 99, 111, 109, 109, 97, 110, 100],
        Text::SyntaxError => vec![69u8, 82, 82, 32, 115, 121, 110, 116, 97, 120, 32, 101, 114, 114, 111, 114],
        Text::NotAnInteger => vec![69u8, 82, 82, 32, 118, 97, 108, 117, 101, 32, 105, 115, 32, 110, 111, 116, 32, 97, 110, 32, 105, 110, 116, 101, 103, 101, 114, 32, 111, 114, 32, 111, 117, 116, 32, 111, 102, 32, 114, 97, 110, 103, 101],
        Text::BadHeader => vec![69u8, 82, 82, 32, 80, 114, 111, 116, 111, 99, 111, 108, 32, 101, 114, 114, 111, 114, 58, 32, 105, 110, 118, 97, 108, 105, 100, 32, 104, 101, 97, 100, 101, 114],
        Text::BadLength => vec![69u8, 82, 82, 32, 80, 114, 111, 116, 111, 99, 111, 108, 32, 101, 114, 114, 111, 114, 58, 32, 105, 110, 118, 97, 108, 105, 100, 32, 108, 101, 110, 103, 116, 104],
        Text::LengthMismatch => vec![69u8, 82, 82, 32, 80, 114, 111, 116, 111, 99, 111, 108, 32, 101, 114, 114, 111, 114, 58, 32, 112, 97, 121, 108, 111, 97, 100, 32, 108, 101, 110, 103, 116, 104, 32, 109, 105, 115, 109, 97, 116, 99, 104],
        Text::PrematureEof => vec![69u8, 82, 82, 32, 80, 114, 111, 116, 111, 99, 111, 108, 32, 101, 114, 114, 111, 114, 58, 32, 117, 110, 101, 120, 112, 101, 99, 116, 101, 100, 32, 101, 110, 100, 32, 111, 102, 32, 115, 116, 114, 101, 97, 109],
        Text::SnapshotUnavailable => vec![69u8, 82, 82, 32, 115, 110, 97, 112, 115, 104, 111, 116, 32, 117, 110, 97, 118, 97, 105, 108, 97, 98, 108, 101],
    }
}

} // verus!
