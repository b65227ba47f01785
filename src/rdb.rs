//! The snapshot decoder: reads the entries of a binary snapshot file and
//! seeds a keyspace with them.
//!
//! ```text
//! File      := "REDIS" Version Section* 0xFF Checksum?
//! Section   := 0xFA <name:String> <value:String>
//!            | 0xFE <index:Length> 0xFB <size:Length> <expsize:Length> Entry{size}
//! Entry     := [0xFD <s:u32 LE> | 0xFC <ms:u64 LE>] 0x00 <key:String> <value:String>
//! ```
use crate::decimal::decimal;
use crate::keyspace::{KeyMap, Keyspace};
use crate::command::copy_bytes;
use crate::resp::append_decimal;
use vstd::prelude::*;

verus! {

/// Why bytes are not a snapshot.
#[derive(Debug, Clone, Copy, PartialEq, Eq, Structural)]
pub enum RdbError {
    /// The file does not begin with `REDIS`.
    BadMagic,
    /// The version is not four ASCII digits.
    BadVersion,
    /// The bytes end inside an item.
    Truncated,
    /// An entry's type is not a plain string (`0x00`).
    UnknownEntryType,
    /// A section starts with an unknown byte, or a database lacks its
    /// `0xFB` marker.
    UnexpectedOpcode,
    /// A length uses a form not supported here (compressed strings, an
    /// integer or an unknown form where a length is due).
    UnsupportedEncoding,
    /// A database declares more expiring entries than entries.
    BadCounts,
    /// Bytes follow the end marker that are not an 8-byte checksum.
    TrailingBytes,
}

/// A length-encoded item: a length, an integer, or a compressed string.
#[derive(Debug, Clone, Copy, PartialEq, Eq, Structural)]
pub enum EncodedLength {
    Len(u32),
    Int(i32),
    Compressed,
}

/// An entry of the snapshot: key, value, and absolute expiry in
/// milliseconds since the Unix epoch.
pub struct KeyValuePair {
    pub key: Vec<u8>,
    pub value: Vec<u8>,
    pub expiry_ms: Option<u64>,
}

impl View for KeyValuePair {
    type V = (Seq<u8>, Seq<u8>, Option<u64>);

    open spec fn view(&self) -> (Seq<u8>, Seq<u8>, Option<u64>) {
        (self.key@, self.value@, self.expiry_ms)
    }
}

/// The outcome of reading an item at a position: the item and the position
/// after it, or an error.
pub enum Parsed<T> {
    Read(T, int),
    Fail(RdbError),
}

/// `REDIS`
pub open spec fn magic() -> Seq<u8> {
    seq![82u8, 69, 68, 73, 83]
}

/// Four bytes from `p`, most significant first.
pub open spec fn be32(s: Seq<u8>, p: int) -> int {
    s[p] * 16777216 + s[p + 1] * 65536 + s[p + 2] * 256 + s[p + 3]
}

/// Four bytes from `p`, least significant first.
pub open spec fn le32(s: Seq<u8>, p: int) -> int {
    s[p] + s[p + 1] * 256 + s[p + 2] * 65536 + s[p + 3] * 16777216
}

/// Eight bytes from `p`, least significant first.
pub open spec fn le64(s: Seq<u8>, p: int) -> int {
    le32(s, p) + le32(s, p + 4) * 4294967296
}

/// The signed value whose two's complement is `v`, for a width holding
/// `full` values.
pub open spec fn signed(v: int, full: int) -> int {
    if 2 * v >= full {
        v - full
    } else {
        v
    }
}

/// A length-encoded item at `p`; the two high bits of its first byte choose
/// the form.
pub open spec fn scan_length(s: Seq<u8>, p: int) -> Parsed<EncodedLength> {
    if p < 0 || p >= s.len() {
        Parsed::Fail(RdbError::Truncated)
    } else {
        let b = s[p];
        let low = b % 64;
        if b < 64 {
            Parsed::Read(EncodedLength::Len(b as u32), p + 1)
        } else if b < 128 {
            if p + 2 > s.len() {
                Parsed::Fail(RdbError::Truncated)
            } else {
                Parsed::Read(EncodedLength::Len((low * 256 + s[p + 1]) as u32), p + 2)
            }
        } else if b == 128 {
            if p + 5 > s.len() {
                Parsed::Fail(RdbError::Truncated)
            } else {
                Parsed::Read(EncodedLength::Len(be32(s, p + 1) as u32), p + 5)
            }
        } else if b < 192 {
            Parsed::Fail(RdbError::UnsupportedEncoding)
        } else if low == 0 {
            if p + 2 > s.len() {
                Parsed::Fail(RdbError::Truncated)
            } else {
                Parsed::Read(EncodedLength::Int(signed(s[p + 1] as int, 256) as i32), p + 2)
            }
        } else if low == 1 {
            if p + 3 > s.len() {
                Parsed::Fail(RdbError::Truncated)
            } else {
                Parsed::Read(
                    EncodedLength::Int(signed(s[p + 1] + s[p + 2] * 256, 65536) as i32),
                    p + 3,
                )
            }
        } else if low == 2 {
            if p + 5 > s.len() {
                Parsed::Fail(RdbError::Truncated)
            } else {
                Parsed::Read(EncodedLength::Int(signed(le32(s, p + 1), 4294967296) as i32), p + 5)
            }
        } else if low == 3 {
            Parsed::Read(EncodedLength::Compressed, p + 1)
        } else {
            Parsed::Fail(RdbError::UnsupportedEncoding)
        }
    }
}

/// The decimal text of an integer, with a minus sign when negative.
pub open spec fn int_text(v: int) -> Seq<u8> {
    if v < 0 {
        seq![45u8] + decimal((-v) as nat)
    } else {
        decimal(v as nat)
    }
}

/// A string at `p`: a length and that many bytes, or an integer as text.
pub open spec fn scan_string(s: Seq<u8>, p: int) -> Parsed<Seq<u8>> {
    match scan_length(s, p) {
        Parsed::Read(EncodedLength::Len(l), q) => if q + l > s.len() {
            Parsed::Fail(RdbError::Truncated)
        } else {
            Parsed::Read(s.subrange(q, q + l), q + l)
        },
        Parsed::Read(EncodedLength::Int(v), q) => Parsed::Read(int_text(v as int), q),
        Parsed::Read(EncodedLength::Compressed, _) => Parsed::Fail(RdbError::UnsupportedEncoding),
        Parsed::Fail(e) => Parsed::Fail(e),
    }
}

/// A length at `p`, where no other form is allowed.
pub open spec fn scan_size(s: Seq<u8>, p: int) -> Parsed<u32> {
    match scan_length(s, p) {
        Parsed::Read(EncodedLength::Len(l), q) => Parsed::Read(l, q),
        Parsed::Read(_, _) => Parsed::Fail(RdbError::UnsupportedEncoding),
        Parsed::Fail(e) => Parsed::Fail(e),
    }
}

/// An entry at `p`: an optional expiry, the type byte, the key and the value.
#[verifier::opaque]
pub open spec fn scan_entry(s: Seq<u8>, p: int) -> Parsed<(Seq<u8>, Seq<u8>, Option<u64>)> {
    if p < 0 || p >= s.len() {
        Parsed::Fail(RdbError::Truncated)
    } else {
        let (expiry, t): (Option<u64>, int) = if s[p] == 0xFD {
            (Some((le32(s, p + 1) * 1000) as u64), p + 5)
        } else if s[p] == 0xFC {
            (Some(le64(s, p + 1) as u64), p + 9)
        } else {
            (None, p)
        };
        if t >= s.len() {
            Parsed::Fail(RdbError::Truncated)
        } else if s[t] != 0 {
            Parsed::Fail(RdbError::UnknownEntryType)
        } else {
            match scan_string(s, t + 1) {
                Parsed::Read(key, q) => match scan_string(s, q) {
                    Parsed::Read(value, q2) => Parsed::Read((key, value, expiry), q2),
                    Parsed::Fail(e) => Parsed::Fail(e),
                },
                Parsed::Fail(e) => Parsed::Fail(e),
            }
        }
    }
}

/// `k` more entries from `p` on, after those in `acc`.
pub open spec fn scan_entries(
    s: Seq<u8>,
    p: int,
    k: nat,
    acc: Seq<(Seq<u8>, Seq<u8>, Option<u64>)>,
) -> Parsed<Seq<(Seq<u8>, Seq<u8>, Option<u64>)>>
    decreases k,
{
    if k == 0 {
        Parsed::Read(acc, p)
    } else {
        match scan_entry(s, p) {
            Parsed::Read(e, q) => scan_entries(s, q, (k - 1) as nat, acc.push(e)),
            Parsed::Fail(e) => Parsed::Fail(e),
        }
    }
}

/// A database section after its `0xFE` marker, whose entries are added to
/// `acc`.
#[verifier::opaque]
pub open spec fn scan_database(
    s: Seq<u8>,
    p: int,
    acc: Seq<(Seq<u8>, Seq<u8>, Option<u64>)>,
) -> Parsed<Seq<(Seq<u8>, Seq<u8>, Option<u64>)>> {
    match scan_size(s, p) {
        Parsed::Read(_, q) => if q >= s.len() {
            Parsed::Fail(RdbError::Truncated)
        } else if s[q] != 0xFB {
            Parsed::Fail(RdbError::UnexpectedOpcode)
        } else {
            match scan_size(s, q + 1) {
                Parsed::Read(size, q2) => match scan_size(s, q2) {
                    Parsed::Read(expsize, q3) => if expsize > size {
                        Parsed::Fail(RdbError::BadCounts)
                    } else {
                        scan_entries(s, q3, size as nat, acc)
                    },
                    Parsed::Fail(e) => Parsed::Fail(e),
                },
                Parsed::Fail(e) => Parsed::Fail(e),
            }
        },
        Parsed::Fail(e) => Parsed::Fail(e),
    }
}

/// The sections from `p` on up to the end marker, with the entries read so
/// far in `acc`.
pub open spec fn scan_sections(
    s: Seq<u8>,
    p: int,
    acc: Seq<(Seq<u8>, Seq<u8>, Option<u64>)>,
) -> Result<Seq<(Seq<u8>, Seq<u8>, Option<u64>)>, RdbError>
    decreases s.len() - p,
{
    if p < 0 || p >= s.len() {
        Err(RdbError::Truncated)
    } else if s[p] == 0xFF {
        let rest = s.len() - (p + 1);
        if rest == 0 || rest == 8 {
            Ok(acc)
        } else if rest < 8 {
            Err(RdbError::Truncated)
        } else {
            Err(RdbError::TrailingBytes)
        }
    } else if s[p] == 0xFA {
        match scan_string(s, p + 1) {
            Parsed::Read(_, q) => match scan_string(s, q) {
                Parsed::Read(_, q2) => scan_sections(s, q2, acc),
                Parsed::Fail(e) => Err(e),
            },
            Parsed::Fail(e) => Err(e),
        }
    } else if s[p] == 0xFE {
        match scan_database(s, p + 1, acc) {
            // a database always ends after it starts and within the bytes;
            // the test makes that visible to the termination check
            Parsed::Read(acc2, q) => if q <= p || q > s.len() {
                Err(RdbError::Truncated)
            } else {
                scan_sections(s, q, acc2)
            },
            Parsed::Fail(e) => Err(e),
        }
    } else {
        Err(RdbError::UnexpectedOpcode)
    }
}

/// Whether the first bytes of `s` (up to five) disagree with `REDIS`.
pub open spec fn magic_mismatch(s: Seq<u8>) -> bool {
    exists|i: int| 0 <= i < 5 && i < s.len() && #[trigger] s[i] != magic()[i]
}

/// The entries of a snapshot, in file order.
pub open spec fn scan_rdb(s: Seq<u8>) -> Result<Seq<(Seq<u8>, Seq<u8>, Option<u64>)>, RdbError> {
    if magic_mismatch(s) {
        Err(RdbError::BadMagic)
    } else if s.len() < 9 {
        Err(RdbError::Truncated)
    } else if !(48 <= s[5] <= 57 && 48 <= s[6] <= 57 && 48 <= s[7] <= 57 && 48 <= s[8] <= 57) {
        Err(RdbError::BadVersion)
    } else {
        scan_sections(s, 9, Seq::empty())
    }
}

/// A keyspace after inserting `entries` in order.
pub open spec fn load(m: KeyMap, entries: Seq<(Seq<u8>, Seq<u8>, Option<u64>)>) -> KeyMap
    decreases entries.len(),
{
    if entries.len() == 0 {
        m
    } else {
        let e = entries.last();
        load(m, entries.drop_last()).insert(e.0, (e.1, e.2))
    }
}

/// The views of a vector of entries.
pub open spec fn pairs_view(v: Seq<KeyValuePair>) -> Seq<(Seq<u8>, Seq<u8>, Option<u64>)> {
    v.map_values(|e: KeyValuePair| e@)
}

fn le32_at(s: &[u8], p: usize) -> (r: u64)
    requires
        p + 4 <= s.len(),
    ensures
        r == le32(s@, p as int),
        r < 4294967296,
{
    s[p] as u64 + s[p + 1] as u64 * 256 + s[p + 2] as u64 * 65536 + s[p + 3] as u64 * 16777216
}

/// Reads a length-encoded item at `p`.
pub fn read_length(s: &[u8], p: usize) -> (r: Result<(EncodedLength, usize), RdbError>)
    ensures
        match scan_length(s@, p as int) {
            Parsed::Read(v, q) => r == Ok::<(EncodedLength, usize), RdbError>((v, q as usize))
                && p < q <= s.len(),
            Parsed::Fail(e) => r == Err::<(EncodedLength, usize), RdbError>(e),
        },
{
    if p >= s.len() {
        return Err(RdbError::Truncated);
    }
    let b = s[p];
    let low = b % 64;
    if b < 64 {
        Ok((EncodedLength::Len(b as u32), p + 1))
    } else if b < 128 {
        if s.len() - p < 2 {
            Err(RdbError::Truncated)
        } else {
            Ok((EncodedLength::Len(low as u32 * 256 + s[p + 1] as u32), p + 2))
        }
    } else if b == 128 {
        if s.len() - p < 5 {
            Err(RdbError::Truncated)
        } else {
            let v = s[p + 1] as u32 * 16777216 + s[p + 2] as u32 * 65536 + s[p + 3] as u32 * 256
                + s[p + 4] as u32;
            Ok((EncodedLength::Len(v), p + 5))
        }
    } else if b < 192 {
        Err(RdbError::UnsupportedEncoding)
    } else if low == 0 {
        if s.len() - p < 2 {
            Err(RdbError::Truncated)
        } else {
            let x = s[p + 1] as i32;
            let v: i32 = if x >= 128 {
                x - 256
            } else {
                x
            };
            Ok((EncodedLength::Int(v), p + 2))
        }
    } else if low == 1 {
        if s.len() - p < 3 {
            Err(RdbError::Truncated)
        } else {
            let x = s[p + 1] as i32 + s[p + 2] as i32 * 256;
            let v: i32 = if x >= 32768 {
                x - 65536
            } else {
                x
            };
            Ok((EncodedLength::Int(v), p + 3))
        }
    } else if low == 2 {
        if s.len() - p < 5 {
            Err(RdbError::Truncated)
        } else {
            let x = le32_at(s, p + 1) as i64;
            let v: i64 = if x >= 2147483648 {
                x - 4294967296
            } else {
                x
            };
            Ok((EncodedLength::Int(v as i32), p + 5))
        }
    } else if low == 3 {
        Ok((EncodedLength::Compressed, p + 1))
    } else {
        Err(RdbError::UnsupportedEncoding)
    }
}

/// The decimal text of `v`.
fn int_text_bytes(v: i32) -> (r: Vec<u8>)
    ensures
        r@ == int_text(v as int),
{
    let mut out: Vec<u8> = Vec::new();
    let w = v as i64;
    if w < 0 {
        out.push(45);
        append_decimal(&mut out, (-w) as u64);
    } else {
        append_decimal(&mut out, w as u64);
    }
    out
}

/// Copies `s[from..to]`.
fn copy_slice(s: &[u8], from: usize, to: usize) -> (r: Vec<u8>)
    requires
        from <= to <= s.len(),
    ensures
        r@ == s@.subrange(from as int, to as int),
{
    let mut out: Vec<u8> = Vec::new();
    let mut i: usize = from;
    while i < to
        invariant
            from <= i <= to <= s.len(),
            out@ == s@.subrange(from as int, i as int),
        decreases to - i,
    {
        out.push(s[i]);
        i = i + 1;
        assert(out@ == s@.subrange(from as int, i as int));
    }
    out
}

/// Reads a string at `p`.
pub fn read_string(s: &[u8], p: usize) -> (r: Result<(Vec<u8>, usize), RdbError>)
    ensures
        match scan_string(s@, p as int) {
            Parsed::Read(v, q) => r matches Ok((x, q2)) && x@ == v && q2 == q && p < q <= s.len(),
            Parsed::Fail(e) => r matches Err(e2) && e2 == e,
        },
{
    match read_length(s, p) {
        Ok((EncodedLength::Len(l), q)) => {
            if s.len() - q < l as usize {
                Err(RdbError::Truncated)
            } else {
                let end = q + l as usize;
                Ok((copy_slice(s, q, end), end))
            }
        },
        Ok((EncodedLength::Int(v), q)) => Ok((int_text_bytes(v), q)),
        Ok((EncodedLength::Compressed, _)) => Err(RdbError::UnsupportedEncoding),
        Err(e) => Err(e),
    }
}

fn read_size(s: &[u8], p: usize) -> (r: Result<(u32, usize), RdbError>)
    ensures
        match scan_size(s@, p as int) {
            Parsed::Read(v, q) => r == Ok::<(u32, usize), RdbError>((v, q as usize)) && p < q
                <= s.len(),
            Parsed::Fail(e) => r == Err::<(u32, usize), RdbError>(e),
        },
{
    match read_length(s, p) {
        Ok((EncodedLength::Len(l), q)) => Ok((l, q)),
        Ok(_) => Err(RdbError::UnsupportedEncoding),
        Err(e) => Err(e),
    }
}

/// Reads an entry at `p`.
pub fn read_entry(s: &[u8], p: usize) -> (r: Result<(KeyValuePair, usize), RdbError>)
    ensures
        match scan_entry(s@, p as int) {
            Parsed::Read(v, q) => r matches Ok((x, q2)) && x@ == v && q2 == q && p < q <= s.len(),
            Parsed::Fail(e) => r matches Err(e2) && e2 == e,
        },
{
    reveal(scan_entry);
    if p >= s.len() {
        return Err(RdbError::Truncated);
    }
    let mut expiry: Option<u64> = None;
    let mut t: usize = p;
    if s[p] == 0xFD {
        if s.len() - p < 5 {
            return Err(RdbError::Truncated);
        }
        expiry = Some(le32_at(s, p + 1) * 1000);
        t = p + 5;
    } else if s[p] == 0xFC {
        if s.len() - p < 9 {
            return Err(RdbError::Truncated);
        }
        let lo = le32_at(s, p + 1);
        let hi = le32_at(s, p + 5);
        expiry = Some(lo + hi * 4294967296);
        t = p + 9;
    }
    if t >= s.len() {
        return Err(RdbError::Truncated);
    }
    if s[t] != 0 {
        return Err(RdbError::UnknownEntryType);
    }
    match read_string(s, t + 1) {
        Ok((key, q)) => match read_string(s, q) {
            Ok((value, q2)) => Ok((KeyValuePair { key, value, expiry_ms: expiry }, q2)),
            Err(e) => Err(e),
        },
        Err(e) => Err(e),
    }
}

/// Reads a database section after its `0xFE` marker, adding its entries to
/// `acc`; returns the position after it.
fn read_database(s: &[u8], p: usize, acc: &mut Vec<KeyValuePair>) -> (r: Result<usize, RdbError>)
    ensures
        match scan_database(s@, p as int, pairs_view(old(acc)@)) {
            Parsed::Read(v, q) => r == Ok::<usize, RdbError>(q as usize) && pairs_view(final(acc)@)
                == v && p < q <= s.len(),
            Parsed::Fail(e) => r == Err::<usize, RdbError>(e),
        },
{
    reveal(scan_database);
    let ghost start = pairs_view(acc@);
    let q = match read_size(s, p) {
        Ok((_, q)) => q,
        Err(e) => {
            return Err(e);
        },
    };
    if q >= s.len() {
        return Err(RdbError::Truncated);
    }
    if s[q] != 0xFB {
        return Err(RdbError::UnexpectedOpcode);
    }
    let (size, q2) = match read_size(s, q + 1) {
        Ok(x) => x,
        Err(e) => {
            return Err(e);
        },
    };
    let (expsize, q3) = match read_size(s, q2) {
        Ok(x) => x,
        Err(e) => {
            return Err(e);
        },
    };
    if expsize > size {
        return Err(RdbError::BadCounts);
    }
    let mut pos: usize = q3;
    let mut k: u32 = 0;
    while k < size
        invariant
            k <= size,
            p < pos <= s.len(),
            start == pairs_view(old(acc)@),
            scan_database(s@, p as int, start) == scan_entries(
                s@,
                pos as int,
                (size - k) as nat,
                pairs_view(acc@),
            ),
        decreases size - k,
    {
        match read_entry(s, pos) {
            Ok((e, next)) => {
                let ghost before = pairs_view(acc@);
                acc.push(e);
                assert(pairs_view(acc@) == before.push(e@));
                pos = next;
                k = k + 1;
            },
            Err(e) => {
                assert(scan_entries(s@, pos as int, (size - k) as nat, pairs_view(acc@))
                    == Parsed::<Seq<(Seq<u8>, Seq<u8>, Option<u64>)>>::Fail(e));
                return Err(e);
            },
        }
    }
    Ok(pos)
}

/// Reads the entries of a snapshot, in file order.
pub fn parse_rdb(s: &[u8]) -> (r: Result<Vec<KeyValuePair>, RdbError>)
    ensures
        match scan_rdb(s@) {
            Ok(v) => r matches Ok(x) && pairs_view(x@) == v,
            Err(e) => r matches Err(e2) && e2 == e,
        },
{
    let m = vec![82u8, 69, 68, 73, 83];
    let mut i: usize = 0;
    while i < 5 && i < s.len()
        invariant
            i <= 5,
            m@ == magic(),
            forall|j: int| 0 <= j < i && j < s.len() ==> s@[j] == magic()[j],
        decreases 5 - i,
    {
        if s[i] != m[i] {
            assert(s@[i as int] != magic()[i as int]);
            return Err(RdbError::BadMagic);
        }
        i = i + 1;
    }
    assert(!magic_mismatch(s@));
    if s.len() < 9 {
        return Err(RdbError::Truncated);
    }
    if !(48 <= s[5] && s[5] <= 57 && 48 <= s[6] && s[6] <= 57 && 48 <= s[7] && s[7] <= 57 && 48
        <= s[8] && s[8] <= 57) {
        return Err(RdbError::BadVersion);
    }
    let mut acc: Vec<KeyValuePair> = Vec::new();
    let mut pos: usize = 9;
    assert(pairs_view(acc@) == Seq::<(Seq<u8>, Seq<u8>, Option<u64>)>::empty());
    loop
        invariant
            pos <= s.len(),
            scan_rdb(s@) == scan_sections(s@, pos as int, pairs_view(acc@)),
        decreases s.len() - pos,
    {
        if pos >= s.len() {
            return Err(RdbError::Truncated);
        }
        let op = s[pos];
        if op == 0xFF {
            let rest = s.len() - (pos + 1);
            if rest == 0 || rest == 8 {
                return Ok(acc);
            } else if rest < 8 {
                return Err(RdbError::Truncated);
            } else {
                return Err(RdbError::TrailingBytes);
            }
        } else if op == 0xFA {
            let q = match read_string(s, pos + 1) {
                Ok((_, q)) => q,
                Err(e) => {
                    return Err(e);
                },
            };
            let q2 = match read_string(s, q) {
                Ok((_, q2)) => q2,
                Err(e) => {
                    return Err(e);
                },
            };
            assert(scan_sections(s@, pos as int, pairs_view(acc@)) == scan_sections(
                s@,
                q2 as int,
                pairs_view(acc@),
            ));
            pos = q2;
        } else if op == 0xFE {
            let ghost old_view = pairs_view(acc@);
            let q = match read_database(s, pos + 1, &mut acc) {
                Ok(q) => q,
                Err(e) => {
                    return Err(e);
                },
            };
            if q <= pos || q > s.len() {
                return Err(RdbError::Truncated);
            }
            assert(scan_sections(s@, pos as int, old_view) == scan_sections(
                s@,
                q as int,
                pairs_view(acc@),
            ));
            pos = q;
        } else {
            return Err(RdbError::UnexpectedOpcode);
        }
    }
}

/// Seeds `keyspace` with the entries of the snapshot `bytes`, in file order;
/// on an error the keyspace is left as it was.
pub fn read_rdb_from_bytes(bytes: &[u8], keyspace: &mut Keyspace) -> (r: Result<(), RdbError>)
    requires
        old(keyspace).wf(),
    ensures
        final(keyspace).wf(),
        match scan_rdb(bytes@) {
            Ok(entries) => r is Ok && final(keyspace)@ == load(old(keyspace)@, entries),
            Err(e) => r == Err::<(), RdbError>(e) && final(keyspace)@ == old(keyspace)@,
        },
{
    let entries = match parse_rdb(bytes) {
        Ok(v) => v,
        Err(e) => {
            return Err(e);
        },
    };
    let ghost pv = pairs_view(entries@);
    let ghost start = keyspace@;
    let mut i: usize = 0;
    while i < entries.len()
        invariant
            i <= entries.len(),
            pv == pairs_view(entries@),
            keyspace.wf(),
            keyspace@ == load(start, pv.subrange(0, i as int)),
        decreases entries.len() - i,
    {
        let e = &entries[i];
        keyspace.insert_seeded(copy_bytes(&e.key), copy_bytes(&e.value), e.expiry_ms);
        i = i + 1;
        assert(pv.subrange(0, i as int).drop_last() == pv.subrange(0, i - 1));
    }
    assert(pv.subrange(0, entries.len() as int) == pv);
    Ok(())
}

} // verus!
