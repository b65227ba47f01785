//! Replies and their byte encodings.
use crate::decimal::{decimal, format_u64};
use vstd::prelude::*;

verus! {

/// The line terminator `\r\n`.
pub open spec fn crlf() -> Seq<u8> {
    seq![13u8, 10]
}

/// `+<s>\r\n`
pub open spec fn simple_bytes(s: Seq<u8>) -> Seq<u8> {
    seq![43u8] + s + crlf()
}

/// `-<s>\r\n`
pub open spec fn error_bytes(s: Seq<u8>) -> Seq<u8> {
    seq![45u8] + s + crlf()
}

/// `:<n>\r\n`, with a minus sign before a negative value.
pub open spec fn integer_bytes(n: int) -> Seq<u8> {
    if n < 0 {
        seq![58u8, 45] + decimal((-n) as nat) + crlf()
    } else {
        seq![58u8] + decimal(n as nat) + crlf()
    }
}

/// `$<L>\r\n<bytes>\r\n`, or `$-1\r\n` for the null bulk string.
pub open spec fn bulk_bytes(item: Option<Seq<u8>>) -> Seq<u8> {
    match item {
        Some(b) => seq![36u8] + decimal(b.len()) + crlf() + b + crlf(),
        None => seq![36u8, 45, 49, 13, 10],
    }
}

/// The bulk strings of `items`, one after the other.
pub open spec fn bulks_bytes(items: Seq<Option<Seq<u8>>>) -> Seq<u8>
    decreases items.len(),
{
    if items.len() == 0 {
        Seq::empty()
    } else {
        bulks_bytes(items.drop_last()) + bulk_bytes(items.last())
    }
}

/// `*<N>\r\n` followed by the `N` bulk strings.
pub open spec fn array_bytes(items: Seq<Option<Seq<u8>>>) -> Seq<u8> {
    seq![42u8] + decimal(items.len()) + crlf() + bulks_bytes(items)
}

/// The frame of a request: an array of non-null bulk strings.
pub open spec fn frame_bytes(parts: Seq<Seq<u8>>) -> Seq<u8> {
    array_bytes(parts.map_values(|p: Seq<u8>| Some(p)))
}

/// `$<L>\r\n<bytes>`: a raw blob, without the closing line terminator.
pub open spec fn blob_bytes(b: Seq<u8>) -> Seq<u8> {
    seq![36u8] + decimal(b.len()) + crlf() + b
}

/// Appends `src` to `out`.
pub fn append(out: &mut Vec<u8>, src: &[u8])
    ensures
        final(out)@ == old(out)@ + src@,
{
    let ghost start = out@;
    let mut i: usize = 0;
    while i < src.len()
        invariant
            i <= src.len(),
            out@ == start + src@.subrange(0, i as int),
        decreases src.len() - i,
    {
        out.push(src[i]);
        i = i + 1;
        assert(src@.subrange(0, i as int) == src@.subrange(0, i - 1).push(src@[i - 1]));
    }
    assert(src@.subrange(0, src.len() as int) == src@);
}

/// Appends `\r\n` to `out`.
pub fn append_crlf(out: &mut Vec<u8>)
    ensures
        final(out)@ == old(out)@ + crlf(),
{
    out.push(13);
    out.push(10);
    assert(final(out)@ == old(out)@ + crlf());
}

/// Appends the decimal rendering of `n` to `out`.
pub fn append_decimal(out: &mut Vec<u8>, n: u64)
    ensures
        final(out)@ == old(out)@ + decimal(n as nat),
{
    let d = format_u64(n);
    append(out, d.as_slice());
}

/// A status reply such as `+OK`.
pub struct SimpleString {
    pub value: Vec<u8>,
}

/// An integer reply.
pub struct RespInteger {
    pub value: i64,
}

/// A bulk string reply; `None` is the null bulk string.
pub struct BulkString {
    pub payload: Option<Vec<u8>>,
}

/// An array of bulk strings.
pub struct Array {
    pub payload: Vec<BulkString>,
}

/// An error reply.
pub struct BaseError {
    pub message: Vec<u8>,
}

impl View for BulkString {
    type V = Option<Seq<u8>>;

    open spec fn view(&self) -> Option<Seq<u8>> {
        match self.payload {
            Some(b) => Some(b@),
            None => None,
        }
    }
}

impl View for Array {
    type V = Seq<Option<Seq<u8>>>;

    open spec fn view(&self) -> Seq<Option<Seq<u8>>> {
        self.payload@.map_values(|b: BulkString| b@)
    }
}

impl SimpleString {
    /// `+<value>\r\n`
    pub fn encode(&self) -> (r: Vec<u8>)
        ensures
            r@ == simple_bytes(self.value@),
    {
        let mut out: Vec<u8> = Vec::new();
        out.push(43);
        append(&mut out, self.value.as_slice());
        append_crlf(&mut out);
        proof {
            assert(out@ == seq![43u8] + self.value@ + crlf());
        }
        out
    }
}

impl BaseError {
    /// `-<message>\r\n`
    pub fn encode(&self) -> (r: Vec<u8>)
        ensures
            r@ == error_bytes(self.message@),
    {
        let mut out: Vec<u8> = Vec::new();
        out.push(45);
        append(&mut out, self.message.as_slice());
        append_crlf(&mut out);
        proof {
            assert(out@ == seq![45u8] + self.message@ + crlf());
        }
        out
    }
}

impl RespInteger {
    /// `:<value>\r\n`
    pub fn encode(&self) -> (r: Vec<u8>)
        ensures
            r@ == integer_bytes(self.value as int),
    {
        let mut out: Vec<u8> = Vec::new();
        out.push(58);
        if self.value < 0 {
            out.push(45);
            // the magnitude of i64::MIN still fits in u64
            let magnitude: u64 = if self.value == i64::MIN {
                9223372036854775808u64
            } else {
                (-self.value) as u64
            };
            append_decimal(&mut out, magnitude);
            append_crlf(&mut out);
            proof {
                assert(out@ == seq![58u8, 45] + decimal((-self.value) as nat) + crlf());
            }
        } else {
            append_decimal(&mut out, self.value as u64);
            append_crlf(&mut out);
            proof {
                assert(out@ == seq![58u8] + decimal(self.value as nat) + crlf());
            }
        }
        out
    }
}

impl BulkString {
    /// `$<L>\r\n<payload>\r\n`, or `$-1\r\n` when null.
    pub fn encode(&self) -> (r: Vec<u8>)
        ensures
            r@ == bulk_bytes(self@),
    {
        let mut out: Vec<u8> = Vec::new();
        append_bulk(&mut out, self);
        proof {
            assert(out@ == Seq::<u8>::empty() + bulk_bytes(self@));
        }
        out
    }
}

/// Appends the encoding of `b` to `out`.
pub fn append_bulk(out: &mut Vec<u8>, b: &BulkString)
    ensures
        final(out)@ == old(out)@ + bulk_bytes(b@),
{
    match &b.payload {
        Some(p) => {
            append_bulk_payload(out, p.as_slice());
        },
        None => {
            out.push(36);
            out.push(45);
            out.push(49);
            append_crlf(out);
            assert(final(out)@ == old(out)@ + seq![36u8, 45, 49, 13, 10]);
        },
    }
}

/// Appends `$<L>\r\n<p>\r\n` to `out`.
pub fn append_bulk_payload(out: &mut Vec<u8>, p: &[u8])
    ensures
        final(out)@ == old(out)@ + bulk_bytes(Some(p@)),
{
    out.push(36);
    append_decimal(out, p.len() as u64);
    append_crlf(out);
    append(out, p);
    append_crlf(out);
    assert(final(out)@ == old(out)@ + (seq![36u8] + decimal(p@.len()) + crlf() + p@ + crlf()));
}

impl Array {
    /// `*<N>\r\n` followed by each element's encoding.
    pub fn encode(&self) -> (r: Vec<u8>)
        ensures
            r@ == array_bytes(self@),
    {
        let mut out: Vec<u8> = Vec::new();
        out.push(42);
        append_decimal(&mut out, self.payload.len() as u64);
        append_crlf(&mut out);
        let ghost head = out@;
        let mut i: usize = 0;
        while i < self.payload.len()
            invariant
                i <= self.payload.len(),
                out@ == head + bulks_bytes(self@.subrange(0, i as int)),
                head == seq![42u8] + decimal(self@.len()) + crlf(),
            decreases self.payload.len() - i,
        {
            append_bulk(&mut out, &self.payload[i]);
            i = i + 1;
            proof {
                let items = self@.subrange(0, i as int);
                assert(items.drop_last() == self@.subrange(0, i - 1));
                assert(items.last() == self.payload@[i - 1]@);
            }
        }
        assert(self@.subrange(0, self.payload.len() as int) == self@);
        out
    }
}

/// Encodes a raw blob: `$<L>\r\n<bytes>` with no closing line terminator.
pub fn encode_blob(b: &[u8]) -> (r: Vec<u8>)
    ensures
        r@ == blob_bytes(b@),
{
    let mut out: Vec<u8> = Vec::new();
    out.push(36);
    append_decimal(&mut out, b.len() as u64);
    append_crlf(&mut out);
    append(&mut out, b);
    assert(out@ == seq![36u8] + decimal(b@.len()) + crlf() + b@);
    out
}

} // verus!
