//! Parsing of request frames: `*<N>\r\n` followed by `N` bulk strings.
use crate::decimal::{
    all_digits, decimal, digits_value, is_digit, lemma_decimal_digits, lemma_decimal_len, pow10,
};
use crate::resp::{bulk_bytes, bulks_bytes, crlf, frame_bytes};
use vstd::prelude::*;

verus! {

/// The largest number of elements a request frame may hold.
pub const MAX_ARGS: u64 = 1024;

/// The largest payload a bulk string of a request may declare (512 MiB,
/// the protocol's customary ceiling): a longer declared length makes the
/// frame malformed (`BadLength`) before any payload byte is awaited, and it
/// keeps every length within `usize` on 32-bit targets.
pub const MAX_BULK_LEN: u64 = 536870912;

/// The largest number of digits a length header may hold.
pub const MAX_DIGITS: usize = 10;

/// Why bytes do not form a request frame.
#[derive(Debug, Clone, Copy, PartialEq, Eq, Structural)]
pub enum FrameError {
    /// A header lacks its marker, its digits, or its line end.
    BadHeader,
    /// An element count of zero or above the limit, or a payload length above the limit.
    BadLength,
    /// A payload is not followed by `\r\n`.
    LengthMismatch,
    /// The stream ended inside a frame.
    PrematureEof,
}

/// The outcome of reading one item at a position: the item and the
/// position after it, a need for more bytes, or an error.
pub enum Scan<T> {
    Found(T, int),
    Short,
    Bad(FrameError),
}

/// The number of consecutive digits of `s` from position `p` on.
pub open spec fn digit_run(s: Seq<u8>, p: int) -> nat
    decreases s.len() - p,
{
    if p < 0 || p >= s.len() || !is_digit(s[p]) {
        0
    } else {
        1 + digit_run(s, p + 1)
    }
}

/// A header at `p`: the byte `marker`, one to ten digits, then `\r\n`.
pub open spec fn scan_header(s: Seq<u8>, p: int, marker: u8) -> Scan<nat> {
    let k = digit_run(s, p + 1);
    let q = p + 1 + k;
    if p >= s.len() {
        Scan::Short
    } else if s[p] != marker {
        Scan::Bad(FrameError::BadHeader)
    } else if k > MAX_DIGITS {
        Scan::Bad(FrameError::BadHeader)
    } else if q >= s.len() {
        Scan::Short
    } else if k == 0 || s[q] != 13 {
        Scan::Bad(FrameError::BadHeader)
    } else if q + 1 >= s.len() {
        Scan::Short
    } else if s[q + 1] != 10 {
        Scan::Bad(FrameError::BadHeader)
    } else {
        Scan::Found(digits_value(s.subrange(p + 1, q)), q + 2)
    }
}

/// A bulk string at `p`: a `$` header of length `L`, `L` bytes, then `\r\n`.
pub open spec fn scan_bulk(s: Seq<u8>, p: int) -> Scan<Seq<u8>> {
    match scan_header(s, p, 36) {
        Scan::Found(l, q) => {
            if l > MAX_BULK_LEN {
                Scan::Bad(FrameError::BadLength)
            } else if q + l + 2 > s.len() {
                Scan::Short
            } else if s[q + l] != 13 || s[q + l + 1] != 10 {
                Scan::Bad(FrameError::LengthMismatch)
            } else {
                Scan::Found(s.subrange(q, q + l), q + l + 2)
            }
        },
        Scan::Short => Scan::Short,
        Scan::Bad(e) => Scan::Bad(e),
    }
}

/// `k` more bulk strings from `p` on, after those already in `acc`.
pub open spec fn scan_elements(s: Seq<u8>, p: int, k: nat, acc: Seq<Seq<u8>>) -> Scan<
    Seq<Seq<u8>>,
>
    decreases k,
{
    if k == 0 {
        Scan::Found(acc, p)
    } else {
        match scan_bulk(s, p) {
            Scan::Found(b, q) => scan_elements(s, q, (k - 1) as nat, acc.push(b)),
            Scan::Short => Scan::Short,
            Scan::Bad(e) => Scan::Bad(e),
        }
    }
}

/// A request frame at the start of `s`: its elements and its length.
pub open spec fn scan_frame(s: Seq<u8>) -> Scan<Seq<Seq<u8>>> {
    match scan_header(s, 0, 42) {
        Scan::Found(n, q) => {
            if n == 0 || n > MAX_ARGS {
                Scan::Bad(FrameError::BadLength)
            } else {
                scan_elements(s, q, n, Seq::empty())
            }
        },
        Scan::Short => Scan::Short,
        Scan::Bad(e) => Scan::Bad(e),
    }
}

/// The result of looking for a request frame at the start of a buffer.
pub enum Frame {
    /// A whole frame: its elements and the number of bytes it takes.
    Complete(Vec<Vec<u8>>, usize),
    /// The buffer holds the beginning of a frame at most.
    Incomplete,
    /// The buffer does not begin with a frame.
    Malformed(FrameError),
}

/// The byte strings held by a vector of byte vectors.
pub open spec fn parts_view(parts: Seq<Vec<u8>>) -> Seq<Seq<u8>> {
    parts.map_values(|p: Vec<u8>| p@)
}

impl View for Frame {
    type V = Scan<Seq<Seq<u8>>>;

    open spec fn view(&self) -> Scan<Seq<Seq<u8>>> {
        match self {
            Frame::Complete(parts, n) => Scan::Found(parts_view(parts@), *n as int),
            Frame::Incomplete => Scan::Short,
            Frame::Malformed(e) => Scan::Bad(*e),
        }
    }
}

enum Step<T> {
    Found(T, usize),
    Short,
    Bad(FrameError),
}

proof fn lemma_pow10_mono(a: nat, b: nat)
    requires
        a <= b,
    ensures
        pow10(a) <= pow10(b),
    decreases b,
{
    if a < b {
        lemma_pow10_mono(a, (b - 1) as nat);
    }
}

proof fn lemma_pow10_ten()
    ensures
        pow10(10) == 10000000000,
{
    reveal_with_fuel(pow10, 11);
}

/// Reads a header at `p`.
fn read_header(buf: &[u8], p: usize, marker: u8) -> (r: Step<u64>)
    ensures
        match scan_header(buf@, p as int, marker) {
            Scan::Found(v, q) => r matches Step::Found(x, q2) && x == v && q2 == q,
            Scan::Short => r is Short,
            Scan::Bad(e) => r matches Step::Bad(e2) && e2 == e,
        },
{
    if p >= buf.len() {
        return Step::Short;
    }
    if buf[p] != marker {
        return Step::Bad(FrameError::BadHeader);
    }
    let start: usize = p + 1;
    let mut i: usize = start;
    let mut v: u64 = 0;
    while i < buf.len() && 48 <= buf[i] && buf[i] <= 57 && i - start < MAX_DIGITS
        invariant
            p < buf.len(),
            start == p + 1,
            start <= i <= buf.len(),
            i - start <= MAX_DIGITS,
            all_digits(buf@.subrange(start as int, i as int)),
            digit_run(buf@, start as int) == (i - start) + digit_run(buf@, i as int),
            v == digits_value(buf@.subrange(start as int, i as int)),
            v < pow10((i - start) as nat),
        decreases buf.len() - i,
    {
        let d = buf[i] - 48;
        proof {
            lemma_pow10_mono((i - start + 1) as nat, 10);
            lemma_pow10_ten();
            assert(v * 10 + d < pow10((i - start + 1) as nat)) by (nonlinear_arith)
                requires
                    v < pow10((i - start) as nat),
                    pow10((i - start + 1) as nat) == 10 * pow10((i - start) as nat),
                    d < 10,
            ;
            let t = buf@.subrange(start as int, i + 1);
            assert(t.drop_last() == buf@.subrange(start as int, i as int));
        }
        v = v * 10 + d as u64;
        i = i + 1;
    }
    if i < buf.len() && 48 <= buf[i] && buf[i] <= 57 {
        // more than the largest number of digits
        return Step::Bad(FrameError::BadHeader);
    }
    assert(digit_run(buf@, i as int) == 0);
    assert(digit_run(buf@, start as int) == i - start);
    if i >= buf.len() {
        return Step::Short;
    }
    if i == start || buf[i] != 13 {
        return Step::Bad(FrameError::BadHeader);
    }
    if i + 1 >= buf.len() {
        return Step::Short;
    }
    if buf[i + 1] != 10 {
        return Step::Bad(FrameError::BadHeader);
    }
    Step::Found(v, i + 2)
}

/// Copies `buf[from..to]`.
fn copy_range(buf: &[u8], from: usize, to: usize) -> (r: Vec<u8>)
    requires
        from <= to <= buf.len(),
    ensures
        r@ == buf@.subrange(from as int, to as int),
{
    let mut out: Vec<u8> = Vec::new();
    let mut i: usize = from;
    while i < to
        invariant
            from <= i <= to <= buf.len(),
            out@ == buf@.subrange(from as int, i as int),
        decreases to - i,
    {
        out.push(buf[i]);
        i = i + 1;
        assert(out@ == buf@.subrange(from as int, i as int));
    }
    out
}

/// Reads a bulk string at `p`.
fn read_bulk(buf: &[u8], p: usize) -> (r: Step<Vec<u8>>)
    ensures
        match scan_bulk(buf@, p as int) {
            Scan::Found(b, q) => r matches Step::Found(x, q2) && x@ == b && q2 == q,
            Scan::Short => r is Short,
            Scan::Bad(e) => r matches Step::Bad(e2) && e2 == e,
        },
{
    match read_header(buf, p, 36) {
        Step::Found(l, q) => {
            if l > MAX_BULK_LEN {
                return Step::Bad(FrameError::BadLength);
            }
            let len = l as usize;
            if buf.len() - q < len + 2 {
                return Step::Short;
            }
            let end = q + len;
            if buf[end] != 13 || buf[end + 1] != 10 {
                return Step::Bad(FrameError::LengthMismatch);
            }
            let payload = copy_range(buf, q, end);
            Step::Found(payload, end + 2)
        },
        Step::Short => Step::Short,
        Step::Bad(e) => Step::Bad(e),
    }
}

/// Looks for one request frame at the start of `buf`. Counts above
/// `MAX_ARGS`, payloads above `MAX_BULK_LEN` and headers of more than
/// `MAX_DIGITS` digits make it malformed.
pub fn parse_frame(buf: &[u8]) -> (r: Frame)
    ensures
        r@ == scan_frame(buf@),
{
    match read_header(buf, 0, 42) {
        Step::Found(n, q) => {
            if n == 0 || n > MAX_ARGS {
                return Frame::Malformed(FrameError::BadLength);
            }
            let mut parts: Vec<Vec<u8>> = Vec::new();
            let mut pos: usize = q;
            let mut k: u64 = 0;
            assert(parts@.map_values(|p: Vec<u8>| p@) == Seq::<Seq<u8>>::empty());
            while k < n
                invariant
                    k <= n <= MAX_ARGS,
                    scan_frame(buf@) == scan_elements(
                        buf@,
                        pos as int,
                        (n - k) as nat,
                        parts@.map_values(|p: Vec<u8>| p@),
                    ),
                decreases n - k,
            {
                match read_bulk(buf, pos) {
                    Step::Found(b, next) => {
                        let ghost before = parts@.map_values(|p: Vec<u8>| p@);
                        parts.push(b);
                        assert(parts@.map_values(|p: Vec<u8>| p@) == before.push(b@));
                        pos = next;
                        k = k + 1;
                    },
                    Step::Short => {
                        return Frame::Incomplete;
                    },
                    Step::Bad(e) => {
                        return Frame::Malformed(e);
                    },
                }
            }
            Frame::Complete(parts, pos)
        },
        Step::Short => Frame::Incomplete,
        Step::Bad(e) => Frame::Malformed(e),
    }
}

proof fn lemma_elements_shape(s: Seq<u8>, p: int, k: nat, acc: Seq<Seq<u8>>)
    requires
        0 <= p <= s.len(),
    ensures
        scan_elements(s, p, k, acc) matches Scan::Found(parts, q) ==> parts.len() == acc.len() + k
            && p <= q <= s.len(),
    decreases k,
{
    if k > 0 {
        if let Scan::Found(b, q) = scan_bulk(s, p) {
            lemma_elements_shape(s, q, (k - 1) as nat, acc.push(b));
        }
    }
}

/// A whole frame holds one to `MAX_ARGS` elements and lies within the bytes.
pub proof fn lemma_frame_shape(s: Seq<u8>)
    ensures
        scan_frame(s) matches Scan::Found(parts, n) ==> 1 <= parts.len() <= MAX_ARGS && 0 < n
            <= s.len(),
{
    if let Scan::Found(k, q) = scan_header(s, 0, 42) {
        if k != 0 && k <= MAX_ARGS {
            lemma_elements_shape(s, q, k, Seq::empty());
        }
    }
}

/// The header `$<L>\r\n` of a raw blob at the start of a buffer.
pub enum BlobHeader {
    /// The blob's length and the header's length.
    Complete(u64, usize),
    Incomplete,
    Malformed,
}

/// Reads the header of a raw blob.
pub fn parse_blob_header(buf: &[u8]) -> (r: BlobHeader)
    ensures
        match scan_header(buf@, 0, 36) {
            Scan::Found(l, q) => r matches BlobHeader::Complete(x, n) && x == l && n == q,
            Scan::Short => r is Incomplete,
            Scan::Bad(_) => r is Malformed,
        },
{
    match read_header(buf, 0, 36) {
        Step::Found(l, q) => BlobHeader::Complete(l, q),
        Step::Short => BlobHeader::Incomplete,
        Step::Bad(_) => BlobHeader::Malformed,
    }
}

/// Whether `s` holds `\r\n` at positions `i` and `i + 1`.
pub open spec fn crlf_at(s: Seq<u8>, i: int) -> bool {
    0 <= i && i + 1 < s.len() && s[i] == 13 && s[i + 1] == 10
}

/// The length of the first line of `buf`, its `\r\n` included, if the
/// buffer holds a whole line.
pub fn line_end(buf: &[u8]) -> (r: Option<usize>)
    ensures
        match r {
            Some(n) => 2 <= n <= buf.len() && crlf_at(buf@, n - 2) && forall|i: int|
                0 <= i < n - 2 ==> !#[trigger] crlf_at(buf@, i),
            None => forall|i: int| !#[trigger] crlf_at(buf@, i),
        },
{
    let mut i: usize = 0;
    while buf.len() - i >= 2
        invariant
            i <= buf.len(),
            forall|j: int| 0 <= j < i ==> !#[trigger] crlf_at(buf@, j),
        decreases buf.len() - i,
    {
        if buf[i] == 13 && buf[i + 1] == 10 {
            return Some(i + 2);
        }
        i = i + 1;
    }
    assert forall|j: int| !#[trigger] crlf_at(buf@, j) by {
        if 0 <= j && j >= i {
            assert(j + 1 >= buf.len());
        }
    }
    None
}

/// A run of `k` digits followed by a non-digit has length `k`.
proof fn lemma_digit_run(s: Seq<u8>, p: int, k: nat)
    requires
        0 <= p,
        p + k < s.len(),
        forall|i: int| p <= i < p + k ==> is_digit(#[trigger] s[i]),
        !is_digit(s[p + k]),
    ensures
        digit_run(s, p) == k,
    decreases k,
{
    if k > 0 {
        lemma_digit_run(s, p + 1, (k - 1) as nat);
    }
}

/// A header written with `marker` and `decimal(n)` reads back as `n`.
proof fn lemma_scan_header(s: Seq<u8>, p: int, marker: u8, n: nat)
    requires
        0 <= p,
        n < 10000000000,
        p + 3 + decimal(n).len() <= s.len(),
        s.subrange(p, p + 3 + decimal(n).len()) == seq![marker] + decimal(n) + crlf(),
    ensures
        scan_header(s, p, marker) == Scan::Found(n, p + 3 + decimal(n).len()),
{
    let d = decimal(n);
    lemma_decimal_digits(n);
    lemma_pow10_ten();
    lemma_decimal_len(n, 10, pow10(10));
    let w = s.subrange(p, p + 3 + d.len());
    let dl = d.len() as int;
    assert(w[0] == marker);
    assert forall|i: int| p + 1 <= i < p + 1 + dl implies is_digit(#[trigger] s[i]) by {
        assert(s[i] == w[i - p]);
        assert(w[i - p] == d[i - p - 1]);
    }
    assert(s[p + 1 + dl] == w[1 + dl]);
    assert(s[p + 2 + dl] == w[2 + dl]);
    lemma_digit_run(s, p + 1, d.len());
    assert(s.subrange(p + 1, p + 1 + dl) =~= d) by {
        assert forall|i: int| 0 <= i < dl implies s.subrange(p + 1, p + 1 + dl)[i] == d[i] by {
            assert(s[p + 1 + i] == w[1 + i]);
        }
    }
}

/// A bulk string written from `b` reads back as `b`.
proof fn lemma_scan_bulk(s: Seq<u8>, p: int, b: Seq<u8>)
    requires
        0 <= p,
        b.len() <= MAX_BULK_LEN,
        p + bulk_bytes(Some(b)).len() <= s.len(),
        s.subrange(p, p + bulk_bytes(Some(b)).len()) == bulk_bytes(Some(b)),
    ensures
        scan_bulk(s, p) == Scan::Found(b, p + bulk_bytes(Some(b)).len()),
{
    let d = decimal(b.len());
    let dl = d.len() as int;
    let bl = b.len() as int;
    let enc = bulk_bytes(Some(b));
    let h = seq![36u8] + d + crlf();
    assert(enc == h + b + crlf());
    assert(s.subrange(p, p + 3 + dl) == h) by {
        assert(s.subrange(p, p + 3 + dl) == enc.subrange(0, 3 + dl));
    }
    lemma_scan_header(s, p, 36, b.len());
    let q = p + 3 + dl;
    assert(s[q + bl] == enc[3 + dl + bl]);
    assert(s[q + bl + 1] == enc[4 + dl + bl]);
    assert(s.subrange(q, q + bl) =~= enc.subrange(3 + dl, 3 + dl + bl));
    assert(enc.subrange(3 + dl, 3 + dl + bl) =~= b);
}

/// The bulk strings of a sequence, read from its front.
proof fn lemma_bulks_front(items: Seq<Option<Seq<u8>>>)
    requires
        items.len() > 0,
    ensures
        bulks_bytes(items) == bulk_bytes(items[0]) + bulks_bytes(items.drop_first()),
    decreases items.len(),
{
    if items.len() > 1 {
        let init = items.drop_last();
        lemma_bulks_front(init);
        assert(init.drop_first() == items.drop_first().drop_last());
        assert(items.drop_first().last() == items.last());
    } else {
        assert(items.drop_last() == Seq::<Option<Seq<u8>>>::empty());
        assert(items.drop_first() == Seq::<Option<Seq<u8>>>::empty());
    }
}

/// Every part of `parts` fits the payload limit.
pub open spec fn parts_fit(parts: Seq<Seq<u8>>) -> bool {
    forall|i: int| 0 <= i < parts.len() ==> (#[trigger] parts[i]).len() <= MAX_BULK_LEN
}

proof fn lemma_scan_elements(s: Seq<u8>, p: int, rem: Seq<Seq<u8>>, acc: Seq<Seq<u8>>)
    requires
        0 <= p,
        parts_fit(rem),
        p + bulks_bytes(rem.map_values(|x: Seq<u8>| Some(x))).len() <= s.len(),
        s.subrange(p, p + bulks_bytes(rem.map_values(|x: Seq<u8>| Some(x))).len()) == bulks_bytes(
            rem.map_values(|x: Seq<u8>| Some(x)),
        ),
    ensures
        scan_elements(s, p, rem.len(), acc) == Scan::Found(
            acc + rem,
            p + bulks_bytes(rem.map_values(|x: Seq<u8>| Some(x))).len(),
        ),
    decreases rem.len(),
{
    let items = rem.map_values(|x: Seq<u8>| Some(x));
    if rem.len() == 0 {
        assert(acc + rem == acc);
    } else {
        lemma_bulks_front(items);
        let first = bulk_bytes(Some(rem[0]));
        let tail = rem.drop_first();
        assert(items.drop_first() == tail.map_values(|x: Seq<u8>| Some(x)));
        let all = bulks_bytes(items);
        assert(s.subrange(p, p + first.len()) == first) by {
            assert(s.subrange(p, p + first.len()) == all.subrange(0, first.len() as int));
        }
        lemma_scan_bulk(s, p, rem[0]);
        let tail_bytes = bulks_bytes(tail.map_values(|x: Seq<u8>| Some(x)));
        assert(s.subrange(p + first.len(), p + first.len() + tail_bytes.len()) == tail_bytes) by {
            assert(s.subrange(p + first.len(), p + first.len() + tail_bytes.len())
                == all.subrange(first.len() as int, all.len() as int));
        }
        lemma_scan_elements(s, p + first.len(), tail, acc.push(rem[0]));
        assert(acc.push(rem[0]) + tail == acc + rem);
    }
}

/// Reading the frame of `parts`, followed by anything, gives back `parts`
/// and the frame's length.
pub proof fn lemma_frame_round_trip(parts: Seq<Seq<u8>>, rest: Seq<u8>)
    requires
        1 <= parts.len() <= MAX_ARGS,
        parts_fit(parts),
    ensures
        scan_frame(frame_bytes(parts) + rest) == Scan::Found(parts, frame_bytes(parts).len() as int),
{
    let items = parts.map_values(|x: Seq<u8>| Some(x));
    let s = frame_bytes(parts) + rest;
    let d = decimal(parts.len());
    let body = bulks_bytes(items);
    assert(frame_bytes(parts) == seq![42u8] + d + crlf() + body);
    let dl = d.len() as int;
    assert(s.subrange(0, 3 + dl) == seq![42u8] + d + crlf());
    lemma_scan_header(s, 0, 42, parts.len());
    assert(s.subrange(3 + dl, 3 + dl + body.len()) == body);
    lemma_scan_elements(s, 3 + dl, parts, Seq::empty());
    assert(Seq::<Seq<u8>>::empty() + parts == parts);
}

} // verus!
