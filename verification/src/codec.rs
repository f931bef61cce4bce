//! Frame codec: `[u32 big-endian length][payload]`.
//!
//! Pure and synchronous: the transport wraps these functions in socket I/O,
//! and the payloads themselves (serialized messages) are produced and read by
//! the caller. The stream decoder is specified by [`next_step`]; the laws at
//! the end of the file state that framing round-trips and that the way a
//! stream is cut into chunks never changes what comes out of it.

use vstd::prelude::*;

use crate::text::{decimal, push_decimal, push_str};

verus! {

/// Length header: a big-endian `u32`.
pub const HEADER_LEN: usize = 4;

/// Upper bound on a payload length (16 MiB), against absurd frames.
pub const MAX_FRAME_LEN: usize = 16 * 1024 * 1024;

/// Errors of the frame codec.
#[derive(Debug, Clone, Copy, PartialEq, Eq, Structural)]
pub enum Error {
    /// The announced or given payload length exceeds [`MAX_FRAME_LEN`].
    FrameTooLarge(usize),
    /// The frame is not complete.
    Incomplete,
}

/// The text of a codec error.
pub open spec fn error_text(e: Error) -> Seq<char> {
    match e {
        Error::FrameTooLarge(n) => "trame trop grande: "@ + decimal(n as nat) + " octets (max "@
            + decimal(MAX_FRAME_LEN as nat) + ")"@,
        Error::Incomplete => "trame incomplète"@,
    }
}

impl Error {
    /// The text of the error.
    pub fn message(&self) -> (m: String)
        ensures
            m@ == error_text(*self),
    {
        let mut m = String::new();
        match self {
            Error::FrameTooLarge(n) => {
                push_str(&mut m, "trame trop grande: ");
                push_decimal(&mut m, *n as u64);
                push_str(&mut m, " octets (max ");
                push_decimal(&mut m, MAX_FRAME_LEN as u64);
                push_str(&mut m, ")");
            },
            Error::Incomplete => push_str(&mut m, "trame incomplète"),
        }
        m
    }
}

/// The four big-endian bytes of `n` (for `n < 2^32`).
pub open spec fn be32_bytes(n: nat) -> Seq<u8> {
    seq![
        ((n / 0x1000000) % 0x100) as u8,
        ((n / 0x10000) % 0x100) as u8,
        ((n / 0x100) % 0x100) as u8,
        (n % 0x100) as u8,
    ]
}

/// The value of the big-endian header at the start of `buf`.
pub open spec fn header_value(buf: Seq<u8>) -> nat
    recommends
        buf.len() >= 4,
{
    (buf[0] as nat) * 0x1000000 + (buf[1] as nat) * 0x10000 + (buf[2] as nat) * 0x100 + (
    buf[3] as nat)
}

/// The complete frame carrying `payload`.
pub open spec fn frame(payload: Seq<u8>) -> Seq<u8> {
    be32_bytes(payload.len()) + payload
}

/// The frames of `payloads`, one after the other.
pub open spec fn frames(payloads: Seq<Seq<u8>>) -> Seq<u8>
    decreases payloads.len(),
{
    if payloads.len() == 0 {
        Seq::empty()
    } else {
        frame(payloads[0]) + frames(payloads.drop_first())
    }
}

/// What the head of a receive buffer holds.
pub enum Step {
    /// Not enough bytes yet for a whole frame.
    NeedMore,
    /// The header announces a payload longer than [`MAX_FRAME_LEN`].
    TooLarge { len: nat },
    /// A complete frame: its payload and the bytes after it.
    Frame { payload: Seq<u8>, rest: Seq<u8> },
}

/// How the decoder reads the head of `buf`.
pub open spec fn next_step(buf: Seq<u8>) -> Step {
    if buf.len() < 4 {
        Step::NeedMore
    } else {
        let len = header_value(buf) as int;
        if len > MAX_FRAME_LEN {
            Step::TooLarge { len: header_value(buf) }
        } else if buf.len() < 4 + len {
            Step::NeedMore
        } else {
            Step::Frame { payload: buf.subrange(4, 4 + len), rest: buf.subrange(4 + len, buf.len() as int) }
        }
    }
}

/// Extracts frames from the head of `buf` until the decoder needs more bytes
/// or meets an oversized header: the payloads in order and what remains.
pub open spec fn drain_all(buf: Seq<u8>) -> (Seq<Seq<u8>>, Seq<u8>)
    decreases buf.len(),
{
    if buf.len() >= 4 && header_value(buf) <= MAX_FRAME_LEN && buf.len() >= 4 + header_value(
        buf,
    ) {
        let len = header_value(buf) as int;
        let rest = buf.subrange(4 + len, buf.len() as int);
        let (ps, r) = drain_all(rest);
        (seq![buf.subrange(4, 4 + len)] + ps, r)
    } else {
        (Seq::empty(), buf)
    }
}

proof fn lemma_be32_roundtrip(n: nat, rest: Seq<u8>)
    requires
        n < 0x1_0000_0000,
    ensures
        (be32_bytes(n) + rest).len() == 4 + rest.len(),
        header_value(be32_bytes(n) + rest) == n,
        (be32_bytes(n) + rest).subrange(4, 4 + rest.len() as int) == rest,
{
    let s = be32_bytes(n) + rest;
    assert(s[0] == ((n / 0x1000000) % 0x100) as u8);
    assert(s[1] == ((n / 0x10000) % 0x100) as u8);
    assert(s[2] == ((n / 0x100) % 0x100) as u8);
    assert(s[3] == (n % 0x100) as u8);
    assert(((n / 0x1000000) % 0x100) * 0x1000000 + ((n / 0x10000) % 0x100) * 0x10000 + ((n
        / 0x100) % 0x100) * 0x100 + n % 0x100 == n) by (nonlinear_arith)
        requires
            n < 0x1_0000_0000,
    ;
    assert(s.subrange(4, 4 + rest.len() as int) =~= rest);
}

/// A frame at the head of a buffer is read the same whatever bytes follow.
proof fn lemma_step_extend(a: Seq<u8>, b: Seq<u8>)
    requires
        next_step(a) is Frame,
    ensures
        next_step(a + b) == (Step::Frame { payload: next_step(a)->payload, rest: next_step(a)->rest + b }),
{
    let len = header_value(a) as int;
    assert((a + b)[0] == a[0] && (a + b)[1] == a[1] && (a + b)[2] == a[2] && (a + b)[3] == a[3]);
    assert(header_value(a + b) == len);
    assert((a + b).subrange(4, 4 + len) =~= a.subrange(4, 4 + len));
    assert((a + b).subrange(4 + len, (a + b).len() as int) =~= a.subrange(
        4 + len,
        a.len() as int,
    ) + b);
}

proof fn lemma_drain_matches_step(buf: Seq<u8>)
    ensures
        next_step(buf) is Frame ==> drain_all(buf) == ({
            let (ps, r) = drain_all(next_step(buf)->rest);
            (seq![next_step(buf)->payload] + ps, r)
        }),
        !(next_step(buf) is Frame) ==> drain_all(buf) == (Seq::<Seq<u8>>::empty(), buf),
{
}

/// Law: draining a stream in two chunks gives what draining it whole gives.
/// Whatever frames are complete in `a` come out first; the rest of `a`
/// followed by `b` is then drained as if it had arrived at once.
pub proof fn lemma_drain_chunked(a: Seq<u8>, b: Seq<u8>)
    ensures
        ({
            let (o1, r1) = drain_all(a);
            let (o2, r2) = drain_all(r1 + b);
            drain_all(a + b) == (o1 + o2, r2)
        }),
    decreases a.len(),
{
    lemma_drain_matches_step(a);
    lemma_drain_matches_step(a + b);
    if next_step(a) is Frame {
        lemma_step_extend(a, b);
        let rest = next_step(a)->rest;
        let p = next_step(a)->payload;
        lemma_drain_chunked(rest, b);
        let (o1r, r1r) = drain_all(rest);
        let (o2, r2) = drain_all(r1r + b);
        assert(seq![p] + (o1r + o2) =~= (seq![p] + o1r) + o2);
    } else {
        let (o2, r2) = drain_all(a + b);
        assert(Seq::<Seq<u8>>::empty() + o2 =~= o2);
    }
}

/// Law: a frame read back yields its payload, whatever follows it.
pub proof fn lemma_frame_roundtrip(payload: Seq<u8>, rest: Seq<u8>)
    requires
        payload.len() <= MAX_FRAME_LEN,
    ensures
        next_step(frame(payload) + rest) == (Step::Frame { payload, rest }),
{
    let n = payload.len();
    lemma_be32_roundtrip(n, payload + rest);
    let s = frame(payload) + rest;
    assert(s =~= be32_bytes(n) + (payload + rest));
    assert(s.subrange(4, 4 + n as int) =~= payload);
    assert(s.subrange(4 + n as int, s.len() as int) =~= rest);
}

/// Law: a stream made of frames drains to exactly their payloads, in order,
/// with nothing left over.
pub proof fn lemma_frames_drain(payloads: Seq<Seq<u8>>)
    requires
        forall|i: int| 0 <= i < payloads.len() ==> #[trigger] payloads[i].len() <= MAX_FRAME_LEN,
    ensures
        drain_all(frames(payloads)) == (payloads, Seq::<u8>::empty()),
    decreases payloads.len(),
{
    if payloads.len() == 0 {
        assert(drain_all(Seq::<u8>::empty()) == (Seq::<Seq<u8>>::empty(), Seq::<u8>::empty()));
        assert(payloads =~= Seq::<Seq<u8>>::empty());
    } else {
        let tail = payloads.drop_first();
        assert forall|i: int| 0 <= i < tail.len() implies #[trigger] tail[i].len()
            <= MAX_FRAME_LEN by {
            assert(tail[i] == payloads[i + 1]);
        }
        lemma_frames_drain(tail);
        lemma_frame_roundtrip(payloads[0], frames(tail));
        lemma_drain_matches_step(frames(payloads));
        assert(seq![payloads[0]] + tail =~= payloads);
    }
}

/// Law: a strict prefix of a frame is never taken for a frame.
pub proof fn lemma_incomplete_frame(payload: Seq<u8>, k: int)
    requires
        payload.len() <= MAX_FRAME_LEN,
        0 <= k < frame(payload).len(),
    ensures
        next_step(frame(payload).take(k)) == Step::NeedMore,
{
    let n = payload.len();
    let f = frame(payload);
    if k >= 4 {
        lemma_be32_roundtrip(n, payload);
        assert(f.take(k)[0] == f[0] && f.take(k)[1] == f[1] && f.take(k)[2] == f[2] && f.take(
            k,
        )[3] == f[3]);
        assert(header_value(f.take(k)) == header_value(f));
    }
}

/// Writes the four big-endian bytes of `n` after `out`.
fn push_be32(out: &mut Vec<u8>, n: u32)
    ensures
        final(out)@ == old(out)@ + be32_bytes(n as nat),
{
    out.push((n / 0x1000000) as u8);
    out.push(((n / 0x10000) % 0x100) as u8);
    out.push(((n / 0x100) % 0x100) as u8);
    out.push((n % 0x100) as u8);
    assert(final(out)@ =~= old(out)@ + be32_bytes(n as nat));
}

/// Wraps a serialized payload into a complete frame (header + payload).
pub fn encode_frame(payload: &[u8]) -> (r: Result<Vec<u8>, Error>)
    ensures
        payload@.len() > MAX_FRAME_LEN ==> r == Err::<Vec<u8>, Error>(
            Error::FrameTooLarge(payload@.len() as usize),
        ),
        payload@.len() <= MAX_FRAME_LEN ==> (r matches Ok(f) && f@ == frame(payload@)),
{
    let n = payload.len();
    if n > MAX_FRAME_LEN {
        return Err(Error::FrameTooLarge(n));
    }
    let mut out: Vec<u8> = Vec::new();
    push_be32(&mut out, n as u32);
    let mut i: usize = 0;
    while i < n
        invariant
            n == payload@.len(),
            i <= n,
            out@ == be32_bytes(n as nat) + payload@.take(i as int),
        decreases n - i,
    {
        out.push(payload[i]);
        i += 1;
        assert(out@ =~= be32_bytes(n as nat) + payload@.take(i as int));
    }
    assert(payload@.take(n as int) =~= payload@);
    Ok(out)
}

/// Copies `buf[from..to]` into a new vector.
fn copy_range(buf: &Vec<u8>, from: usize, to: usize) -> (r: Vec<u8>)
    requires
        from <= to <= buf@.len(),
    ensures
        r@ == buf@.subrange(from as int, to as int),
{
    let mut out: Vec<u8> = Vec::new();
    let mut i = from;
    while i < to
        invariant
            from <= i <= to <= buf@.len(),
            out@ == buf@.subrange(from as int, i as int),
        decreases to - i,
    {
        out.push(buf[i]);
        i += 1;
        assert(out@ =~= buf@.subrange(from as int, i as int));
    }
    out
}

/// Stream accumulator: receives raw bytes and hands out complete frame
/// payloads as they become available (for stream transports such as TCP).
pub struct FrameDecoder {
    buf: Vec<u8>,
}

impl View for FrameDecoder {
    type V = Seq<u8>;

    closed spec fn view(&self) -> Seq<u8> {
        self.buf@
    }
}

impl FrameDecoder {
    /// An empty decoder.
    pub fn new() -> (d: FrameDecoder)
        ensures
            d@ == Seq::<u8>::empty(),
    {
        FrameDecoder { buf: Vec::new() }
    }

    /// Appends raw bytes to the internal buffer.
    pub fn push(&mut self, bytes: &[u8])
        ensures
            final(self)@ == old(self)@ + bytes@,
    {
        let n = bytes.len();
        let mut i: usize = 0;
        while i < n
            invariant
                n == bytes@.len(),
                i <= n,
                self.buf@ == old(self).buf@ + bytes@.take(i as int),
            decreases n - i,
        {
            self.buf.push(bytes[i]);
            i += 1;
            assert(self.buf@ =~= old(self).buf@ + bytes@.take(i as int));
        }
        assert(bytes@.take(n as int) =~= bytes@);
    }

    /// Number of bytes waiting in the buffer.
    pub fn buffered(&self) -> (n: usize)
        ensures
            n == self@.len(),
    {
        self.buf.len()
    }

    fn header(&self) -> (len: usize)
        requires
            self@.len() >= 4,
        ensures
            len == header_value(self@),
    {
        (self.buf[0] as usize) * 0x1000000 + (self.buf[1] as usize) * 0x10000 + (self.buf[2] as usize)
            * 0x100 + (self.buf[3] as usize)
    }

    /// The payload of the frame at the head of the buffer, without consuming
    /// it: `Ok(None)` while incomplete, `Err(FrameTooLarge)` for an oversized
    /// header.
    pub fn peek_frame(&self) -> (r: Result<Option<Vec<u8>>, Error>)
        ensures
            match next_step(self@) {
                Step::NeedMore => r == Ok::<Option<Vec<u8>>, Error>(None),
                Step::TooLarge { len: n } => r == Err::<Option<Vec<u8>>, Error>(
                    Error::FrameTooLarge(n as usize),
                ),
                Step::Frame { payload: p, .. } => (r matches Ok(Some(v)) && v@ == p),
            },
    {
        if self.buf.len() < HEADER_LEN {
            return Ok(None);
        }
        let len = self.header();
        if len > MAX_FRAME_LEN {
            return Err(Error::FrameTooLarge(len));
        }
        if self.buf.len() < HEADER_LEN + len {
            return Ok(None);
        }
        Ok(Some(copy_range(&self.buf, HEADER_LEN, HEADER_LEN + len)))
    }

    /// Drops the frame at the head of the buffer, if a complete one is there.
    pub fn consume_frame(&mut self)
        ensures
            next_step(old(self)@) is Frame ==> final(self)@ == next_step(old(self)@)->rest,
            !(next_step(old(self)@) is Frame) ==> final(self)@ == old(self)@,
    {
        if self.buf.len() < HEADER_LEN {
            return;
        }
        let len = self.header();
        if len > MAX_FRAME_LEN || self.buf.len() < HEADER_LEN + len {
            return;
        }
        let rest = self.buf.split_off(HEADER_LEN + len);
        self.buf = rest;
    }

    /// Extracts the next complete frame payload: `Ok(None)` while incomplete.
    pub fn next_frame(&mut self) -> (r: Result<Option<Vec<u8>>, Error>)
        ensures
            match next_step(old(self)@) {
                Step::NeedMore => r == Ok::<Option<Vec<u8>>, Error>(None) && final(self)@ == old(self)@,
                Step::TooLarge { len: n } => r == Err::<Option<Vec<u8>>, Error>(
                    Error::FrameTooLarge(n as usize),
                ) && final(self)@ == old(self)@,
                Step::Frame { payload: p, rest } => (r matches Ok(Some(v)) && v@ == p) && final(self)@ == rest,
            },
    {
        let r = self.peek_frame();
        self.consume_frame();
        r
    }
}

} // verus!
