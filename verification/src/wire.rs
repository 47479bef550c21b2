//! Wire-level primitives: big-endian integer layout and message framing.
//!
//! Every protocol message travels as one *frame*: a 4-byte big-endian
//! length prefix followed by that many payload bytes. A transport read
//! may deliver a partial frame or several frames at once, so received
//! bytes are collected in a [`FrameBuffer`] and cut at frame boundaries.

use vstd::prelude::*;

verus! {

/// The bytes of `x` in big-endian order, most significant byte first.
pub open spec fn u64_be(x: u64) -> Seq<u8> {
    seq![
        (x >> 56) as u8,
        (x >> 48) as u8,
        (x >> 40) as u8,
        (x >> 32) as u8,
        (x >> 24) as u8,
        (x >> 16) as u8,
        (x >> 8) as u8,
        x as u8,
    ]
}

/// The bytes of `x` in big-endian order, most significant byte first.
pub open spec fn u32_be(x: u32) -> Seq<u8> {
    seq![(x >> 24) as u8, (x >> 16) as u8, (x >> 8) as u8, x as u8]
}

/// The value of an 8-byte sequence read in big-endian order.
pub open spec fn be_to_u64(s: Seq<u8>) -> u64
    recommends
        s.len() == 8,
{
    (((s[0] as u64) << 56) | ((s[1] as u64) << 48) | ((s[2] as u64) << 40) | ((s[3] as u64)
        << 32) | ((s[4] as u64) << 24) | ((s[5] as u64) << 16) | ((s[6] as u64) << 8) | (
    s[7] as u64)) as u64
}

/// The value of a 4-byte sequence read in big-endian order.
pub open spec fn be_to_u32(s: Seq<u8>) -> u32
    recommends
        s.len() == 4,
{
    (((s[0] as u32) << 24) | ((s[1] as u32) << 16) | ((s[2] as u32) << 8) | (s[3] as u32)) as u32
}

/// Reading back the big-endian bytes of a value yields the value.
pub proof fn lemma_u64_be_to(x: u64)
    ensures
        be_to_u64(u64_be(x)) == x,
{
    let s = u64_be(x);
    assert((((((x >> 56) as u8) as u64) << 56) | ((((x >> 48) as u8) as u64) << 48) | ((((x
        >> 40) as u8) as u64) << 40) | ((((x >> 32) as u8) as u64) << 32) | ((((x >> 24) as u8)
        as u64) << 24) | ((((x >> 16) as u8) as u64) << 16) | ((((x >> 8) as u8) as u64) << 8) | ((
    x as u8) as u64)) == x) by (bit_vector);
}

/// Writing back the big-endian value of an 8-byte sequence yields the sequence.
pub proof fn lemma_be_to_u64(s: Seq<u8>)
    requires
        s.len() == 8,
    ensures
        u64_be(be_to_u64(s)) == s,
{
    let b0 = s[0];
    let b1 = s[1];
    let b2 = s[2];
    let b3 = s[3];
    let b4 = s[4];
    let b5 = s[5];
    let b6 = s[6];
    let b7 = s[7];
    let x = be_to_u64(s);
    assert((x >> 56) as u8 == b0 && (x >> 48) as u8 == b1 && (x >> 40) as u8 == b2 && (x
        >> 32) as u8 == b3 && (x >> 24) as u8 == b4 && (x >> 16) as u8 == b5 && (x >> 8) as u8
        == b6 && x as u8 == b7) by (bit_vector)
        requires
            x == (((b0 as u64) << 56) | ((b1 as u64) << 48) | ((b2 as u64) << 40) | ((b3 as u64)
                << 32) | ((b4 as u64) << 24) | ((b5 as u64) << 16) | ((b6 as u64) << 8) | (
            b7 as u64)) as u64,
    ;
    assert(u64_be(x) =~= s);
}

/// Reading back the big-endian bytes of a value yields the value.
pub proof fn lemma_u32_be_to(x: u32)
    ensures
        be_to_u32(u32_be(x)) == x,
{
    let s = u32_be(x);
    assert((((((x >> 24) as u8) as u32) << 24) | ((((x >> 16) as u8) as u32) << 16) | ((((x
        >> 8) as u8) as u32) << 8) | ((x as u8) as u32)) == x) by (bit_vector);
}

/// Writing back the big-endian value of a 4-byte sequence yields the sequence.
pub proof fn lemma_be_to_u32(s: Seq<u8>)
    requires
        s.len() == 4,
    ensures
        u32_be(be_to_u32(s)) == s,
{
    let b0 = s[0];
    let b1 = s[1];
    let b2 = s[2];
    let b3 = s[3];
    let x = be_to_u32(s);
    assert((x >> 24) as u8 == b0 && (x >> 16) as u8 == b1 && (x >> 8) as u8 == b2 && x as u8 == b3)
        by (bit_vector)
        requires
            x == (((b0 as u32) << 24) | ((b1 as u32) << 16) | ((b2 as u32) << 8) | (
            b3 as u32)) as u32,
    ;
    assert(u32_be(x) =~= s);
}

/// Append the big-endian bytes of `x` to `buf`.
pub fn push_u64_be(buf: &mut Vec<u8>, x: u64)
    ensures
        final(buf)@ == old(buf)@ + u64_be(x),
{
    buf.push((x >> 56) as u8);
    buf.push((x >> 48) as u8);
    buf.push((x >> 40) as u8);
    buf.push((x >> 32) as u8);
    buf.push((x >> 24) as u8);
    buf.push((x >> 16) as u8);
    buf.push((x >> 8) as u8);
    buf.push(x as u8);
    proof {
        assert(buf@ =~= old(buf)@ + u64_be(x));
    }
}

/// Append the big-endian bytes of `x` to `buf`.
pub fn push_u32_be(buf: &mut Vec<u8>, x: u32)
    ensures
        final(buf)@ == old(buf)@ + u32_be(x),
{
    buf.push((x >> 24) as u8);
    buf.push((x >> 16) as u8);
    buf.push((x >> 8) as u8);
    buf.push(x as u8);
    proof {
        assert(buf@ =~= old(buf)@ + u32_be(x));
    }
}

/// Read the big-endian `u64` stored at `off`.
pub fn read_u64_be(b: &[u8], off: usize) -> (x: u64)
    requires
        off + 8 <= b@.len(),
    ensures
        x == be_to_u64(b@.subrange(off as int, off as int + 8)),
        u64_be(x) == b@.subrange(off as int, off as int + 8),
{
    let x: u64 = ((b[off] as u64) << 56) | ((b[off + 1] as u64) << 48) | ((b[off + 2] as u64)
        << 40) | ((b[off + 3] as u64) << 32) | ((b[off + 4] as u64) << 24) | ((b[off + 5] as u64)
        << 16) | ((b[off + 6] as u64) << 8) | (b[off + 7] as u64);
    proof {
        let s = b@.subrange(off as int, off as int + 8);
        assert(x == be_to_u64(s));
        lemma_be_to_u64(s);
    }
    x
}

/// Read the big-endian `u32` stored at `off`.
pub fn read_u32_be(b: &[u8], off: usize) -> (x: u32)
    requires
        off + 4 <= b@.len(),
    ensures
        x == be_to_u32(b@.subrange(off as int, off as int + 4)),
        u32_be(x) == b@.subrange(off as int, off as int + 4),
{
    let x: u32 = ((b[off] as u32) << 24) | ((b[off + 1] as u32) << 16) | ((b[off + 2] as u32)
        << 8) | (b[off + 3] as u32);
    proof {
        let s = b@.subrange(off as int, off as int + 4);
        assert(x == be_to_u32(s));
        lemma_be_to_u32(s);
    }
    x
}

/// The payload length announced by the frame at the head of `b`.
pub open spec fn frame_len(b: Seq<u8>) -> int
    recommends
        b.len() >= 4,
{
    be_to_u32(b.subrange(0, 4)) as int
}

/// Whether `b` starts with one complete frame.
pub open spec fn frame_ready(b: Seq<u8>) -> bool {
    b.len() >= 4 && b.len() >= 4 + frame_len(b)
}

/// The first complete frame of `b`, length prefix included.
pub open spec fn first_frame(b: Seq<u8>) -> Seq<u8>
    recommends
        frame_ready(b),
{
    b.subrange(0, 4 + frame_len(b))
}

/// What remains of `b` once the first frame is cut off.
pub open spec fn after_frame(b: Seq<u8>) -> Seq<u8>
    recommends
        frame_ready(b),
{
    b.subrange(4 + frame_len(b), b.len() as int)
}

/// A complete frame put at the head of a stream is cut back out exactly.
///
/// `e` is any complete frame (its prefix announces exactly the bytes that
/// follow it), such as the output of the codec's `encode`.
pub proof fn lemma_first_frame(e: Seq<u8>, rest: Seq<u8>)
    requires
        e.len() >= 4,
        e.len() == 4 + be_to_u32(e.subrange(0, 4)),
    ensures
        frame_ready(e + rest),
        first_frame(e + rest) == e,
        after_frame(e + rest) == rest,
{
    let b = e + rest;
    assert(b.subrange(0, 4) =~= e.subrange(0, 4));
    assert(first_frame(b) =~= e);
    assert(after_frame(b) =~= rest);
}

/// Collects raw transport bytes until a complete frame is available.
///
/// The transport preserves no message boundaries: one read may return a
/// partial frame or several frames. Feeding every chunk through this
/// buffer and taking out only complete frames restores the boundaries.
pub struct FrameBuffer {
    buf: Vec<u8>,
}

impl FrameBuffer {
    /// The bytes received and not yet taken out as frames.
    pub closed spec fn contents(&self) -> Seq<u8> {
        self.buf@
    }

    pub fn new() -> (r: FrameBuffer)
        ensures
            r.contents() == Seq::<u8>::empty(),
    {
        FrameBuffer { buf: Vec::new() }
    }

    /// Append a chunk of bytes read from the transport.
    pub fn push_bytes(&mut self, chunk: &[u8])
        ensures
            final(self).contents() == old(self).contents() + chunk@,
    {
        self.buf.extend_from_slice(chunk);
        proof {
            assert(self.buf@ =~= old(self).buf@ + chunk@);
        }
    }

    /// Whether a complete frame is buffered.
    pub fn has_frame(&self) -> (r: bool)
        ensures
            r == frame_ready(self.contents()),
    {
        if self.buf.len() < 4 {
            return false;
        }
        let len: usize = read_u32_be(self.buf.as_slice(), 0) as usize;
        self.buf.len() - 4 >= len
    }

    /// Take the first complete frame, length prefix included, out of the buffer.
    pub fn take_frame(&mut self) -> (f: Vec<u8>)
        requires
            frame_ready(old(self).contents()),
        ensures
            f@ == first_frame(old(self).contents()),
            final(self).contents() == after_frame(old(self).contents()),
    {
        let len: usize = read_u32_be(self.buf.as_slice(), 0) as usize;
        let blen: usize = self.buf.len();
        proof {
            assert(len == frame_len(self.buf@));
            assert(4 + len <= blen);
        }
        let total: usize = 4 + len;
        let rest = self.buf.split_off(total);
        let mut f = rest;
        core::mem::swap(&mut self.buf, &mut f);
        f
    }
}

} // verus!
