//! The wire framing: every frame is a 4-byte big-endian length followed by
//! that many bytes of body.
use vstd::prelude::*;

use crate::error::Error;

verus! {

/// Largest body, in bytes, that a reader accepts (8 MiB).
pub const MAX_FRAME_SIZE: usize = 8388608;

/// Number of bytes in the length prefix of a frame.
pub const LENGTH_PREFIX_SIZE: usize = 4;

/// The integer that four bytes denote when read most significant first.
pub open spec fn be_value(b0: u8, b1: u8, b2: u8, b3: u8) -> int {
    b0 * 16777216 + b1 * 65536 + b2 * 256 + b3
}

/// The four bytes of `x`, most significant first.
pub open spec fn be_bytes(x: u32) -> Seq<u8> {
    seq![
        (x / 16777216) as u8,
        ((x / 65536) % 256) as u8,
        ((x / 256) % 256) as u8,
        (x % 256) as u8,
    ]
}

/// The length prefix written in front of a body of `len` bytes: the length
/// reduced to 32 bits, big-endian.
pub open spec fn length_prefix(len: nat) -> Seq<u8> {
    be_bytes((len % 0x1_0000_0000) as u32)
}

/// The frame written for `body`.
pub open spec fn spec_encode_frame(body: Seq<u8>) -> Seq<u8> {
    length_prefix(body.len()) + body
}

/// The body length announced by a 4-byte header.
pub open spec fn header_length(header: Seq<u8>) -> int
    recommends
        header.len() == 4,
{
    be_value(header[0], header[1], header[2], header[3])
}

/// What a reader makes of the bytes at the front of a buffer.
#[derive(Debug)]
pub enum FrameSplit {
    /// Fewer bytes than the header announces are there yet.
    Incomplete,
    /// The header announces a body larger than `MAX_FRAME_SIZE`.
    TooLarge { length: usize },
    /// A whole frame: its body, and how many bytes of the buffer it took.
    Complete { body: Vec<u8>, consumed: usize },
}

/// Spec form of `FrameSplit`.
pub enum FrameSplitView {
    Incomplete,
    TooLarge { length: int },
    Complete { body: Seq<u8>, consumed: int },
}

impl View for FrameSplit {
    type V = FrameSplitView;

    open spec fn view(&self) -> FrameSplitView {
        match self {
            FrameSplit::Incomplete => FrameSplitView::Incomplete,
            FrameSplit::TooLarge { length } => FrameSplitView::TooLarge { length: *length as int },
            FrameSplit::Complete { body, consumed } => FrameSplitView::Complete {
                body: body@,
                consumed: *consumed as int,
            },
        }
    }
}

/// How a reader splits the first frame off the front of `buf`.
pub open spec fn spec_split_frame(buf: Seq<u8>) -> FrameSplitView {
    if buf.len() < 4 {
        FrameSplitView::Incomplete
    } else {
        let length = header_length(buf.take(4));
        if length > MAX_FRAME_SIZE {
            FrameSplitView::TooLarge { length }
        } else if buf.len() < 4 + length {
            FrameSplitView::Incomplete
        } else {
            FrameSplitView::Complete { body: buf.subrange(4, 4 + length), consumed: 4 + length }
        }
    }
}

/// Decoding the big-endian bytes of `x` gives `x` back.
pub proof fn lemma_be_roundtrip(x: u32)
    ensures
        be_bytes(x).len() == 4,
        be_value(be_bytes(x)[0], be_bytes(x)[1], be_bytes(x)[2], be_bytes(x)[3]) == x,
{
    let b0 = x / 16777216;
    let r0 = x % 16777216;
    let b1 = r0 / 65536;
    let r1 = r0 % 65536;
    let b2 = r1 / 256;
    let b3 = r1 % 256;
    assert(x / 65536 % 256 == b1) by (nonlinear_arith)
        requires
            b0 == x / 16777216,
            r0 == x % 16777216,
            b1 == r0 / 65536,
            x < 0x1_0000_0000,
    ;
    assert(x / 256 % 256 == b2) by (nonlinear_arith)
        requires
            r0 == x % 16777216,
            r1 == r0 % 65536,
            b2 == r1 / 256,
            x < 0x1_0000_0000,
    ;
    assert(x % 256 == b3) by (nonlinear_arith)
        requires
            r0 == x % 16777216,
            r1 == r0 % 65536,
            b3 == r1 % 256,
    ;
    assert(x == b0 * 16777216 + b1 * 65536 + b2 * 256 + b3) by (nonlinear_arith)
        requires
            b0 == x / 16777216,
            r0 == x % 16777216,
            b1 == r0 / 65536,
            r1 == r0 % 65536,
            b2 == r1 / 256,
            b3 == r1 % 256,
    ;
}

/// The four header bytes for a body of `len` bytes: the length taken modulo
/// 2^32 (a body longer than `u32::MAX` bytes gets a wrapped length, as the
/// `as u32` conversion of the writer does), most significant byte first.
pub fn encode_length_prefix(len: usize) -> (prefix: Vec<u8>)
    ensures
        prefix@ == length_prefix(len as nat),
{
    let x: u32 = ((len as u64) % 0x1_0000_0000u64) as u32;
    let mut prefix: Vec<u8> = Vec::with_capacity(4);
    prefix.push((x / 16777216) as u8);
    prefix.push(((x / 65536) % 256) as u8);
    prefix.push(((x / 256) % 256) as u8);
    prefix.push((x % 256) as u8);
    assert(prefix@ =~= length_prefix(len as nat));
    prefix
}

/// Reads the body length out of a 4-byte header and refuses one above
/// `MAX_FRAME_SIZE` with `FrameTooLarge`.
pub fn frame_body_length(header: &[u8]) -> (res: Result<usize, crate::error::Error>)
    requires
        header@.len() == 4,
    ensures
        header_length(header@) <= MAX_FRAME_SIZE ==> res == Ok::<usize, crate::error::Error>(
            header_length(header@) as usize,
        ),
        header_length(header@) > MAX_FRAME_SIZE ==> res == Err::<usize, crate::error::Error>(
            crate::error::Error::FrameTooLarge { length: header_length(header@) as usize },
        ),
{
    let length: u32 = (header[0] as u32) * 16777216 + (header[1] as u32) * 65536 + (header[2] as u32)
        * 256 + (header[3] as u32);
    let length = length as usize;
    if length > MAX_FRAME_SIZE {
        Err(crate::error::Error::FrameTooLarge { length })
    } else {
        Ok(length)
    }
}

/// Builds the frame for `body`: its length prefix, then the body itself.
pub fn encode_frame(body: &[u8]) -> (frame: Vec<u8>)
    ensures
        frame@ == spec_encode_frame(body@),
{
    let mut frame = encode_length_prefix(body.len());
    let ghost prefix = frame@;
    let mut i: usize = 0;
    while i < body.len()
        invariant
            i <= body@.len(),
            frame@ == prefix + body@.take(i as int),
        decreases body@.len() - i,
    {
        frame.push(body[i]);
        i = i + 1;
        assert(frame@ =~= prefix + body@.take(i as int));
    }
    assert(body@.take(body@.len() as int) =~= body@);
    frame
}

/// Splits the first frame off the front of `buf`, as a reader does.
pub fn split_frame(buf: &[u8]) -> (res: FrameSplit)
    ensures
        res@ == spec_split_frame(buf@),
{
    if buf.len() < 4 {
        return FrameSplit::Incomplete;
    }
    let header = vstd::slice::slice_subrange(buf, 0, 4);
    assert(header@ =~= buf@.take(4));
    match frame_body_length(header) {
        Err(_) => {
            let length: usize = (header[0] as u32 * 16777216 + header[1] as u32 * 65536
                + header[2] as u32 * 256 + header[3] as u32) as usize;
            FrameSplit::TooLarge { length }
        },
        Ok(length) => {
            if buf.len() - 4 < length {
                FrameSplit::Incomplete
            } else {
                let body = vstd::slice::slice_to_vec(
                    vstd::slice::slice_subrange(buf, 4, 4 + length),
                );
                FrameSplit::Complete { body, consumed: 4 + length }
            }
        },
    }
}

/// Bytes read from a stream and not yet taken as frames.
pub struct FrameReader {
    buffered: Vec<u8>,
}

impl FrameReader {
    /// The bytes waiting to be taken as frames.
    pub closed spec fn pending(&self) -> Seq<u8> {
        self.buffered@
    }

    /// Nothing read yet.
    pub fn new() -> (r: FrameReader)
        ensures
            r.pending() == Seq::<u8>::empty(),
    {
        FrameReader { buffered: Vec::new() }
    }

    /// Adds bytes just read from the stream.
    pub fn feed(&mut self, bytes: &[u8])
        ensures
            final(self).pending() == old(self).pending() + bytes@,
    {
        let ghost before = self.buffered@;
        let mut i: usize = 0;
        while i < bytes.len()
            invariant
                i <= bytes@.len(),
                self.buffered@ == before + bytes@.take(i as int),
            decreases bytes@.len() - i,
        {
            self.buffered.push(bytes[i]);
            i = i + 1;
            assert(self.buffered@ =~= before + bytes@.take(i as int));
        }
        assert(bytes@.take(bytes@.len() as int) =~= bytes@);
    }

    /// Takes the first frame off the pending bytes when it is all there;
    /// otherwise the pending bytes stay.
    pub fn next_frame(&mut self) -> (r: FrameSplit)
        ensures
            r@ == spec_split_frame(old(self).pending()),
            match r@ {
                FrameSplitView::Complete { consumed, .. } => final(self).pending() == old(
                    self,
                ).pending().skip(consumed),
                _ => final(self).pending() == old(self).pending(),
            },
    {
        let r = split_frame(self.buffered.as_slice());
        match r {
            FrameSplit::Complete { body, consumed } => {
                let rest = vstd::slice::slice_to_vec(
                    vstd::slice::slice_subrange(self.buffered.as_slice(), consumed, self.buffered.len()),
                );
                self.buffered = rest;
                FrameSplit::Complete { body, consumed }
            },
            other => other,
        }
    }

    /// What the end of the stream means: a clean close when it falls between
    /// frames (nothing pending), a failed read when it cuts a frame short.
    pub fn end_of_stream(&self) -> (e: Error)
        ensures
            self.pending().len() == 0 ==> e == Error::ConnectionClosed,
            self.pending().len() > 0 ==> e matches Error::ReadFailed { .. },
    {
        if self.buffered.len() == 0 {
            Error::ConnectionClosed
        } else {
            Error::ReadFailed { message: "stream ended inside a frame".to_owned() }
        }
    }
}

/// A reader fed the frames of bodies written one after another takes them
/// off in order: the first body comes back whole and the rest stays pending.
pub proof fn lemma_reader_takes_frames_in_order(first: Seq<u8>, rest: Seq<u8>)
    requires
        first.len() <= MAX_FRAME_SIZE,
    ensures
        spec_split_frame(spec_encode_frame(first) + rest) == (FrameSplitView::Complete {
            body: first,
            consumed: 4 + first.len() as int,
        }),
        (spec_encode_frame(first) + rest).skip(4 + first.len() as int) == rest,
{
    lemma_frame_roundtrip(first, rest);
    let x = (first.len() % 0x1_0000_0000) as u32;
    lemma_be_roundtrip(x);
    assert((spec_encode_frame(first) + rest).skip(4 + first.len() as int) =~= rest);
}

/// Reading a frame back gives what was written, whatever follows it in the
/// stream, for every body that a reader accepts.
pub proof fn lemma_frame_roundtrip(body: Seq<u8>, rest: Seq<u8>)
    requires
        body.len() <= MAX_FRAME_SIZE,
    ensures
        spec_split_frame(spec_encode_frame(body) + rest) == (FrameSplitView::Complete {
            body,
            consumed: 4 + body.len() as int,
        }),
{
    let x = (body.len() % 0x1_0000_0000) as u32;
    lemma_be_roundtrip(x);
    let buf = spec_encode_frame(body) + rest;
    assert(buf.take(4) =~= be_bytes(x));
    assert(buf.subrange(4, 4 + body.len() as int) =~= body);
}

/// A writer does not refuse a large body, but a reader refuses any body
/// above `MAX_FRAME_SIZE` that fits the 32-bit prefix.
pub proof fn lemma_oversized_frame_refused(body: Seq<u8>, rest: Seq<u8>)
    requires
        MAX_FRAME_SIZE < body.len() < 0x1_0000_0000,
    ensures
        spec_split_frame(spec_encode_frame(body) + rest) == (FrameSplitView::TooLarge {
            length: body.len() as int,
        }),
{
    let x = (body.len() % 0x1_0000_0000) as u32;
    lemma_be_roundtrip(x);
    let buf = spec_encode_frame(body) + rest;
    assert(buf.take(4) =~= be_bytes(x));
}

/// A frame whose bytes have not all arrived is not taken for a whole one.
pub proof fn lemma_truncated_frame_incomplete(body: Seq<u8>, n: int)
    requires
        body.len() <= MAX_FRAME_SIZE,
        0 <= n < 4 + body.len(),
    ensures
        spec_split_frame(spec_encode_frame(body).take(n)) == FrameSplitView::Incomplete,
{
    let x = (body.len() % 0x1_0000_0000) as u32;
    lemma_be_roundtrip(x);
    let buf = spec_encode_frame(body).take(n);
    if n >= 4 {
        assert(buf.take(4) =~= be_bytes(x));
    }
}

} // verus!
