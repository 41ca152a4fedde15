//! Frames off a stream that arrives piece by piece, and onto one.

use crate::nxp::frame::{
    header_bytes, law_header_round_trip, read_header, Frame, FrameHeader, HEADER_LEN, MAX_FRAME,
};
use crate::nxp::wire::{Reader, WireError};
use vstd::prelude::*;
use vstd::slice::slice_to_vec;
use vstd::string::*;

verus! {

/// Why no frame can be read.
#[derive(Debug, Clone, PartialEq, Eq)]
pub enum FrameReadError {
    /// The stream failed.
    Io(String),
    /// The bytes are no frame.
    Wire(WireError),
    /// The stream ended inside a frame.
    Truncated,
}

/// What a [`FrameReadError`] says to a reader.
pub open spec fn error_text(e: FrameReadError) -> Seq<char> {
    match e {
        FrameReadError::Io(s) => "io: "@ + s@,
        FrameReadError::Wire(w) => "wire: "@ + crate::nxp::wire::error_text(w),
        FrameReadError::Truncated => "truncated frame"@,
    }
}

impl FrameReadError {
    /// What the error says to a reader.
    pub fn to_string(&self) -> (out: String)
        ensures
            out@ == error_text(*self),
    {
        match self {
            FrameReadError::Io(s) => "io: ".to_owned().concat(s.as_str()),
            FrameReadError::Wire(w) => "wire: ".to_owned().concat(w.to_string().as_str()),
            FrameReadError::Truncated => "truncated frame".to_owned(),
        }
    }
}

/// The frame at the start of some bytes: nothing as long as it is not
/// complete, an error where its header is wrong.
pub open spec fn first_frame(s: Seq<u8>) -> Result<Option<(FrameHeader, Seq<u8>)>, WireError> {
    if s.len() < HEADER_LEN {
        Ok(None)
    } else {
        match read_header(s.take(HEADER_LEN as int)).0 {
            Err(e) => Err(e),
            Ok(h) => if s.len() < HEADER_LEN + h.len {
                Ok(None)
            } else {
                Ok(Some((h, s.subrange(HEADER_LEN as int, HEADER_LEN + h.len))))
            },
        }
    }
}

/// The wire form of a frame.
pub open spec fn frame_bytes(h: FrameHeader, payload: Seq<u8>) -> Seq<u8> {
    header_bytes(h) + payload
}

/// Reads frames; holds the bytes that arrived and were not read yet.
#[derive(Debug)]
pub struct FrameReader {
    buf: Vec<u8>,
}

impl View for FrameReader {
    type V = Seq<u8>;

    closed spec fn view(&self) -> Seq<u8> {
        self.buf@
    }
}

impl FrameReader {
    /// A reader at the start of a stream.
    pub fn new() -> (r: Self)
        ensures
            r@ == Seq::<u8>::empty(),
    {
        FrameReader { buf: Vec::new() }
    }

    /// Takes in bytes as they arrive.
    pub fn push(&mut self, bytes: &[u8])
        ensures
            final(self)@ == old(self)@ + bytes@,
    {
        self.buf.extend_from_slice(bytes);
    }

    /// The next frame, where it is complete; it then leaves the reader.
    pub fn next_frame(&mut self) -> (out: Result<Option<Frame>, FrameReadError>)
        ensures
            match out {
                Ok(Some(f)) => {
                    &&& first_frame(old(self)@) == Ok::<_, WireError>(Some((f.header, f.payload@)))
                    &&& final(self)@ == old(self)@.skip(HEADER_LEN + f.header.len)
                },
                Ok(None) => {
                    &&& first_frame(old(self)@) matches Ok(None)
                    &&& final(self)@ == old(self)@
                },
                Err(e) => {
                    &&& first_frame(old(self)@) matches Err(w) && e == FrameReadError::Wire(w)
                    &&& final(self)@ == old(self)@
                },
            },
    {
        if self.buf.len() < HEADER_LEN {
            return Ok(None);
        }
        let (head, _) = self.buf.as_slice().split_at(HEADER_LEN);
        assert(head@ =~= self.buf@.take(HEADER_LEN as int));
        let mut r = Reader::new(head);
        let header = match FrameHeader::decode(&mut r) {
            Ok(h) => h,
            Err(e) => return Err(FrameReadError::Wire(e)),
        };
        let len: usize = header.len as usize;
        if self.buf.len() - HEADER_LEN < len {
            return Ok(None);
        }
        let (front, rest) = self.buf.as_slice().split_at(HEADER_LEN + len);
        let (_, body) = front.split_at(HEADER_LEN);
        let payload = slice_to_vec(body);
        let rest = slice_to_vec(rest);
        assert(payload@ =~= self.buf@.subrange(HEADER_LEN as int, HEADER_LEN + len));
        assert(rest@ =~= self.buf@.skip(HEADER_LEN + len));
        self.buf = rest;
        Ok(Some(Frame { header, payload }))
    }

    /// The end of the stream: it may come only between frames.
    pub fn finish(&self) -> (out: Result<(), FrameReadError>)
        ensures
            match out {
                Ok(_) => self@.len() == 0,
                Err(e) => self@.len() > 0 && e == FrameReadError::Truncated,
            },
    {
        if self.buf.len() == 0 {
            Ok(())
        } else {
            Err(FrameReadError::Truncated)
        }
    }
}

/// Writes frames; holds the bytes that are to be sent.
#[derive(Debug)]
pub struct FrameWriter {
    pub out: Vec<u8>,
}

impl FrameWriter {
    /// A writer with nothing to send.
    pub fn new() -> (w: Self)
        ensures
            w.out@ == Seq::<u8>::empty(),
    {
        FrameWriter { out: Vec::new() }
    }

    /// Writes a frame behind what is there.
    pub fn write_frame(&mut self, f: &Frame)
        ensures
            final(self).out@ == old(self).out@ + frame_bytes(f.header, f.payload@),
    {
        f.header.encode(&mut self.out);
        self.out.extend_from_slice(f.payload.as_slice());
        assert(self.out@ =~= old(self).out@ + frame_bytes(f.header, f.payload@));
    }
}

/// A frame that is written is read back, whatever follows it; and as long as
/// a byte of it is missing nothing is read.
pub proof fn law_frame_round_trip(h: FrameHeader, payload: Seq<u8>, rest: Seq<u8>, cut: int)
    requires
        h.len == payload.len(),
        h.len <= MAX_FRAME,
        0 <= cut < frame_bytes(h, payload).len(),
    ensures
        first_frame(frame_bytes(h, payload) + rest) == Ok::<_, WireError>(Some((h, payload))),
        (frame_bytes(h, payload) + rest).skip(HEADER_LEN + h.len) == rest,
        first_frame(frame_bytes(h, payload).take(cut)) == Ok::<
            Option<(FrameHeader, Seq<u8>)>,
            WireError,
        >(None),
{
    law_header_round_trip(h, Seq::empty());
    let s = frame_bytes(h, payload) + rest;
    assert(header_bytes(h) + Seq::<u8>::empty() =~= header_bytes(h));
    assert(s.take(HEADER_LEN as int) =~= header_bytes(h));
    assert(s.subrange(HEADER_LEN as int, HEADER_LEN + h.len) =~= payload);
    assert(s.skip(HEADER_LEN + h.len) =~= rest);
    let part = frame_bytes(h, payload).take(cut);
    if cut >= HEADER_LEN {
        assert(part.take(HEADER_LEN as int) =~= header_bytes(h));
    }
}

/// A frame is its header and then its payload. From what has come so far a
/// frame is taken exactly where all of it is there, with the payload that
/// stands behind its header; before that nothing is.
pub proof fn law_frames_are_taken_whole(h: FrameHeader, payload: Seq<u8>, n: int, rest: Seq<u8>)
    requires
        h.len == payload.len(),
        h.len <= 16777216,
        0 <= n < 10 + payload.len(),
    ensures
        first_frame(frame_bytes(h, payload) + rest) == Ok::<
            Option<(FrameHeader, Seq<u8>)>,
            WireError,
        >(Some((h, payload))),
        first_frame(frame_bytes(h, payload).take(n)) == Ok::<
            Option<(FrameHeader, Seq<u8>)>,
            WireError,
        >(None),
        frame_bytes(h, payload) == header_bytes(h) + payload,
{
    crate::nxp::frame::law_header_layout(h);
    crate::nxp::frame::law_header_round_trip(h, Seq::empty());
    let b = header_bytes(h);
    assert(b + Seq::<u8>::empty() =~= b);
    let s = frame_bytes(h, payload) + rest;
    assert(s.take(10) =~= b);
    assert(s.subrange(10, 10 + h.len) =~= payload);
    let t = frame_bytes(h, payload).take(n);
    if n >= 10 {
        assert(t.take(10) =~= b);
    }
}

/// The text of an error names where it comes from and ends with what is said
/// there.
pub proof fn law_error_texts(why: String, w: WireError)
    ensures
        error_text(FrameReadError::Io(why)) == "io: "@ + why@,
        error_text(FrameReadError::Wire(w)) == "wire: "@ + crate::nxp::wire::error_text(w),
        error_text(FrameReadError::Truncated) == "truncated frame"@,
{
}

} // verus!
