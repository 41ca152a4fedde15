//! Stream framing: one request line, or one response, with strict limits.
//!
//! A stream delivers bytes one after the other and may end at any point.
//! Where it ends inside a frame, the frame is truncated.

use crate::protocol::{newline_at, ProtocolError, ProtocolErrorView, MAX_BODY, MAX_LINE};
use crate::text::utf8_str;
use vstd::prelude::*;
use vstd::slice::*;
use vstd::string::*;
use vstd::utf8::*;

verus! {

/// Why an exchange failed: a violation of the protocol, or the stream itself.
#[derive(Debug, Clone, PartialEq, Eq)]
pub enum TransportError {
    /// The peer sent what the protocol refuses.
    Protocol(ProtocolError),
    /// The stream failed.
    Io(String),
}

/// The mathematical value of a [`TransportError`].
pub enum TransportErrorView {
    Protocol(ProtocolErrorView),
    Io(Seq<char>),
}

impl View for TransportError {
    type V = TransportErrorView;

    open spec fn view(&self) -> TransportErrorView {
        match self {
            TransportError::Protocol(e) => TransportErrorView::Protocol(e@),
            TransportError::Io(s) => TransportErrorView::Io(s@),
        }
    }
}

/// What a [`TransportError`] says to a reader.
pub open spec fn error_text(e: TransportErrorView) -> Seq<char> {
    match e {
        TransportErrorView::Protocol(p) => "protocol: "@ + crate::protocol::error_text(p),
        TransportErrorView::Io(s) => "io: "@ + s,
    }
}

impl TransportError {
    /// What the error says to a reader.
    pub fn to_string(&self) -> (out: String)
        ensures
            out@ == error_text(self@),
    {
        match self {
            TransportError::Protocol(e) => "protocol: ".to_owned().concat(e.to_string().as_str()),
            TransportError::Io(s) => "io: ".to_owned().concat(s.as_str()),
        }
    }
}

/// What a failed read means: the end of the stream inside a frame truncates
/// it, any other failure stays what it is.
pub fn map_frame_eof(end_of_stream: bool, failure: String) -> (out: TransportError)
    ensures
        out@ == if end_of_stream {
            TransportErrorView::Protocol(ProtocolErrorView::Truncated)
        } else {
            TransportErrorView::Io(failure@)
        },
{
    if end_of_stream {
        TransportError::Protocol(ProtocolError::Truncated)
    } else {
        TransportError::Io(failure)
    }
}

/// The line at the start of a stream that holds `s` and then ends. A line
/// has at most [`MAX_LINE`] bytes before its newline.
pub open spec fn first_line(s: Seq<u8>) -> Result<Seq<char>, ProtocolErrorView> {
    let nl = newline_at(s) as int;
    if nl > MAX_LINE && s.len() > MAX_LINE + 1 {
        Err(ProtocolErrorView::LineTooLong)
    } else if nl >= s.len() {
        Err(ProtocolErrorView::Truncated)
    } else if !valid_utf8(s.take(nl + 1)) {
        Err(ProtocolErrorView::Malformed("non-utf8 line"@))
    } else {
        Ok(decode_utf8(s.take(nl + 1)))
    }
}

/// What a byte makes of a line.
#[derive(Debug, Clone, PartialEq, Eq)]
pub enum LineStep {
    /// The line goes on.
    More,
    /// The line is complete.
    Line(String),
    /// The line is refused.
    Refused(ProtocolError),
}

/// A line that a stream delivers byte by byte.
#[derive(Debug)]
pub struct LineReader {
    buf: Vec<u8>,
}

impl View for LineReader {
    type V = Seq<u8>;

    /// The bytes so far.
    closed spec fn view(&self) -> Seq<u8> {
        self.buf@
    }
}

/// No newline so far, and not too long.
pub open spec fn unfinished(s: Seq<u8>) -> bool {
    &&& s.len() <= MAX_LINE + 1
    &&& forall|i: int| 0 <= i < s.len() ==> #[trigger] s[i] != 10
}

proof fn lemma_newline(s: Seq<u8>, k: int)
    requires
        0 <= k <= s.len(),
        k < s.len() ==> s[k] == 10,
        forall|i: int| 0 <= i < k ==> s[i] != 10,
    ensures
        newline_at(s) == k,
    decreases k,
{
    if k > 0 {
        assert(s[0] != 10);
        assert forall|i: int| 0 <= i < k - 1 implies s.skip(1)[i] != 10 by {
            assert(s[i + 1] != 10);
        }
        lemma_newline(s.skip(1), k - 1);
    }
}

impl LineReader {
    /// Nothing read yet.
    pub fn new() -> (r: Self)
        ensures
            r@ == Seq::<u8>::empty(),
            unfinished(r@),
    {
        LineReader { buf: Vec::new() }
    }

    /// Takes the next byte of the stream.
    pub fn push(&mut self, byte: u8) -> (step: LineStep)
        requires
            unfinished(old(self)@),
        ensures
            final(self)@ == old(self)@.push(byte),
            match step {
                LineStep::More => byte != 10 && final(self)@.len() <= MAX_LINE + 1,
                LineStep::Line(text) => byte == 10 && final(self)@.len() <= MAX_LINE + 1
                    && valid_utf8(final(self)@) && text@ == decode_utf8(final(self)@),
                LineStep::Refused(e) => if final(self)@.len() > MAX_LINE + 1 {
                    e@ == ProtocolErrorView::LineTooLong
                } else {
                    byte == 10 && !valid_utf8(final(self)@) && e@ == ProtocolErrorView::Malformed(
                        "non-utf8 line"@,
                    )
                },
            },
            step is More ==> unfinished(final(self)@),
    {
        self.buf.push(byte);
        if self.buf.len() > MAX_LINE + 1 {
            return LineStep::Refused(ProtocolError::LineTooLong);
        }
        if byte != 10 {
            return LineStep::More;
        }
        match utf8_str(self.buf.as_slice()) {
            Some(text) => {
                proof {
                    encode_utf8_decode_utf8(text@);
                }
                LineStep::Line(text.to_owned())
            },
            None => LineStep::Refused(ProtocolError::Malformed("non-utf8 line".to_owned())),
        }
    }
}

/// The line at the start of a stream that holds `stream` and then ends, and
/// the number of bytes that it took.
pub fn read_line_limited(stream: &[u8]) -> (out: Result<(String, usize), TransportError>)
    ensures
        match out {
            Ok(r) => {
                &&& first_line(stream@) == Ok::<Seq<char>, ProtocolErrorView>(r.0@)
                &&& r.1 == newline_at(stream@) + 1
            },
            Err(e) => first_line(stream@) matches Err(p) && e@ == TransportErrorView::Protocol(p),
        },
{
    let mut reader = LineReader::new();
    let mut i: usize = 0;
    assert(stream@.take(0) =~= Seq::empty());
    while i < stream.len()
        invariant
            i <= stream@.len(),
            reader@ == stream@.take(i as int),
            unfinished(reader@),
        decreases stream@.len() - i,
    {
        let byte = stream[i];
        proof {
            assert(stream@.take(i as int).push(byte) =~= stream@.take(i + 1));
            assert forall|j: int| 0 <= j < i implies stream@[j] != 10 by {
                assert(reader@[j] == stream@[j]);
            }
            if byte == 10 {
                lemma_newline(stream@, i as int);
            } else {
                lemma_newline_beyond(stream@, i + 1);
            }
        }
        match reader.push(byte) {
            LineStep::More => {},
            LineStep::Line(text) => return Ok((text, i + 1)),
            LineStep::Refused(e) => return Err(TransportError::Protocol(e)),
        }
        i = i + 1;
    }
    proof {
        assert forall|j: int| 0 <= j < stream@.len() implies stream@[j] != 10 by {
            assert(reader@[j] == stream@[j]);
        }
        lemma_newline(stream@, stream@.len() as int);
    }
    Err(TransportError::Protocol(ProtocolError::Truncated))
}

proof fn lemma_newline_beyond(s: Seq<u8>, k: int)
    requires
        0 <= k <= s.len(),
        forall|i: int| 0 <= i < k ==> s[i] != 10,
    ensures
        newline_at(s) >= k,
    decreases k,
{
    if k > 0 {
        assert(s[0] != 10);
        assert forall|i: int| 0 <= i < k - 1 implies s.skip(1)[i] != 10 by {
            assert(s[i + 1] != 10);
        }
        lemma_newline_beyond(s.skip(1), k - 1);
    }
}

/// Whether a body of the claimed length may be read at all: asked before
/// anything is read or set aside for it.
pub fn check_body_claim(len: usize) -> (out: Result<(), ProtocolError>)
    ensures
        match out {
            Ok(_) => len <= MAX_BODY,
            Err(e) => len > MAX_BODY && e@ == ProtocolErrorView::BodyTooLarge(len as nat),
        },
{
    if len > MAX_BODY {
        Err(ProtocolError::BodyTooLarge(len))
    } else {
        Ok(())
    }
}

/// The body of `len` bytes at the start of a stream that holds `stream` and
/// then ends.
pub fn read_body(stream: &[u8], len: usize) -> (out: Result<Vec<u8>, TransportError>)
    ensures
        match out {
            Ok(body) => len <= MAX_BODY && len <= stream@.len() && body@ == stream@.take(
                len as int,
            ),
            Err(e) => if len > MAX_BODY {
                e@ == TransportErrorView::Protocol(ProtocolErrorView::BodyTooLarge(len as nat))
            } else {
                stream@.len() < len && e@ == TransportErrorView::Protocol(
                    ProtocolErrorView::Truncated,
                )
            },
        },
{
    match check_body_claim(len) {
        Ok(_) => {},
        Err(e) => return Err(TransportError::Protocol(e)),
    }
    if stream.len() < len {
        return Err(TransportError::Protocol(ProtocolError::Truncated));
    }
    let (body, _) = stream.split_at(len);
    assert(body@ =~= stream@.take(len as int));
    Ok(slice_to_vec(body))
}

/// A printable line that was written is read back off a stream, whatever
/// follows it.
pub proof fn law_line_is_read_back(line: Seq<char>, rest: Seq<u8>)
    requires
        0 < line.len() <= MAX_LINE + 1,
        line.last() == '\n',
        forall|i: int| 0 <= i < line.len() - 1 ==> ' ' <= #[trigger] line[i] <= '~',
    ensures
        first_line(encode_utf8(line) + rest) == Ok::<Seq<char>, ProtocolErrorView>(line),
{
    let b = encode_utf8(line);
    let s = b + rest;
    is_ascii_chars_encode_utf8(line);
    encode_utf8_decode_utf8(line);
    encode_utf8_valid_utf8(line);
    assert forall|i: int| 0 <= i < b.len() - 1 implies s[i] != 10 by {
        assert(line[i] as u8 == b[i]);
    }
    assert(line[b.len() - 1] as u8 == b[b.len() - 1]);
    lemma_newline(s, b.len() - 1);
    assert(s.take(b.len() as int) =~= b);
}

/// A line is what stands up to and with the first newline, wherever that is
/// within the limit; without one the stream is truncated, and behind too many
/// bytes the line is too long.
pub proof fn law_the_first_line_is_read(s: Seq<u8>, nl: int)
    requires
        0 <= nl <= s.len(),
        forall|i: int| 0 <= i < nl ==> #[trigger] s[i] != 10,
        nl < s.len() ==> s[nl] == 10,
    ensures
        nl < s.len() && nl <= 4096 && valid_utf8(s.take(nl + 1)) ==> first_line(s) == Ok::<
            Seq<char>,
            ProtocolErrorView,
        >(decode_utf8(s.take(nl + 1))),
        nl < s.len() && nl <= 4096 && !valid_utf8(s.take(nl + 1)) ==> first_line(s) == Err::<
            Seq<char>,
            ProtocolErrorView,
        >(ProtocolErrorView::Malformed("non-utf8 line"@)),
        nl == s.len() && s.len() <= 4097 ==> first_line(s) == Err::<Seq<char>, ProtocolErrorView>(
            ProtocolErrorView::Truncated,
        ),
        nl > 4096 && s.len() > 4097 ==> first_line(s) == Err::<Seq<char>, ProtocolErrorView>(
            ProtocolErrorView::LineTooLong,
        ),
{
    lemma_newline(s, nl);
}

/// The text of an error names the layer that it comes from and ends with what
/// that layer says.
pub proof fn law_error_texts(p: ProtocolErrorView, why: Seq<char>)
    ensures
        error_text(TransportErrorView::Protocol(p)) == "protocol: "@ + crate::protocol::error_text(
            p,
        ),
        error_text(TransportErrorView::Io(why)) == "io: "@ + why,
{
}

} // verus!
