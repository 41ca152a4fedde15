//! Lines and bodies off a stream.

use nexus::protocol::{ProtocolError, MAX_BODY, MAX_LINE};
use nexus::transport::{
    check_body_claim, map_frame_eof, read_body, read_line_limited, LineReader, LineStep,
    TransportError,
};

#[test]
fn line_reader_ok() {
    let (line, used) = read_line_limited(b"NXP/0.1 FETCH a b\nrest").unwrap();
    assert_eq!(line, "NXP/0.1 FETCH a b\n");
    assert_eq!(used, 18);
}

#[test]
fn line_reader_rejects_huge() {
    let big = vec![b'x'; MAX_LINE + 16];
    assert!(read_line_limited(&big).is_err());
}

#[test]
fn body_rejects_huge_claim() {
    let c = vec![0u8; 8];
    assert!(read_body(&c, MAX_BODY + 1).is_err());
}

#[test]
fn oversized_claim_never_reads() {
    // The claim is refused before there is anything to read from.
    assert!(check_body_claim(MAX_BODY + 1).is_err());
    assert!(check_body_claim(MAX_BODY).is_ok());
    let err = read_body(&[], MAX_BODY + 1).unwrap_err();
    assert!(matches!(
        err,
        TransportError::Protocol(ProtocolError::BodyTooLarge(_))
    ));
}

#[test]
fn body_eof_midway_is_truncated() {
    let c = vec![0u8; 8];
    let err = read_body(&c, 100).unwrap_err();
    assert!(
        matches!(err, TransportError::Protocol(ProtocolError::Truncated)),
        "expected Truncated, got {err:?}"
    );
}

#[test]
fn line_eof_midway_is_truncated() {
    let err = read_line_limited(b"NXP/0.1 FETCH partial").unwrap_err();
    assert!(
        matches!(err, TransportError::Protocol(ProtocolError::Truncated)),
        "expected Truncated, got {err:?}"
    );
}

#[test]
fn body_takes_what_was_declared() {
    assert_eq!(read_body(b"hello world", 5).unwrap(), b"hello");
    assert_eq!(read_body(b"", 0).unwrap(), b"");
}

#[test]
fn bytes_that_are_no_text_are_refused() {
    assert!(matches!(
        read_line_limited(b"\xff\xfe\n"),
        Err(TransportError::Protocol(ProtocolError::Malformed(_)))
    ));
    let mut r = LineReader::new();
    assert!(matches!(r.push(b'a'), LineStep::More));
    assert!(matches!(r.push(b'\n'), LineStep::Line(l) if l == "a\n"));
}

#[test]
fn an_end_inside_a_frame_is_a_truncation() {
    assert!(matches!(
        map_frame_eof(true, "end".into()),
        TransportError::Protocol(ProtocolError::Truncated)
    ));
    let e = map_frame_eof(false, "refused".into());
    assert_eq!(e.to_string(), "io: refused");
}
