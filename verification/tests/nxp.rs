//! The binary framing: numbers, strings, frames and records.

use nexus::nxp::codec::{FrameReadError, FrameReader, FrameWriter};
use nexus::nxp::frame::{flags, FetchRequest, Frame, FrameHeader, FrameType, HEADER_LEN, MAX_FRAME};
use nexus::nxp::record::{ResourceRecord, ENC_ZSTD, KIND_BLOB};
use nexus::nxp::wire::{Reader, WireError, Writer};


#[test]
fn varint_roundtrip() {
    let vals = [0u64, 1, 127, 128, 300, u32::MAX as u64, u64::MAX];
    for v in vals {
        let mut w = Writer::new();
        w.varint(v);
        let bytes = w.into_bytes();
    let mut r = Reader::new(&bytes);
        assert_eq!(r.varint().unwrap(), v);
        assert_eq!(r.remaining(), 0);
    }
}

#[test]
fn varint_rejects_overflow_and_eof() {
    let eleven_continuations = [0x80u8; 11];
    let mut r = Reader::new(&eleven_continuations);
    assert_eq!(r.varint(), Err(WireError::VarintOverflow));

    let mut r = Reader::new(&[0x80u8]); // continuation, then EOF
    assert_eq!(r.varint(), Err(WireError::UnexpectedEof));
}

#[test]
fn lenstr_and_ints() {
    let mut w = Writer::new();
    w.be_u64(0x0102030405060708);
    w.lenstr(b"hello");
    w.u8(0xff);
    let bytes = w.into_bytes();
    let mut r = Reader::new(&bytes);
    assert_eq!(r.be_u64().unwrap(), 0x0102030405060708);
    assert_eq!(r.lenstr(16).unwrap(), b"hello");
    assert_eq!(r.u8().unwrap(), 0xff);
    assert_eq!(r.remaining(), 0);
}

#[test]
fn lenstr_enforces_max() {
    let mut w = Writer::new();
    w.lenstr(b"toolong");
    let bytes = w.into_bytes();
    let mut r = Reader::new(&bytes);
    assert_eq!(r.lenstr(4), Err(WireError::LengthOverflow { max: 4, got: 7 }));
}

#[test]
fn str_rejects_bad_utf8() {
    let mut w = Writer::new();
    w.lenstr(&[0xff, 0xfe]);
    let bytes = w.into_bytes();
    let mut r = Reader::new(&bytes);
    assert_eq!(r.str(8), Err(WireError::BadUtf8));
}


#[test]
fn header_roundtrip() {
    let h = FrameHeader::new(FrameType::Fetch, flags::SYN, 1, 31);
    let mut buf = Vec::new();
    h.encode(&mut buf);
    let mut r = Reader::new(&buf);
    assert_eq!(FrameHeader::decode(&mut r).unwrap(), h);
    assert_eq!(r.remaining(), 0);
}

#[test]
fn header_rejects_oversized_frame() {
    let mut w = Writer::new();
    w.be_u32(MAX_FRAME + 1);
    w.u8(FrameType::Data.to_u8());
    w.u8(0);
    w.be_u32(1);
    let bytes = w.into_bytes();
    let mut r = Reader::new(&bytes);
    assert_eq!(
        FrameHeader::decode(&mut r),
        Err(WireError::LengthOverflow {
            max: MAX_FRAME as usize,
            got: MAX_FRAME as usize + 1
        })
    );
}

#[test]
fn fetch_roundtrip() {
    let bytes = {
        let req = FetchRequest {
            name: "NX://acme.nexus/docs/guide",
            selector: "",
            ranges: vec![(0, 0)],
            if_cursor: 42,
            hash_pin: &[],
        };
        req.encode()
    };
    let mut r = Reader::new(&bytes);
    let req = FetchRequest::decode(&mut r).unwrap();
    assert_eq!(req.name, "NX://acme.nexus/docs/guide");
    assert_eq!(req.selector, "");
    assert_eq!(req.ranges, vec![(0, 0)]);
    assert_eq!(req.if_cursor, 42);
    assert_eq!(req.hash_pin, b"");
    assert_eq!(r.remaining(), 0);
}

#[test]
fn fetch_rejects_many_ranges() {
    let mut w = Writer::new();
    w.lenstr(b"NX://x/y");
    w.lenstr(b"");
    w.varint(2048); // range count over the 1024 cap
    let bytes = w.into_bytes();
    let mut r = Reader::new(&bytes);
    assert!(FetchRequest::decode(&mut r).is_err());
}


fn sample_record() -> ResourceRecord {
    let mut ch = vec![0xAAu8; 34]; // hash-id + len + 32-byte digest
    ch[0] = 0x1e; // blake3
    ch[1] = 32;
    ResourceRecord {
        name: "NX://acme.nexus/docs/guide".into(),
        selector: String::new(),
        kind: KIND_BLOB,
        content_hash: ch,
        size: 1000,
        encoding: ENC_ZSTD,
        mime: "text/markdown".into(),
        cursor: 41,
        prev_cursor: 40,
        signature: Vec::new(),
        meta: vec![(1, b"range-hash-placeholder".to_vec())],
    }
}

#[test]
fn canonical_bytes_are_deterministic() {
    let rec = sample_record();
    assert_eq!(rec.canonical_bytes(), rec.canonical_bytes());
}

#[test]
fn record_roundtrip() {
    let rec = sample_record();
    let bytes = rec.encode();
    let mut r = Reader::new(&bytes);
    let back = ResourceRecord::decode(&mut r).unwrap();
    assert_eq!(r.remaining(), 0);
    assert_eq!(back.name, rec.name);
    assert_eq!(back.cursor, 41);
    assert_eq!(back.prev_cursor, 40);
    assert_eq!(back.content_hash, rec.content_hash);
    assert_eq!(back.encoding, ENC_ZSTD);
    assert_eq!(back.meta, rec.meta);
    assert_eq!(back.canonical_bytes(), rec.canonical_bytes());
}

#[test]
fn record_trailing_bytes_rejected() {
    let rec = sample_record();
    let mut val = rec.encode();
    val.push(0x99); // junk after the record
    let mut r = Reader::new(&val);
    assert!(ResourceRecord::decode(&mut r).is_err());
}

#[test]
fn record_truncated_rejected() {
    let rec = sample_record();
    let bytes = rec.encode();
    let mut r = Reader::new(&bytes[..bytes.len() - 3]);
    assert!(ResourceRecord::decode(&mut r).is_err());
}

#[test]
fn varint_has_one_form() {
    let mut w = Writer::new();
    w.varint(300);
    assert_eq!(w.into_bytes(), vec![0xac, 0x02]);
    // A zero that only makes the number longer is refused.
    let mut r = Reader::new(&[0x80u8, 0x00]);
    assert_eq!(r.varint(), Err(WireError::VarintOverflow));
    let mut r = Reader::new(&[0x00u8]);
    assert_eq!(r.varint(), Ok(0));
}

#[test]
fn header_has_fixed_bytes() {
    let mut buf = Vec::new();
    FrameHeader::new(FrameType::Ping, flags::END_STREAM, 0x01020304, 5).encode(&mut buf);
    assert_eq!(buf, vec![0, 0, 0, 5, 7, 1, 1, 2, 3, 4]);
    assert_eq!(buf.len(), HEADER_LEN);
    buf[4] = 0x0b;
    let mut r = Reader::new(&buf);
    assert_eq!(
        FrameHeader::decode(&mut r),
        Err(WireError::InvalidTag(0x0b))
    );
    for b in 0u8..=255 {
        match FrameType::from_u8(b) {
            Some(t) => assert_eq!(t.to_u8(), b),
            None => assert!(b == 0 || b > 10),
        }
    }
}

#[test]
fn every_cut_of_a_record_is_refused() {
    let bytes = sample_record().encode();
    for cut in 0..bytes.len() {
        let mut r = Reader::new(&bytes[..cut]);
        assert!(ResourceRecord::decode(&mut r).is_err(), "cut {cut}");
    }
}

#[test]
fn different_records_have_different_canonical_bytes() {
    let a = sample_record();
    let mut b = sample_record();
    b.cursor = 42;
    assert_ne!(a.canonical_bytes(), b.canonical_bytes());
    // The bytes that are signed do not hold the signature.
    let mut c = sample_record();
    c.signature = vec![1; 64];
    assert_eq!(a.canonical_bytes(), c.canonical_bytes());
    assert_ne!(a.encode(), c.encode());
}

#[test]
fn frame_roundtrip_over_duplex() {
    let header = FrameHeader::new(FrameType::Data, flags::END_STREAM, 1, 4);
    let frame = Frame { header, payload: vec![0xde, 0xad, 0xbe, 0xef] };
    let mut writer = FrameWriter::new();
    writer.write_frame(&frame);

    // The bytes arrive one by one.
    let mut reader = FrameReader::new();
    for b in &writer.out {
        assert_eq!(reader.next_frame(), Ok(None));
        reader.push(&[*b]);
    }
    let got = reader.next_frame().unwrap().unwrap();
    assert_eq!(got.header, frame.header);
    assert_eq!(got.payload, frame.payload);

    // Clean end at a boundary.
    assert_eq!(reader.next_frame(), Ok(None));
    assert_eq!(reader.finish(), Ok(()));
}

#[test]
fn streams_that_end_inside_a_frame_are_truncated() {
    let mut reader = FrameReader::new();
    reader.push(&[0, 0]);
    assert_eq!(reader.finish(), Err(FrameReadError::Truncated));
    let mut reader = FrameReader::new();
    reader.push(&[0, 0, 0, 1, 1, 0, 0, 0, 0, 1]);
    assert_eq!(reader.next_frame(), Ok(None));
    assert_eq!(reader.finish(), Err(FrameReadError::Truncated));
    assert_eq!(FrameReadError::Truncated.to_string(), "truncated frame");
    let mut reader = FrameReader::new();
    reader.push(&[0, 0, 0, 1, 99, 0, 0, 0, 0, 1]);
    assert_eq!(
        reader.next_frame(),
        Err(FrameReadError::Wire(WireError::InvalidTag(99)))
    );
}
