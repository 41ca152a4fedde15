//! Ten-byte frame header, frame types, and the payload of a fetch.

use crate::bytes::{be_bytes, lemma_be_len, lemma_pow256, pow256, push_be};
use crate::nxp::wire::{
    law_be_is_canonical, law_be_round_trip, law_lenstr_is_canonical, law_lenstr_round_trip,
    law_str_is_canonical, law_str_round_trip, law_varint_is_canonical, law_varint_round_trip,
    lemma_after_both, lenstr_bytes, read_be, read_lenstr, read_str, read_varint, varint_bytes, Reader, Step,
    WireError, Writer,
};
use vstd::prelude::*;
use vstd::string::*;
use vstd::utf8::*;

pub mod flags;
pub mod status;

verus! {

/// Header size: length u32, type u8, flags u8, stream id u32.
pub const HEADER_LEN: usize = 10;

/// Most bytes of a frame payload.
pub const MAX_FRAME: u32 = 16 * 1024 * 1024;

/// What a frame carries.
#[derive(Debug, Clone, Copy, PartialEq, Eq, Structural)]
pub enum FrameType {
    Data,
    Headers,
    Fetch,
    Subscribe,
    Update,
    Status,
    Ping,
    GoAway,
    /// Reserved for renegotiation inside a connection.
    Capabilities,
    Window,
}

/// The tag byte of a frame type.
pub open spec fn type_tag(ty: FrameType) -> u8 {
    match ty {
        FrameType::Data => 1,
        FrameType::Headers => 2,
        FrameType::Fetch => 3,
        FrameType::Subscribe => 4,
        FrameType::Update => 5,
        FrameType::Status => 6,
        FrameType::Ping => 7,
        FrameType::GoAway => 8,
        FrameType::Capabilities => 9,
        FrameType::Window => 10,
    }
}

impl FrameType {
    /// The frame type with the tag byte `b`.
    pub fn from_u8(b: u8) -> (out: Option<FrameType>)
        ensures
            out is Some <==> 1 <= b <= 10,
            out matches Some(ty) ==> type_tag(ty) == b,
    {
        match b {
            1 => Some(FrameType::Data),
            2 => Some(FrameType::Headers),
            3 => Some(FrameType::Fetch),
            4 => Some(FrameType::Subscribe),
            5 => Some(FrameType::Update),
            6 => Some(FrameType::Status),
            7 => Some(FrameType::Ping),
            8 => Some(FrameType::GoAway),
            9 => Some(FrameType::Capabilities),
            10 => Some(FrameType::Window),
            _ => None,
        }
    }

    /// The tag byte.
    pub fn to_u8(self) -> (b: u8)
        ensures
            b == type_tag(self),
    {
        match self {
            FrameType::Data => 1,
            FrameType::Headers => 2,
            FrameType::Fetch => 3,
            FrameType::Subscribe => 4,
            FrameType::Update => 5,
            FrameType::Status => 6,
            FrameType::Ping => 7,
            FrameType::GoAway => 8,
            FrameType::Capabilities => 9,
            FrameType::Window => 10,
        }
    }
}

/// The header of a frame.
#[derive(Debug, Clone, Copy, PartialEq, Eq, Structural)]
pub struct FrameHeader {
    /// Number of payload bytes.
    pub len: u32,
    pub ty: FrameType,
    pub flags: u8,
    pub stream_id: u32,
}

/// The wire form of a header.
pub open spec fn header_bytes(h: FrameHeader) -> Seq<u8> {
    be_bytes(h.len as nat, 4) + seq![type_tag(h.ty)] + seq![h.flags] + be_bytes(
        h.stream_id as nat,
        4,
    )
}

/// The frame type with a known tag byte.
pub open spec fn tagged(b: nat) -> FrameType
    recommends
        1 <= b <= 10,
{
    choose|ty: FrameType| type_tag(ty) == b
}

/// Reads a header: the length is bounded, the tag known.
pub open spec fn read_header(s: Seq<u8>) -> Step<FrameHeader> {
    match read_be(s, 4) {
        (Err(e), rest) => (Err(e), rest),
        (Ok(len), rest) => if len > MAX_FRAME {
            (
                Err(WireError::LengthOverflow { max: MAX_FRAME as usize, got: len as usize }),
                rest,
            )
        } else {
            match read_be(rest, 1) {
                (Err(e), rest) => (Err(e), rest),
                (Ok(b), rest) => if !(1 <= b <= 10) {
                    (Err(WireError::InvalidTag(b as u8)), rest)
                } else {
                    match read_be(rest, 1) {
                        (Err(e), rest) => (Err(e), rest),
                        (Ok(flags), rest) => match read_be(rest, 4) {
                            (Err(e), rest) => (Err(e), rest),
                            (Ok(id), rest) => (
                                Ok(
                                    FrameHeader {
                                        len: len as u32,
                                        ty: tagged(b),
                                        flags: flags as u8,
                                        stream_id: id as u32,
                                    },
                                ),
                                rest,
                            ),
                        },
                    }
                },
            }
        },
    }
}

proof fn lemma_tagged(ty: FrameType)
    ensures
        tagged(type_tag(ty) as nat) == ty,
{
    let t = tagged(type_tag(ty) as nat);
    assert(type_tag(t) == type_tag(ty));
}

impl FrameHeader {
    pub fn new(ty: FrameType, flags: u8, stream_id: u32, len: u32) -> (h: Self)
        ensures
            h == (FrameHeader { len, ty, flags, stream_id }),
    {
        Self { len, ty, flags, stream_id }
    }

    /// Appends the wire form.
    pub fn encode(&self, out: &mut Vec<u8>)
        ensures
            final(out)@ == old(out)@ + header_bytes(*self),
    {
        push_be(out, self.len as u64, 4);
        out.push(self.ty.to_u8());
        out.push(self.flags);
        push_be(out, self.stream_id as u64, 4);
        assert(out@ =~= old(out)@ + header_bytes(*self));
    }

    /// Reads a header.
    pub fn decode(r: &mut Reader<'_>) -> (out: Result<Self, WireError>)
        ensures
            read_header(old(r)@) == (out, final(r)@),
    {
        let len = match r.be_u32() {
            Ok(v) => v,
            Err(e) => return Err(e),
        };
        if len > MAX_FRAME {
            return Err(
                WireError::LengthOverflow { max: MAX_FRAME as usize, got: len as usize },
            );
        }
        let b = match r.u8() {
            Ok(v) => v,
            Err(e) => return Err(e),
        };
        let ty = match FrameType::from_u8(b) {
            Some(ty) => ty,
            None => return Err(WireError::InvalidTag(b)),
        };
        proof {
            lemma_tagged(ty);
        }
        let flags = match r.u8() {
            Ok(v) => v,
            Err(e) => return Err(e),
        };
        let stream_id = match r.be_u32() {
            Ok(v) => v,
            Err(e) => return Err(e),
        };
        Ok(Self { len, ty, flags, stream_id })
    }
}

proof fn lemma_one_byte(b: u8, rest: Seq<u8>)
    ensures
        read_be(seq![b] + rest, 1) == (Ok::<nat, WireError>(b as nat), rest),
{
    lemma_pow256();
    reveal_with_fuel(be_bytes, 2);
    law_be_round_trip(b as nat, 1, rest);
    assert(be_bytes(b as nat, 1) =~= seq![b]);
}

/// A header that is written is read back, where its length is in bounds;
/// it takes [`HEADER_LEN`] bytes.
pub proof fn law_header_round_trip(h: FrameHeader, rest: Seq<u8>)
    requires
        h.len <= MAX_FRAME,
    ensures
        header_bytes(h).len() == HEADER_LEN,
        read_header(header_bytes(h) + rest) == (Ok::<FrameHeader, WireError>(h), rest),
{
    lemma_pow256();
    lemma_be_len(h.len as nat, 4);
    lemma_be_len(h.stream_id as nat, 4);
    let r4 = be_bytes(h.stream_id as nat, 4) + rest;
    let r3 = seq![h.flags] + r4;
    let r2 = seq![type_tag(h.ty)] + r3;
    assert(header_bytes(h) + rest =~= be_bytes(h.len as nat, 4) + r2);
    law_be_round_trip(h.len as nat, 4, r2);
    lemma_one_byte(type_tag(h.ty), r3);
    lemma_one_byte(h.flags, r4);
    law_be_round_trip(h.stream_id as nat, 4, rest);
    lemma_tagged(h.ty);
}

/// A header that claims more than [`MAX_FRAME`] payload bytes is refused.
pub proof fn law_oversized_frame_is_refused(s: Seq<u8>)
    ensures
        read_header(s).0 matches Ok(h) ==> h.len <= MAX_FRAME,
        read_be(s, 4).0 matches Ok(len) ==> len > MAX_FRAME ==> read_header(s).0 == Err::<
            FrameHeader,
            WireError,
        >(WireError::LengthOverflow { max: MAX_FRAME as usize, got: len as usize }),
{
}

/// A frame: header and raw payload.
#[derive(Debug, Clone, PartialEq, Eq)]
pub struct Frame {
    pub header: FrameHeader,
    pub payload: Vec<u8>,
}

/// The payload of a fetch.
///
/// Wire form: name, selector, number of ranges, the ranges, cursor, pinned
/// hash. A range that ends at zero reaches to the end. Cursor zero means no
/// condition.
#[derive(Debug, Clone, PartialEq, Eq)]
pub struct FetchRequest<'a> {
    pub name: &'a str,
    pub selector: &'a str,
    pub ranges: Vec<(u64, u64)>,
    pub if_cursor: u64,
    pub hash_pin: &'a [u8],
}

/// The mathematical value of a [`FetchRequest`].
pub struct FetchView {
    pub name: Seq<char>,
    pub selector: Seq<char>,
    pub ranges: Seq<(u64, u64)>,
    pub if_cursor: u64,
    pub hash_pin: Seq<u8>,
}

impl<'a> View for FetchRequest<'a> {
    type V = FetchView;

    open spec fn view(&self) -> FetchView {
        FetchView {
            name: self.name@,
            selector: self.selector@,
            ranges: self.ranges@,
            if_cursor: self.if_cursor,
            hash_pin: self.hash_pin@,
        }
    }
}

/// Most bytes of a name.
pub const MAX_NAME: usize = 2048;

/// Most bytes of a selector.
pub const MAX_SELECTOR: usize = 256;

/// Most ranges of a fetch.
pub const MAX_RANGES: usize = 1024;

/// Most bytes of a hash.
pub const MAX_HASH: usize = 64;

/// The wire form of ranges.
pub open spec fn ranges_bytes(ranges: Seq<(u64, u64)>) -> Seq<u8>
    decreases ranges.len(),
{
    if ranges.len() == 0 {
        Seq::empty()
    } else {
        be_bytes(ranges[0].0 as nat, 8) + be_bytes(ranges[0].1 as nat, 8) + ranges_bytes(
            ranges.skip(1),
        )
    }
}

/// The wire form of a fetch.
pub open spec fn fetch_bytes(f: FetchView) -> Seq<u8> {
    lenstr_bytes(encode_utf8(f.name)) + lenstr_bytes(encode_utf8(f.selector)) + varint_bytes(
        f.ranges.len(),
    ) + ranges_bytes(f.ranges) + be_bytes(f.if_cursor as nat, 8) + lenstr_bytes(f.hash_pin)
}

/// Items found before, then those of a step.
pub open spec fn after_items<T>(items: Seq<T>, step: Step<Seq<T>>) -> Step<Seq<T>> {
    match step {
        (Ok(more), rest) => (Ok(items + more), rest),
        (Err(e), rest) => (Err(e), rest),
    }
}

/// Reads one range.
pub open spec fn read_range(s: Seq<u8>) -> Step<(u64, u64)> {
    match read_be(s, 8) {
        (Err(e), rest) => (Err(e), rest),
        (Ok(start), rest) => match read_be(rest, 8) {
            (Err(e), rest) => (Err(e), rest),
            (Ok(end), rest) => (Ok((start as u64, end as u64)), rest),
        },
    }
}

/// Reads `n` ranges.
pub open spec fn read_ranges(s: Seq<u8>, n: nat) -> Step<Seq<(u64, u64)>>
    decreases n,
{
    if n == 0 {
        (Ok(Seq::empty()), s)
    } else {
        match read_range(s) {
            (Err(e), rest) => (Err(e), rest),
            (Ok(range), rest) => after_items(seq![range], read_ranges(rest, (n - 1) as nat)),
        }
    }
}

/// Reads the count of ranges and the ranges.
pub open spec fn read_counted_ranges(s: Seq<u8>) -> Step<Seq<(u64, u64)>> {
    match read_varint(s) {
        (Err(e), rest) => (Err(e), rest),
        (Ok(n), rest) => if n > MAX_RANGES {
            (Err(WireError::LengthOverflow { max: MAX_RANGES, got: n as usize }), rest)
        } else {
            read_ranges(rest, n)
        },
    }
}

/// Reads the payload of a fetch.
pub open spec fn read_fetch(s: Seq<u8>) -> Step<FetchView> {
    match read_str(s, MAX_NAME) {
        (Err(e), rest) => (Err(e), rest),
        (Ok(name), rest) => match read_str(rest, MAX_SELECTOR) {
            (Err(e), rest) => (Err(e), rest),
            (Ok(selector), rest) => match read_counted_ranges(rest) {
                (Err(e), rest) => (Err(e), rest),
                (Ok(ranges), rest) => match read_be(rest, 8) {
                    (Err(e), rest) => (Err(e), rest),
                    (Ok(cursor), rest) => match read_lenstr(rest, MAX_HASH) {
                        (Err(e), rest) => (Err(e), rest),
                        (Ok(hash_pin), rest) => (
                            Ok(
                                FetchView {
                                    name,
                                    selector,
                                    ranges,
                                    if_cursor: cursor as u64,
                                    hash_pin,
                                },
                            ),
                            rest,
                        ),
                    },
                },
            },
        },
    }
}

proof fn lemma_ranges_push(ranges: Seq<(u64, u64)>, range: (u64, u64))
    ensures
        ranges_bytes(ranges.push(range)) == ranges_bytes(ranges) + be_bytes(range.0 as nat, 8)
            + be_bytes(range.1 as nat, 8),
    decreases ranges.len(),
{
    if ranges.len() == 0 {
        reveal_with_fuel(ranges_bytes, 2);
        assert(ranges.push(range).skip(1) =~= Seq::empty());
        assert(ranges_bytes(ranges.push(range)) =~= ranges_bytes(ranges) + be_bytes(
            range.0 as nat,
            8,
        ) + be_bytes(range.1 as nat, 8));
    } else {
        lemma_ranges_push(ranges.skip(1), range);
        assert(ranges.push(range).skip(1) =~= ranges.skip(1).push(range));
        assert(ranges_bytes(ranges.push(range)) =~= ranges_bytes(ranges) + be_bytes(
            range.0 as nat,
            8,
        ) + be_bytes(range.1 as nat, 8));
    }
}

proof fn lemma_after_items_assoc<T>(a: Seq<T>, b: Seq<T>, step: Step<Seq<T>>)
    ensures
        after_items(a, after_items(b, step)) == after_items(a + b, step),
{
    if let (Ok(more), _) = step {
        assert(a + (b + more) =~= a + b + more);
    }
}

/// Reads the count of ranges and the ranges.
fn decode_ranges(r: &mut Reader<'_>) -> (out: Result<Vec<(u64, u64)>, WireError>)
    ensures
        read_counted_ranges(old(r)@).1 == final(r)@,
        match out {
            Ok(ranges) => read_counted_ranges(old(r)@).0 == Ok::<Seq<(u64, u64)>, WireError>(
                ranges@,
            ),
            Err(e) => read_counted_ranges(old(r)@).0 == Err::<Seq<(u64, u64)>, WireError>(e),
        },
{
    let n = match r.varint() {
        Ok(v) => v,
        Err(e) => return Err(e),
    };
    if n > 1024 {
        return Err(WireError::LengthOverflow { max: MAX_RANGES, got: n as usize });
    }
    let ghost start = r@;
    let mut ranges: Vec<(u64, u64)> = Vec::new();
    let mut i: u64 = 0;
    proof {
        if let (Ok(more), _) = read_ranges(start, n as nat) {
            assert(ranges@ + more =~= more);
        }
    }
    while i < n
        invariant
            i <= n <= 1024,
            read_ranges(start, n as nat) == after_items(ranges@, read_ranges(r@, (n - i) as nat)),
            read_counted_ranges(old(r)@) == read_ranges(start, n as nat),
        decreases n - i,
    {
        let first = match r.be_u64() {
            Ok(v) => v,
            Err(e) => return Err(e),
        };
        let last = match r.be_u64() {
            Ok(v) => v,
            Err(e) => return Err(e),
        };
        proof {
            lemma_after_items_assoc(
                ranges@,
                seq![(first, last)],
                read_ranges(r@, (n - i - 1) as nat),
            );
            assert(ranges@ + seq![(first, last)] =~= ranges@.push((first, last)));
        }
        ranges.push((first, last));
        i = i + 1;
    }
    assert(ranges@ + Seq::<(u64, u64)>::empty() =~= ranges@);
    Ok(ranges)
}

impl<'a> FetchRequest<'a> {
    /// The wire form.
    pub fn encode(&self) -> (out: Vec<u8>)
        ensures
            out@ == fetch_bytes(self@),
    {
        let mut w = Writer::new();
        w.lenstr(self.name.as_bytes());
        w.lenstr(self.selector.as_bytes());
        w.varint(self.ranges.len() as u64);
        let ghost before = w@;
        assert(self.ranges@.take(0) =~= Seq::empty());
        let mut i: usize = 0;
        while i < self.ranges.len()
            invariant
                i <= self.ranges.len(),
                w@ == before + ranges_bytes(self.ranges@.take(i as int)),
            decreases self.ranges.len() - i,
        {
            let (start, end) = self.ranges[i];
            w.be_u64(start);
            w.be_u64(end);
            proof {
                lemma_ranges_push(self.ranges@.take(i as int), (start, end));
                assert(self.ranges@.take(i as int).push((start, end)) =~= self.ranges@.take(i + 1));
                assert(w@ =~= before + ranges_bytes(self.ranges@.take(i + 1)));
            }
            i = i + 1;
        }
        assert(self.ranges@.take(i as int) =~= self.ranges@);
        w.be_u64(self.if_cursor);
        w.lenstr(self.hash_pin);
        assert(w@ =~= fetch_bytes(self@));
        w.into_bytes()
    }

    /// Reads the wire form.
    pub fn decode(r: &mut Reader<'a>) -> (out: Result<Self, WireError>)
        ensures
            read_fetch(old(r)@).1 == final(r)@,
            match out {
                Ok(f) => read_fetch(old(r)@).0 == Ok::<FetchView, WireError>(f@),
                Err(e) => read_fetch(old(r)@).0 == Err::<FetchView, WireError>(e),
            },
    {
        let name = match r.str(MAX_NAME) {
            Ok(v) => v,
            Err(e) => return Err(e),
        };
        let selector = match r.str(MAX_SELECTOR) {
            Ok(v) => v,
            Err(e) => return Err(e),
        };
        let ranges = match decode_ranges(r) {
            Ok(v) => v,
            Err(e) => return Err(e),
        };
        let if_cursor = match r.be_u64() {
            Ok(v) => v,
            Err(e) => return Err(e),
        };
        let hash_pin = match r.lenstr(MAX_HASH) {
            Ok(v) => v,
            Err(e) => return Err(e),
        };
        Ok(Self { name, selector, ranges, if_cursor, hash_pin })
    }
}

proof fn lemma_ranges_read_back(ranges: Seq<(u64, u64)>, rest: Seq<u8>)
    ensures
        read_ranges(ranges_bytes(ranges) + rest, ranges.len()) == (
            Ok::<Seq<(u64, u64)>, WireError>(ranges),
            rest,
        ),
    decreases ranges.len(),
{
    lemma_pow256();
    if ranges.len() == 0 {
        assert(ranges_bytes(ranges) + rest =~= rest);
        assert(ranges =~= Seq::empty());
    } else {
        let b1 = be_bytes(ranges[0].0 as nat, 8);
        let b2 = be_bytes(ranges[0].1 as nat, 8);
        let more = ranges_bytes(ranges.skip(1)) + rest;
        assert(ranges_bytes(ranges) + rest =~= b1 + (b2 + more));
        law_be_round_trip(ranges[0].0 as nat, 8, b2 + more);
        law_be_round_trip(ranges[0].1 as nat, 8, more);
        lemma_ranges_read_back(ranges.skip(1), rest);
        assert(seq![ranges[0]] + ranges.skip(1) =~= ranges);
    }
}

/// A fetch within bounds.
pub open spec fn fetch_in_bounds(f: FetchView) -> bool {
    &&& encode_utf8(f.name).len() <= MAX_NAME
    &&& encode_utf8(f.selector).len() <= MAX_SELECTOR
    &&& f.ranges.len() <= MAX_RANGES
    &&& f.hash_pin.len() <= MAX_HASH
}

/// The wire form of a fetch, field by field.
proof fn lemma_fetch_fields(f: FetchView, rest: Seq<u8>)
    ensures
        fetch_bytes(f) + rest == lenstr_bytes(encode_utf8(f.name)) + (lenstr_bytes(
            encode_utf8(f.selector),
        ) + (varint_bytes(f.ranges.len()) + (ranges_bytes(f.ranges) + (be_bytes(
            f.if_cursor as nat,
            8,
        ) + (lenstr_bytes(f.hash_pin) + rest))))),
{
    let a = lenstr_bytes(encode_utf8(f.name));
    let b = lenstr_bytes(encode_utf8(f.selector));
    let c = varint_bytes(f.ranges.len());
    let d = ranges_bytes(f.ranges);
    let e = be_bytes(f.if_cursor as nat, 8);
    let g = lenstr_bytes(f.hash_pin);
    assert(a + b + c + d + e + g + rest =~= a + (b + (c + (d + (e + (g + rest))))));
}

/// A fetch within bounds that is written is read back.
#[verifier::rlimit(40)]
pub proof fn law_fetch_round_trip(f: FetchView, rest: Seq<u8>)
    requires
        fetch_in_bounds(f),
    ensures
        read_fetch(fetch_bytes(f) + rest) == (Ok::<FetchView, WireError>(f), rest),
{
    let r5 = lenstr_bytes(f.hash_pin) + rest;
    let r4 = be_bytes(f.if_cursor as nat, 8) + r5;
    let r3 = ranges_bytes(f.ranges) + r4;
    let r2 = varint_bytes(f.ranges.len()) + r3;
    let r1 = lenstr_bytes(encode_utf8(f.selector)) + r2;
    assert(f.if_cursor < pow256(8)) by {
        lemma_pow256();
    }
    lemma_fetch_fields(f, rest);
    law_str_round_trip(f.name, MAX_NAME, r1);
    law_str_round_trip(f.selector, MAX_SELECTOR, r2);
    law_varint_round_trip(f.ranges.len() as u64, r3);
    lemma_ranges_read_back(f.ranges, r4);
    law_be_round_trip(f.if_cursor as nat, 8, r5);
    law_lenstr_round_trip(f.hash_pin, MAX_HASH, rest);
}

/// The ten bytes of a frame header: length, type, flags and stream.
pub proof fn law_header_layout(h: FrameHeader)
    ensures
        header_bytes(h) == be_bytes(h.len as nat, 4) + seq![
            match h.ty {
                FrameType::Data => 1u8,
                FrameType::Headers => 2u8,
                FrameType::Fetch => 3u8,
                FrameType::Subscribe => 4u8,
                FrameType::Update => 5u8,
                FrameType::Status => 6u8,
                FrameType::Ping => 7u8,
                FrameType::GoAway => 8u8,
                FrameType::Capabilities => 9u8,
                FrameType::Window => 10u8,
            },
            h.flags,
        ] + be_bytes(h.stream_id as nat, 4),
        header_bytes(h).len() == 10,
{
    crate::bytes::lemma_be_len(h.len as nat, 4);
    crate::bytes::lemma_be_len(h.stream_id as nat, 4);
    assert(header_bytes(h) =~= be_bytes(h.len as nat, 4) + seq![type_tag(h.ty), h.flags]
        + be_bytes(h.stream_id as nat, 4));
}

/// A frame header is accepted exactly where ten bytes are there, the length is
/// at most sixteen mebibytes, and the type is a known one.
pub proof fn law_when_headers_are_accepted(s: Seq<u8>)
    requires
        s.len() >= 10,
    ensures
        read_header(s).0 is Ok <==> crate::bytes::be_value(s.take(4)) <= 16777216 && 1 <= s[4] <= 10,
        read_header(s).0 matches Ok(h) ==> h.len == crate::bytes::be_value(s.take(4)) && type_tag(h.ty) == s[4]
            && h.flags == s[5] && h.stream_id == crate::bytes::be_value(s.subrange(6, 10)) && read_header(s).1
            == s.skip(10),
        crate::bytes::be_value(s.take(4)) <= 16777216 && !(1 <= s[4] <= 10) ==> read_header(s).0 == Err::<
            FrameHeader,
            WireError,
        >(WireError::InvalidTag(s[4])),
{
    let r1 = s.skip(4);
    let r2 = r1.skip(1);
    let r3 = r2.skip(1);
    lemma_first_byte(r1);
    lemma_first_byte(r2);
    assert(r1[0] == s[4]);
    assert(r2[0] == s[5]);
    assert(r3.take(4) =~= s.subrange(6, 10));
    assert(r3.skip(4) =~= s.skip(10));
    crate::bytes::lemma_be_value(s.take(4));
    crate::bytes::lemma_be_value(r3.take(4));
    crate::bytes::lemma_pow256();
    if 1 <= s[4] <= 10 {
        lemma_known_tag(s[4]);
    }
}

proof fn lemma_first_byte(s: Seq<u8>)
    requires
        s.len() > 0,
    ensures
        read_be(s, 1) == (Ok::<nat, WireError>(s[0] as nat), s.skip(1)),
{
    let one = s.take(1);
    assert(one.drop_last() =~= Seq::empty());
    reveal_with_fuel(crate::bytes::be_value, 2);
    assert(one.last() == s[0]);
}

proof fn lemma_known_tag(b: u8)
    requires
        1 <= b <= 10,
    ensures
        type_tag(tagged(b as nat)) == b,
{
    let ty = if b == 1 {
        FrameType::Data
    } else if b == 2 {
        FrameType::Headers
    } else if b == 3 {
        FrameType::Fetch
    } else if b == 4 {
        FrameType::Subscribe
    } else if b == 5 {
        FrameType::Update
    } else if b == 6 {
        FrameType::Status
    } else if b == 7 {
        FrameType::Ping
    } else if b == 8 {
        FrameType::GoAway
    } else if b == 9 {
        FrameType::Capabilities
    } else {
        FrameType::Window
    };
    assert(type_tag(ty) == b as nat);
}

/// The payload of a fetch: name, selector, the ranges with their number before
/// them, the cursor and the pinned hash.
pub proof fn law_fetch_layout(f: FetchView, range: (u64, u64), ranges: Seq<(u64, u64)>)
    ensures
        fetch_bytes(f) == lenstr_bytes(encode_utf8(f.name)) + lenstr_bytes(encode_utf8(f.selector))
            + varint_bytes(f.ranges.len()) + ranges_bytes(f.ranges) + be_bytes(
            f.if_cursor as nat,
            8,
        ) + lenstr_bytes(f.hash_pin),
        ranges_bytes(seq![range] + ranges) == be_bytes(range.0 as nat, 8) + be_bytes(
            range.1 as nat,
            8,
        ) + ranges_bytes(ranges),
        ranges_bytes(Seq::empty()) == Seq::<u8>::empty(),
        fetch_in_bounds(f) <==> encode_utf8(f.name).len() <= 2048 && encode_utf8(f.selector).len()
            <= 256 && f.ranges.len() <= 1024 && f.hash_pin.len() <= 64,
{
    assert((seq![range] + ranges).skip(1) =~= ranges);
}

/// Ranges are read from the bytes that they are written in.
proof fn lemma_ranges_canonical(s: Seq<u8>, n: nat)
    ensures
        read_ranges(s, n) matches (Ok(ranges), rest) ==> ranges.len() == n && s == ranges_bytes(
            ranges,
        ) + rest,
    decreases n,
{
    if n == 0 {
        assert(s =~= ranges_bytes(Seq::empty()) + s);
    } else {
        law_be_is_canonical(s, 8);
        if let (Ok(start), after) = read_be(s, 8) {
            law_be_is_canonical(after, 8);
            lemma_pow256();
            if let (Ok(end), left) = read_be(after, 8) {
                lemma_ranges_canonical(left, (n - 1) as nat);
                if let (Ok(more), rest) = read_ranges(left, (n - 1) as nat) {
                    let range = (start as u64, end as u64);
                    let all = seq![range] + more;
                    assert(all.skip(1) =~= more);
                    assert(s =~= ranges_bytes(all) + rest);
                }
            }
        }
    }
}

/// Only what is within the bounds is read, and from the bytes that it is
/// written in: a fetch that was read takes up exactly its own bytes.
pub proof fn law_accepted_fetches_are_exact(s: Seq<u8>)
    ensures
        read_fetch(s) matches (Ok(f), rest) ==> encode_utf8(f.name).len() <= 2048 && encode_utf8(
            f.selector,
        ).len() <= 256 && f.ranges.len() <= 1024 && f.hash_pin.len() <= 64 && s == fetch_bytes(f)
            + rest,
{
    if let (Ok(f), rest) = read_fetch(s) {
        law_str_is_canonical(s, MAX_NAME);
        let name = lenstr_bytes(encode_utf8(f.name));
        let s1 = read_str(s, MAX_NAME).1;
        law_str_is_canonical(s1, MAX_SELECTOR);
        let selector = lenstr_bytes(encode_utf8(f.selector));
        let s2 = read_str(s1, MAX_SELECTOR).1;
        lemma_after_both(s, name, s1, selector, s2);
        law_varint_is_canonical(s2);
        let (count, s3) = read_varint(s2);
        let n = count->Ok_0;
        lemma_after_both(s, name + selector, s2, varint_bytes(n), s3);
        lemma_ranges_canonical(s3, n);
        let s4 = read_ranges(s3, n).1;
        let counted = name + selector + varint_bytes(n);
        lemma_after_both(s, counted, s3, ranges_bytes(f.ranges), s4);
        law_be_is_canonical(s4, 8);
        lemma_pow256();
        let s5 = read_be(s4, 8).1;
        let cursor = be_bytes(f.if_cursor as nat, 8);
        lemma_after_both(s, counted + ranges_bytes(f.ranges), s4, cursor, s5);
        law_lenstr_is_canonical(s5, MAX_HASH);
        lemma_after_both(
            s,
            counted + ranges_bytes(f.ranges) + cursor,
            s5,
            lenstr_bytes(f.hash_pin),
            rest,
        );
    }
}

} // verus!
