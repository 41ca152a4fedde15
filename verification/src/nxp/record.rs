//! Resource records: a name with content hash, size and cursor, signed by
//! the publisher. The signature is over the canonical bytes, so any cache
//! can store and serve records without being trusted.

use crate::bytes::{be_bytes, lemma_be_round_trip, lemma_pow256, pow256};
use crate::nxp::frame::{after_items, MAX_HASH, MAX_NAME, MAX_SELECTOR};
use crate::nxp::wire::{
    law_be_is_canonical, law_be_round_trip, law_lenstr_is_canonical, law_lenstr_is_injective,
    law_lenstr_round_trip, law_str_is_canonical, law_str_round_trip,
    law_truncated_lenstr_is_refused, law_varint_is_canonical, law_varint_is_injective,
    law_varint_round_trip, lemma_after_both, lenstr_bytes,
    read_be, read_lenstr, read_str, read_varint, varint_bytes, Reader, Step, WireError, Writer,
};
use vstd::prelude::*;
use vstd::slice::*;
use vstd::string::*;
use vstd::utf8::*;

verus! {

pub const KIND_BLOB: u8 = 0;

pub const KIND_TREE: u8 = 1;

pub const KIND_STREAM: u8 = 2;

pub const KIND_NAMESPACE: u8 = 3;

pub const ENC_IDENTITY: u8 = 0;

pub const ENC_DEFLATE: u8 = 1;

pub const ENC_ZSTD: u8 = 2;

/// Most bytes of the canonical form of a record.
pub const MAX_RECORD: usize = 64 * 1024;

/// Most bytes of a signature.
pub const MAX_SIGNATURE: usize = 256;

/// Most bytes of a media type.
pub const MAX_MIME: usize = 128;

/// Most extension entries.
pub const MAX_META: usize = 256;

/// Most bytes of an extension value.
pub const MAX_META_VALUE: usize = 4096;

/// A resource record.
#[derive(Debug, Clone, PartialEq, Eq)]
pub struct ResourceRecord {
    pub name: String,
    pub selector: String,
    pub kind: u8,
    /// Hash id, digest length and digest.
    pub content_hash: Vec<u8>,
    pub size: u64,
    pub encoding: u8,
    pub mime: String,
    /// Version that only grows; caches revalidate against it exactly.
    pub cursor: u64,
    /// Previous cursor; zero is none.
    pub prev_cursor: u64,
    /// Signature over the canonical bytes; empty on an unsigned record.
    pub signature: Vec<u8>,
    /// Extension entries: id and value.
    pub meta: Vec<(u64, Vec<u8>)>,
}

/// The mathematical value of a [`ResourceRecord`].
pub struct RecordView {
    pub name: Seq<char>,
    pub selector: Seq<char>,
    pub kind: u8,
    pub content_hash: Seq<u8>,
    pub size: u64,
    pub encoding: u8,
    pub mime: Seq<char>,
    pub cursor: u64,
    pub prev_cursor: u64,
    pub signature: Seq<u8>,
    pub meta: Seq<(u64, Seq<u8>)>,
}

/// The values of extension entries.
pub open spec fn meta_view(meta: Seq<(u64, Vec<u8>)>) -> Seq<(u64, Seq<u8>)> {
    Seq::new(meta.len(), |i: int| (meta[i].0, meta[i].1@))
}

impl View for ResourceRecord {
    type V = RecordView;

    open spec fn view(&self) -> RecordView {
        RecordView {
            name: self.name@,
            selector: self.selector@,
            kind: self.kind,
            content_hash: self.content_hash@,
            size: self.size,
            encoding: self.encoding,
            mime: self.mime@,
            cursor: self.cursor,
            prev_cursor: self.prev_cursor,
            signature: self.signature@,
            meta: meta_view(self.meta@),
        }
    }
}

/// The wire form of extension entries.
pub open spec fn meta_bytes(meta: Seq<(u64, Seq<u8>)>) -> Seq<u8>
    decreases meta.len(),
{
    if meta.len() == 0 {
        Seq::empty()
    } else {
        varint_bytes(meta[0].0 as nat) + lenstr_bytes(meta[0].1) + meta_bytes(meta.skip(1))
    }
}

/// The first half of the canonical form: what the record is of.
pub open spec fn subject_bytes(r: RecordView) -> Seq<u8> {
    lenstr_bytes(encode_utf8(r.name)) + lenstr_bytes(encode_utf8(r.selector)) + seq![r.kind]
        + lenstr_bytes(r.content_hash)
}

/// The second half of the canonical form: what follows the hash.
pub open spec fn property_bytes(r: RecordView) -> Seq<u8> {
    be_bytes(r.size as nat, 8) + seq![r.encoding] + lenstr_bytes(encode_utf8(r.mime)) + be_bytes(
        r.cursor as nat,
        8,
    ) + be_bytes(r.prev_cursor as nat, 8) + varint_bytes(r.meta.len()) + meta_bytes(r.meta)
}

/// The bytes that are signed: the fields in a fixed order, without the
/// signature.
pub open spec fn canonical(r: RecordView) -> Seq<u8> {
    subject_bytes(r) + property_bytes(r)
}

/// The wire form: canonical bytes and signature, each with its length.
pub open spec fn record_bytes(r: RecordView) -> Seq<u8> {
    lenstr_bytes(canonical(r)) + lenstr_bytes(r.signature)
}

/// Reads one extension entry.
pub open spec fn read_entry(s: Seq<u8>) -> Step<(u64, Seq<u8>)> {
    match read_varint(s) {
        (Err(e), rest) => (Err(e), rest),
        (Ok(id), rest) => match read_lenstr(rest, MAX_META_VALUE) {
            (Err(e), rest) => (Err(e), rest),
            (Ok(val), rest) => (Ok((id as u64, val)), rest),
        },
    }
}

/// Reads `n` extension entries.
pub open spec fn read_entries(s: Seq<u8>, n: nat) -> Step<Seq<(u64, Seq<u8>)>>
    decreases n,
{
    if n == 0 {
        (Ok(Seq::empty()), s)
    } else {
        match read_entry(s) {
            (Err(e), rest) => (Err(e), rest),
            (Ok(entry), rest) => after_items(seq![entry], read_entries(rest, (n - 1) as nat)),
        }
    }
}

/// Reads the count of extension entries and the entries.
pub open spec fn read_meta(s: Seq<u8>) -> Step<Seq<(u64, Seq<u8>)>> {
    match read_varint(s) {
        (Err(e), rest) => (Err(e), rest),
        (Ok(n), rest) => if n > MAX_META {
            (Err(WireError::LengthOverflow { max: MAX_META, got: n as usize }), rest)
        } else {
            read_entries(rest, n)
        },
    }
}

/// Reads the end of the canonical form: the cursors and the entries.
#[verifier::opaque]
pub open spec fn read_cursors(s: Seq<u8>, r: RecordView) -> Step<RecordView> {
    match read_be(s, 8) {
        (Err(e), rest) => (Err(e), rest),
        (Ok(cursor), rest) => match read_be(rest, 8) {
            (Err(e), rest) => (Err(e), rest),
            (Ok(prev), rest) => match read_meta(rest) {
                (Err(e), rest) => (Err(e), rest),
                (Ok(meta), rest) => (
                    Ok(RecordView { cursor: cursor as u64, prev_cursor: prev as u64, meta, ..r }),
                    rest,
                ),
            },
        },
    }
}

/// Reads the second half of the canonical form: what follows the hash.
#[verifier::opaque]
pub open spec fn read_properties(s: Seq<u8>, r: RecordView) -> Step<RecordView> {
    match read_be(s, 8) {
        (Err(e), rest) => (Err(e), rest),
        (Ok(size), rest) => match read_be(rest, 1) {
            (Err(e), rest) => (Err(e), rest),
            (Ok(encoding), rest) => match read_str(rest, MAX_MIME) {
                (Err(e), rest) => (Err(e), rest),
                (Ok(mime), rest) => read_cursors(
                    rest,
                    RecordView { size: size as u64, encoding: encoding as u8, mime, ..r },
                ),
            },
        },
    }
}

/// A record with nothing in it but what is given.
pub open spec fn bare(
    name: Seq<char>,
    selector: Seq<char>,
    kind: u8,
    content_hash: Seq<u8>,
) -> RecordView {
    RecordView {
        name,
        selector,
        kind,
        content_hash,
        size: 0,
        encoding: 0,
        mime: Seq::empty(),
        cursor: 0,
        prev_cursor: 0,
        signature: Seq::empty(),
        meta: Seq::empty(),
    }
}

/// Reads the canonical form; the record has no signature yet.
#[verifier::opaque]
pub open spec fn read_canonical(s: Seq<u8>) -> Step<RecordView> {
    match read_str(s, MAX_NAME) {
        (Err(e), rest) => (Err(e), rest),
        (Ok(name), rest) => match read_str(rest, MAX_SELECTOR) {
            (Err(e), rest) => (Err(e), rest),
            (Ok(selector), rest) => match read_be(rest, 1) {
                (Err(e), rest) => (Err(e), rest),
                (Ok(kind), rest) => match read_lenstr(rest, MAX_HASH) {
                    (Err(e), rest) => (Err(e), rest),
                    (Ok(hash), rest) => read_properties(
                        rest,
                        bare(name, selector, kind as u8, hash),
                    ),
                },
            },
        },
    }
}

/// Reads a record that fills the input: nothing may follow the canonical
/// form or the signature.
pub open spec fn read_record(s: Seq<u8>) -> Step<RecordView> {
    match read_lenstr(s, MAX_RECORD) {
        (Err(e), rest) => (Err(e), rest),
        (Ok(canon), rest) => match read_lenstr(rest, MAX_SIGNATURE) {
            (Err(e), rest) => (Err(e), rest),
            (Ok(sig), rest) => match read_canonical(canon) {
                (Err(e), _) => (Err(e), rest),
                (Ok(r), left) => if left.len() != 0 || rest.len() != 0 {
                    (Err(WireError::TrailingData), rest)
                } else {
                    (Ok(RecordView { signature: sig, ..r }), rest)
                },
            },
        },
    }
}

proof fn lemma_meta_push(meta: Seq<(u64, Seq<u8>)>, entry: (u64, Seq<u8>))
    ensures
        meta_bytes(meta.push(entry)) == meta_bytes(meta) + varint_bytes(entry.0 as nat)
            + lenstr_bytes(entry.1),
    decreases meta.len(),
{
    if meta.len() == 0 {
        reveal_with_fuel(meta_bytes, 2);
        assert(meta.push(entry).skip(1) =~= Seq::empty());
    } else {
        lemma_meta_push(meta.skip(1), entry);
        assert(meta.push(entry).skip(1) =~= meta.skip(1).push(entry));
    }
    assert(meta_bytes(meta.push(entry)) =~= meta_bytes(meta) + varint_bytes(entry.0 as nat)
        + lenstr_bytes(entry.1));
}

proof fn lemma_after_entries_assoc(
    a: Seq<(u64, Seq<u8>)>,
    b: Seq<(u64, Seq<u8>)>,
    step: Step<Seq<(u64, Seq<u8>)>>,
)
    ensures
        after_items(a, after_items(b, step)) == after_items(a + b, step),
{
    if let (Ok(more), _) = step {
        assert(a + (b + more) =~= a + b + more);
    }
}

/// Reads the count of extension entries and the entries.
fn decode_meta(r: &mut Reader<'_>) -> (out: Result<Vec<(u64, Vec<u8>)>, WireError>)
    ensures
        read_meta(old(r)@).1 == final(r)@,
        match out {
            Ok(meta) => read_meta(old(r)@).0 == Ok::<Seq<(u64, Seq<u8>)>, WireError>(
                meta_view(meta@),
            ),
            Err(e) => read_meta(old(r)@).0 == Err::<Seq<(u64, Seq<u8>)>, WireError>(e),
        },
{
    let n = match r.varint() {
        Ok(v) => v,
        Err(e) => return Err(e),
    };
    if n > 256 {
        return Err(WireError::LengthOverflow { max: MAX_META, got: n as usize });
    }
    let ghost start = r@;
    let mut meta: Vec<(u64, Vec<u8>)> = Vec::new();
    let mut i: u64 = 0;
    proof {
        if let (Ok(more), _) = read_entries(start, n as nat) {
            assert(meta_view(meta@) + more =~= more);
        }
    }
    while i < n
        invariant
            i <= n <= 256,
            read_entries(start, n as nat) == after_items(
                meta_view(meta@),
                read_entries(r@, (n - i) as nat),
            ),
            read_meta(old(r)@) == read_entries(start, n as nat),
        decreases n - i,
    {
        let id = match r.varint() {
            Ok(v) => v,
            Err(e) => return Err(e),
        };
        let val = match r.lenstr(MAX_META_VALUE) {
            Ok(v) => v,
            Err(e) => return Err(e),
        };
        let ghost entry = (id, val@);
        let ghost before = meta@;
        meta.push((id, slice_to_vec(val)));
        proof {
            lemma_after_entries_assoc(
                meta_view(before),
                seq![entry],
                read_entries(r@, (n - i - 1) as nat),
            );
            assert(meta_view(before) + seq![entry] =~= meta_view(meta@));
        }
        i = i + 1;
    }
    assert(meta_view(meta@) + Seq::<(u64, Seq<u8>)>::empty() =~= meta_view(meta@));
    Ok(meta)
}

impl ResourceRecord {
    /// The bytes that are signed.
    pub fn canonical_bytes(&self) -> (out: Vec<u8>)
        ensures
            out@ == canonical(self@),
    {
        let mut w = Writer::new();
        w.lenstr(self.name.as_str().as_bytes());
        w.lenstr(self.selector.as_str().as_bytes());
        w.u8(self.kind);
        w.lenstr(self.content_hash.as_slice());
        w.be_u64(self.size);
        w.u8(self.encoding);
        w.lenstr(self.mime.as_str().as_bytes());
        w.be_u64(self.cursor);
        w.be_u64(self.prev_cursor);
        w.varint(self.meta.len() as u64);
        let ghost before = w@;
        let ghost meta = meta_view(self.meta@);
        assert(meta.take(0) =~= Seq::empty());
        let mut i: usize = 0;
        while i < self.meta.len()
            invariant
                i <= self.meta.len(),
                meta == meta_view(self.meta@),
                w@ == before + meta_bytes(meta.take(i as int)),
            decreases self.meta.len() - i,
        {
            w.varint(self.meta[i].0);
            w.lenstr(self.meta[i].1.as_slice());
            proof {
                lemma_meta_push(meta.take(i as int), meta[i as int]);
                assert(meta.take(i as int).push(meta[i as int]) =~= meta.take(i + 1));
                assert(w@ =~= before + meta_bytes(meta.take(i + 1)));
            }
            i = i + 1;
        }
        assert(meta.take(i as int) =~= meta);
        assert(w@ =~= canonical(self@));
        w.into_bytes()
    }

    /// The wire form.
    pub fn encode(&self) -> (out: Vec<u8>)
        ensures
            out@ == record_bytes(self@),
    {
        let mut w = Writer::new();
        let canon = self.canonical_bytes();
        w.lenstr(canon.as_slice());
        w.lenstr(self.signature.as_slice());
        assert(w@ =~= record_bytes(self@));
        w.into_bytes()
    }

    /// Reads a record that fills the input.
    pub fn decode(r: &mut Reader<'_>) -> (out: Result<Self, WireError>)
        ensures
            read_record(old(r)@).1 == final(r)@,
            match out {
                Ok(rec) => read_record(old(r)@).0 == Ok::<RecordView, WireError>(rec@),
                Err(e) => read_record(old(r)@).0 == Err::<RecordView, WireError>(e),
            },
    {
        let canon = match r.lenstr(MAX_RECORD) {
            Ok(v) => v,
            Err(e) => return Err(e),
        };
        let sig = match r.lenstr(MAX_SIGNATURE) {
            Ok(v) => v,
            Err(e) => return Err(e),
        };
        let mut cr = Reader::new(canon);
        let rec = match Self::decode_canonical(&mut cr) {
            Ok(v) => v,
            Err(e) => return Err(e),
        };
        if cr.remaining() != 0 || r.remaining() != 0 {
            return Err(WireError::TrailingData);
        }
        Ok(
            ResourceRecord {
                name: rec.name,
                selector: rec.selector,
                kind: rec.kind,
                content_hash: rec.content_hash,
                size: rec.size,
                encoding: rec.encoding,
                mime: rec.mime,
                cursor: rec.cursor,
                prev_cursor: rec.prev_cursor,
                signature: slice_to_vec(sig),
                meta: rec.meta,
            },
        )
    }

    /// Reads the canonical form; the record has no signature yet.
    fn decode_canonical(r: &mut Reader<'_>) -> (out: Result<Self, WireError>)
        ensures
            read_canonical(old(r)@).1 == final(r)@,
            match out {
                Ok(rec) => read_canonical(old(r)@).0 == Ok::<RecordView, WireError>(rec@),
                Err(e) => read_canonical(old(r)@).0 == Err::<RecordView, WireError>(e),
            },
    {
        proof {
            reveal(read_canonical);
            reveal(read_properties);
            reveal(read_cursors);
        }
        let name = match r.str(MAX_NAME) {
            Ok(v) => v.to_owned(),
            Err(e) => return Err(e),
        };
        let selector = match r.str(MAX_SELECTOR) {
            Ok(v) => v.to_owned(),
            Err(e) => return Err(e),
        };
        let kind = match r.u8() {
            Ok(v) => v,
            Err(e) => return Err(e),
        };
        let content_hash = match r.lenstr(MAX_HASH) {
            Ok(v) => slice_to_vec(v),
            Err(e) => return Err(e),
        };
        let size = match r.be_u64() {
            Ok(v) => v,
            Err(e) => return Err(e),
        };
        let encoding = match r.u8() {
            Ok(v) => v,
            Err(e) => return Err(e),
        };
        let mime = match r.str(MAX_MIME) {
            Ok(v) => v.to_owned(),
            Err(e) => return Err(e),
        };
        let cursor = match r.be_u64() {
            Ok(v) => v,
            Err(e) => return Err(e),
        };
        let prev_cursor = match r.be_u64() {
            Ok(v) => v,
            Err(e) => return Err(e),
        };
        let meta = match decode_meta(r) {
            Ok(v) => v,
            Err(e) => return Err(e),
        };
        Ok(
            ResourceRecord {
                name,
                selector,
                kind,
                content_hash,
                size,
                encoding,
                mime,
                cursor,
                prev_cursor,
                signature: Vec::new(),
                meta,
            },
        )
    }
}

/// A record within bounds.
pub open spec fn record_in_bounds(r: RecordView) -> bool {
    &&& encode_utf8(r.name).len() <= MAX_NAME
    &&& encode_utf8(r.selector).len() <= MAX_SELECTOR
    &&& r.content_hash.len() <= MAX_HASH
    &&& encode_utf8(r.mime).len() <= MAX_MIME
    &&& r.meta.len() <= MAX_META
    &&& forall|i: int| 0 <= i < r.meta.len() ==> (#[trigger] r.meta[i]).1.len() <= MAX_META_VALUE
    &&& r.signature.len() <= MAX_SIGNATURE
    &&& canonical(r).len() <= MAX_RECORD
}

proof fn lemma_byte_read_back(b: u8, rest: Seq<u8>)
    ensures
        read_be(seq![b] + rest, 1) == (Ok::<nat, WireError>(b as nat), rest),
{
    lemma_pow256();
    reveal_with_fuel(be_bytes, 2);
    law_be_round_trip(b as nat, 1, rest);
    assert(be_bytes(b as nat, 1) =~= seq![b]);
}

proof fn lemma_meta_read_back(meta: Seq<(u64, Seq<u8>)>, rest: Seq<u8>)
    requires
        forall|i: int| 0 <= i < meta.len() ==> (#[trigger] meta[i]).1.len() <= MAX_META_VALUE,
    ensures
        read_entries(meta_bytes(meta) + rest, meta.len()) == (
            Ok::<Seq<(u64, Seq<u8>)>, WireError>(meta),
            rest,
        ),
    decreases meta.len(),
{
    if meta.len() == 0 {
        assert(meta_bytes(meta) + rest =~= rest);
        assert(meta =~= Seq::empty());
    } else {
        let more = meta_bytes(meta.skip(1)) + rest;
        let val = lenstr_bytes(meta[0].1);
        assert(meta_bytes(meta) + rest =~= varint_bytes(meta[0].0 as nat) + (val + more));
        law_varint_round_trip(meta[0].0, val + more);
        law_lenstr_round_trip(meta[0].1, MAX_META_VALUE, more);
        assert forall|i: int| 0 <= i < meta.skip(1).len() implies (#[trigger] meta.skip(
            1,
        )[i]).1.len() <= MAX_META_VALUE by {
            assert(meta.skip(1)[i] == meta[i + 1]);
        }
        lemma_meta_read_back(meta.skip(1), rest);
        assert(seq![meta[0]] + meta.skip(1) =~= meta);
    }
}

proof fn lemma_subject_read_back(r: RecordView, rest: Seq<u8>)
    requires
        record_in_bounds(r),
    ensures
        read_canonical(subject_bytes(r) + rest) == read_properties(
            rest,
            bare(r.name, r.selector, r.kind, r.content_hash),
        ),
{
    reveal(read_canonical);
    let r3 = lenstr_bytes(r.content_hash) + rest;
    let r2 = seq![r.kind] + r3;
    let r1 = lenstr_bytes(encode_utf8(r.selector)) + r2;
    assert(subject_bytes(r) + rest =~= lenstr_bytes(encode_utf8(r.name)) + r1);
    law_str_round_trip(r.name, MAX_NAME, r1);
    law_str_round_trip(r.selector, MAX_SELECTOR, r2);
    lemma_byte_read_back(r.kind, r3);
    law_lenstr_round_trip(r.content_hash, MAX_HASH, rest);
}

proof fn lemma_cursors_read_back(r: RecordView, q: RecordView)
    requires
        record_in_bounds(r),
    ensures
        read_cursors(
            be_bytes(r.cursor as nat, 8) + (be_bytes(r.prev_cursor as nat, 8) + (varint_bytes(
                r.meta.len(),
            ) + meta_bytes(r.meta))),
            q,
        ) == (
            Ok::<RecordView, WireError>(
                RecordView { cursor: r.cursor, prev_cursor: r.prev_cursor, meta: r.meta, ..q },
            ),
            Seq::<u8>::empty(),
        ),
{
    lemma_pow256();
    let end = Seq::<u8>::empty();
    let entries = meta_bytes(r.meta);
    assert(entries + end =~= entries);
    let r2 = varint_bytes(r.meta.len()) + entries;
    let r1 = be_bytes(r.prev_cursor as nat, 8) + r2;
    law_be_round_trip(r.cursor as nat, 8, r1);
    law_be_round_trip(r.prev_cursor as nat, 8, r2);
    law_varint_round_trip(r.meta.len() as u64, entries);
    lemma_meta_read_back(r.meta, end);
    reveal(read_cursors);
}

proof fn lemma_properties_read_back(r: RecordView)
    requires
        record_in_bounds(r),
    ensures
        read_properties(property_bytes(r), bare(r.name, r.selector, r.kind, r.content_hash)) == (
            Ok::<RecordView, WireError>(RecordView { signature: Seq::empty(), ..r }),
            Seq::<u8>::empty(),
        ),
{
    let q = bare(r.name, r.selector, r.kind, r.content_hash);
    let r3 = be_bytes(r.cursor as nat, 8) + (be_bytes(r.prev_cursor as nat, 8) + (varint_bytes(
        r.meta.len(),
    ) + meta_bytes(r.meta)));
    let r2 = lenstr_bytes(encode_utf8(r.mime)) + r3;
    let r1 = seq![r.encoding] + r2;
    assert(property_bytes(r) =~= be_bytes(r.size as nat, 8) + r1);
    assert(r.size < pow256(8)) by {
        lemma_pow256();
    }
    law_be_round_trip(r.size as nat, 8, r1);
    lemma_byte_read_back(r.encoding, r2);
    law_str_round_trip(r.mime, MAX_MIME, r3);
    lemma_cursors_read_back(
        r,
        RecordView { size: r.size, encoding: r.encoding, mime: r.mime, ..q },
    );
    reveal(read_properties);
}

/// The canonical form of a record within bounds gives back every field but
/// the signature.
pub proof fn law_canonical_round_trip(r: RecordView)
    requires
        record_in_bounds(r),
    ensures
        read_canonical(canonical(r)) == (
            Ok::<RecordView, WireError>(RecordView { signature: Seq::empty(), ..r }),
            Seq::<u8>::empty(),
        ),
{
    lemma_subject_read_back(r, property_bytes(r));
    lemma_properties_read_back(r);
}

/// A text and what follows it can be told from their bytes.
proof fn lemma_text_injective(a: Seq<char>, b: Seq<char>, after_a: Seq<u8>, after_b: Seq<u8>)
    requires
        lenstr_bytes(encode_utf8(a)) + after_a == lenstr_bytes(encode_utf8(b)) + after_b,
    ensures
        a == b,
        after_a == after_b,
{
    law_lenstr_is_injective(encode_utf8(a), encode_utf8(b), after_a, after_b);
    encode_utf8_decode_utf8(a);
    encode_utf8_decode_utf8(b);
}

/// A number of eight bytes and what follows it can be told from their bytes.
proof fn lemma_number_injective(a: u64, b: u64, after_a: Seq<u8>, after_b: Seq<u8>)
    requires
        be_bytes(a as nat, 8) + after_a == be_bytes(b as nat, 8) + after_b,
    ensures
        a == b,
        after_a == after_b,
{
    lemma_pow256();
    lemma_be_round_trip(a as nat, 8);
    lemma_be_round_trip(b as nat, 8);
    assert((be_bytes(a as nat, 8) + after_a).take(8) =~= be_bytes(a as nat, 8));
    assert((be_bytes(b as nat, 8) + after_b).take(8) =~= be_bytes(b as nat, 8));
    assert((be_bytes(a as nat, 8) + after_a).skip(8) =~= after_a);
    assert((be_bytes(b as nat, 8) + after_b).skip(8) =~= after_b);
}

/// A byte and what follows it can be told from their bytes.
proof fn lemma_byte_injective(a: u8, b: u8, after_a: Seq<u8>, after_b: Seq<u8>)
    requires
        seq![a] + after_a == seq![b] + after_b,
    ensures
        a == b,
        after_a == after_b,
{
    assert((seq![a] + after_a)[0] == a);
    assert((seq![b] + after_b)[0] == b);
    assert((seq![a] + after_a).skip(1) =~= after_a);
    assert((seq![b] + after_b).skip(1) =~= after_b);
}

/// As many extension entries can be told from their bytes.
proof fn lemma_meta_injective(a: Seq<(u64, Seq<u8>)>, b: Seq<(u64, Seq<u8>)>)
    requires
        a.len() == b.len(),
        meta_bytes(a) == meta_bytes(b),
    ensures
        a == b,
    decreases a.len(),
{
    if a.len() > 0 {
        let (more_a, more_b) = (meta_bytes(a.skip(1)), meta_bytes(b.skip(1)));
        let (rest_a, rest_b) = (lenstr_bytes(a[0].1) + more_a, lenstr_bytes(b[0].1) + more_b);
        assert(meta_bytes(a) =~= varint_bytes(a[0].0 as nat) + rest_a);
        assert(meta_bytes(b) =~= varint_bytes(b[0].0 as nat) + rest_b);
        law_varint_is_injective(a[0].0 as nat, b[0].0 as nat, rest_a, rest_b);
        law_lenstr_is_injective(a[0].1, b[0].1, more_a, more_b);
        lemma_meta_injective(a.skip(1), b.skip(1));
        assert(seq![a[0]] + a.skip(1) =~= a);
        assert(seq![b[0]] + b.skip(1) =~= b);
    }
    assert(a =~= b);
}

/// The first half of the canonical form can be told from the bytes.
proof fn lemma_subject_injective(a: RecordView, b: RecordView, after_a: Seq<u8>, after_b: Seq<u8>)
    requires
        subject_bytes(a) + after_a == subject_bytes(b) + after_b,
    ensures
        a.name == b.name,
        a.selector == b.selector,
        a.kind == b.kind,
        a.content_hash == b.content_hash,
        after_a == after_b,
{
    let (a3, b3) = (lenstr_bytes(a.content_hash) + after_a, lenstr_bytes(b.content_hash) + after_b);
    let (a2, b2) = (seq![a.kind] + a3, seq![b.kind] + b3);
    let (a1, b1) = (
        lenstr_bytes(encode_utf8(a.selector)) + a2,
        lenstr_bytes(encode_utf8(b.selector)) + b2,
    );
    assert(subject_bytes(a) + after_a =~= lenstr_bytes(encode_utf8(a.name)) + a1);
    assert(subject_bytes(b) + after_b =~= lenstr_bytes(encode_utf8(b.name)) + b1);
    lemma_text_injective(a.name, b.name, a1, b1);
    lemma_text_injective(a.selector, b.selector, a2, b2);
    lemma_byte_injective(a.kind, b.kind, a3, b3);
    law_lenstr_is_injective(a.content_hash, b.content_hash, after_a, after_b);
}

/// The second half of the canonical form can be told from the bytes.
proof fn lemma_properties_injective(a: RecordView, b: RecordView)
    requires
        property_bytes(a) == property_bytes(b),
    ensures
        a.size == b.size,
        a.encoding == b.encoding,
        a.mime == b.mime,
        a.cursor == b.cursor,
        a.prev_cursor == b.prev_cursor,
        a.meta == b.meta,
{
    let (a6, b6) = (meta_bytes(a.meta), meta_bytes(b.meta));
    let (a5, b5) = (varint_bytes(a.meta.len()) + a6, varint_bytes(b.meta.len()) + b6);
    let (a4, b4) = (be_bytes(a.prev_cursor as nat, 8) + a5, be_bytes(b.prev_cursor as nat, 8) + b5);
    let (a3, b3) = (be_bytes(a.cursor as nat, 8) + a4, be_bytes(b.cursor as nat, 8) + b4);
    let (a2, b2) = (lenstr_bytes(encode_utf8(a.mime)) + a3, lenstr_bytes(encode_utf8(b.mime)) + b3);
    let (a1, b1) = (seq![a.encoding] + a2, seq![b.encoding] + b2);
    assert(property_bytes(a) =~= be_bytes(a.size as nat, 8) + a1);
    assert(property_bytes(b) =~= be_bytes(b.size as nat, 8) + b1);
    lemma_number_injective(a.size, b.size, a1, b1);
    lemma_byte_injective(a.encoding, b.encoding, a2, b2);
    lemma_text_injective(a.mime, b.mime, a3, b3);
    lemma_number_injective(a.cursor, b.cursor, a4, b4);
    lemma_number_injective(a.prev_cursor, b.prev_cursor, a5, b5);
    law_varint_is_injective(a.meta.len(), b.meta.len(), a6, b6);
    lemma_meta_injective(a.meta, b.meta);
}

/// Two records that sign the same bytes differ in the signature at most.
pub proof fn law_canonical_is_injective(a: RecordView, b: RecordView)
    requires
        canonical(a) == canonical(b),
    ensures
        (RecordView { signature: b.signature, ..a }) == b,
{
    lemma_subject_injective(a, b, property_bytes(a), property_bytes(b));
    lemma_properties_injective(a, b);
}

/// How a record is read whose two byte strings are known.
proof fn lemma_read_two(canon: Seq<u8>, sig: Seq<u8>, junk: Seq<u8>)
    requires
        canon.len() <= MAX_RECORD,
        sig.len() <= MAX_SIGNATURE,
    ensures
        read_lenstr(lenstr_bytes(canon) + lenstr_bytes(sig) + junk, MAX_RECORD) == (
            Ok::<Seq<u8>, WireError>(canon),
            lenstr_bytes(sig) + junk,
        ),
        read_lenstr(lenstr_bytes(sig) + junk, MAX_SIGNATURE) == (
            Ok::<Seq<u8>, WireError>(sig),
            junk,
        ),
{
    assert(lenstr_bytes(canon) + lenstr_bytes(sig) + junk =~= lenstr_bytes(canon) + (lenstr_bytes(
        sig,
    ) + junk));
    law_lenstr_round_trip(canon, MAX_RECORD, lenstr_bytes(sig) + junk);
    law_lenstr_round_trip(sig, MAX_SIGNATURE, junk);
}

/// A record within bounds that is written is read back.
pub proof fn law_record_round_trip(r: RecordView)
    requires
        record_in_bounds(r),
    ensures
        read_record(record_bytes(r)) == (Ok::<RecordView, WireError>(r), Seq::<u8>::empty()),
{
    lemma_read_two(canonical(r), r.signature, Seq::empty());
    assert(record_bytes(r) + Seq::<u8>::empty() =~= record_bytes(r));
    law_canonical_round_trip(r);
}

/// Bytes behind a record make it unreadable.
pub proof fn law_trailing_bytes_are_refused(r: RecordView, junk: Seq<u8>)
    requires
        record_in_bounds(r),
        junk.len() > 0,
    ensures
        read_record(record_bytes(r) + junk).0 == Err::<RecordView, WireError>(
            WireError::TrailingData,
        ),
{
    lemma_read_two(canonical(r), r.signature, junk);
    law_canonical_round_trip(r);
}

/// A truncated record ends too early.
pub proof fn law_truncated_record_is_refused(r: RecordView, n: int)
    requires
        record_in_bounds(r),
        0 <= n < record_bytes(r).len(),
    ensures
        read_record(record_bytes(r).take(n)).0 == Err::<RecordView, WireError>(
            WireError::UnexpectedEof,
        ),
{
    let (first, second) = (lenstr_bytes(canonical(r)), lenstr_bytes(r.signature));
    let s = record_bytes(r).take(n);
    if n < first.len() {
        assert(s =~= first.take(n));
        law_truncated_lenstr_is_refused(canonical(r), MAX_RECORD, n);
    } else {
        let k = n - first.len();
        assert(s =~= first + second.take(k));
        law_lenstr_round_trip(canonical(r), MAX_RECORD, second.take(k));
        law_truncated_lenstr_is_refused(r.signature, MAX_SIGNATURE, k);
    }
}

/// The bytes that are signed: the fields in their fixed order, then the
/// entries with their number before them. The wire form is these bytes and the
/// signature, each with its length.
pub proof fn law_record_layout(
    r: RecordView,
    entry: (u64, Seq<u8>),
    meta: Seq<(u64, Seq<u8>)>,
)
    ensures
        canonical(r) == lenstr_bytes(encode_utf8(r.name)) + lenstr_bytes(encode_utf8(r.selector))
            + seq![r.kind] + lenstr_bytes(r.content_hash) + be_bytes(r.size as nat, 8) + seq![
            r.encoding,
        ] + lenstr_bytes(encode_utf8(r.mime)) + be_bytes(r.cursor as nat, 8) + be_bytes(
            r.prev_cursor as nat,
            8,
        ) + varint_bytes(r.meta.len()) + meta_bytes(r.meta),
        meta_bytes(seq![entry] + meta) == varint_bytes(entry.0 as nat) + lenstr_bytes(entry.1)
            + meta_bytes(meta),
        meta_bytes(Seq::empty()) == Seq::<u8>::empty(),
        record_bytes(r) == lenstr_bytes(canonical(r)) + lenstr_bytes(r.signature),
{
    assert((seq![entry] + meta).skip(1) =~= meta);
    assert(canonical(r) =~= lenstr_bytes(encode_utf8(r.name)) + lenstr_bytes(
        encode_utf8(r.selector),
    ) + seq![r.kind] + lenstr_bytes(r.content_hash) + be_bytes(r.size as nat, 8) + seq![r.encoding]
        + lenstr_bytes(encode_utf8(r.mime)) + be_bytes(r.cursor as nat, 8) + be_bytes(
        r.prev_cursor as nat,
        8,
    ) + varint_bytes(r.meta.len()) + meta_bytes(r.meta));
}

/// What a record may hold to be read back.
pub proof fn law_record_bounds(r: RecordView)
    ensures
        record_in_bounds(r) <==> {
            &&& encode_utf8(r.name).len() <= 2048
            &&& encode_utf8(r.selector).len() <= 256
            &&& r.content_hash.len() <= 64
            &&& encode_utf8(r.mime).len() <= 128
            &&& r.meta.len() <= 256
            &&& forall|i: int| 0 <= i < r.meta.len() ==> (#[trigger] r.meta[i]).1.len() <= 4096
            &&& r.signature.len() <= 256
            &&& canonical(r).len() <= 65536
        },
{
}

/// A byte is read from itself.
proof fn lemma_byte_canonical(s: Seq<u8>)
    ensures
        read_be(s, 1) matches (Ok(b), rest) ==> b < 256 && s == seq![b as u8] + rest,
{
    law_be_is_canonical(s, 1);
    lemma_pow256();
    reveal_with_fuel(pow256, 2);
    if let (Ok(b), _) = read_be(s, 1) {
        crate::bytes::law_byte_order(s, 0, b);
    }
}

/// Metadata is read from the bytes that it is written in.
proof fn lemma_meta_canonical(s: Seq<u8>, n: nat)
    ensures
        read_entries(s, n) matches (Ok(meta), rest) ==> meta.len() == n && s == meta_bytes(meta)
            + rest && forall|i: int| 0 <= i < meta.len() ==> (#[trigger] meta[i]).1.len() <= 4096,
    decreases n,
{
    if n == 0 {
        assert(s =~= meta_bytes(Seq::empty()) + s);
    } else {
        law_varint_is_canonical(s);
        if let (Ok(id), after) = read_varint(s) {
            law_lenstr_is_canonical(after, MAX_META_VALUE);
            if let (Ok(value), left) = read_lenstr(after, MAX_META_VALUE) {
                lemma_meta_canonical(left, (n - 1) as nat);
                if let (Ok(more), rest) = read_entries(left, (n - 1) as nat) {
                    let entry = (id as u64, value);
                    let all = seq![entry] + more;
                    assert(all.skip(1) =~= more);
                    assert(s =~= meta_bytes(all) + rest);
                    assert forall|i: int| 0 <= i < all.len() implies (
                    #[trigger] all[i]).1.len() <= 4096 by {
                        if i > 0 {
                            assert(all[i] == more[i - 1]);
                        }
                    }
                }
            }
        }
    }
}

/// What follows the subject is read from the bytes that it is written in.
proof fn lemma_properties_canonical(s: Seq<u8>, q: RecordView)
    ensures
        read_properties(s, q) matches (Ok(r), rest) ==> {
            &&& s == property_bytes(r) + rest
            &&& encode_utf8(r.mime).len() <= 128
            &&& r.meta.len() <= 256
            &&& forall|i: int| 0 <= i < r.meta.len() ==> (#[trigger] r.meta[i]).1.len() <= 4096
            &&& r.name == q.name && r.selector == q.selector && r.kind == q.kind && r.content_hash
                == q.content_hash && r.signature == q.signature
        },
{
    reveal(read_properties);
    reveal(read_cursors);
    if let (Ok(r), rest) = read_properties(s, q) {
        lemma_pow256();
        law_be_is_canonical(s, 8);
        let a1 = be_bytes(r.size as nat, 8);
        let s1 = read_be(s, 8).1;
        lemma_byte_canonical(s1);
        let s2 = read_be(s1, 1).1;
        let a2 = a1 + seq![r.encoding];
        lemma_after_both(s, a1, s1, seq![r.encoding], s2);
        law_str_is_canonical(s2, MAX_MIME);
        let s3 = read_str(s2, MAX_MIME).1;
        let mime = lenstr_bytes(encode_utf8(r.mime));
        let a3 = a2 + mime;
        lemma_after_both(s, a2, s2, mime, s3);
        law_be_is_canonical(s3, 8);
        let s4 = read_be(s3, 8).1;
        let cursor = be_bytes(r.cursor as nat, 8);
        let a4 = a3 + cursor;
        lemma_after_both(s, a3, s3, cursor, s4);
        law_be_is_canonical(s4, 8);
        let s5 = read_be(s4, 8).1;
        let prev = be_bytes(r.prev_cursor as nat, 8);
        let a5 = a4 + prev;
        lemma_after_both(s, a4, s4, prev, s5);
        law_varint_is_canonical(s5);
        let (count, s6) = read_varint(s5);
        let n = count->Ok_0;
        let a6 = a5 + varint_bytes(n);
        lemma_after_both(s, a5, s5, varint_bytes(n), s6);
        lemma_meta_canonical(s6, n);
        lemma_after_both(s, a6, s6, meta_bytes(r.meta), rest);
    }
}

/// Only records within the bounds are read, and from the bytes that they are
/// written in: what is accepted as a record is the one way to write it.
pub proof fn law_accepted_records_are_exact(s: Seq<u8>)
    ensures
        read_record(s).0 matches Ok(r) ==> {
            &&& s == record_bytes(r)
            &&& encode_utf8(r.name).len() <= 2048
            &&& encode_utf8(r.selector).len() <= 256
            &&& r.content_hash.len() <= 64
            &&& encode_utf8(r.mime).len() <= 128
            &&& r.meta.len() <= 256
            &&& forall|i: int| 0 <= i < r.meta.len() ==> (#[trigger] r.meta[i]).1.len() <= 4096
            &&& r.signature.len() <= 256
            &&& canonical(r).len() <= 65536
        },
{
    if let (Ok(r), rest) = read_record(s) {
        law_lenstr_is_canonical(s, MAX_RECORD);
        let (canon, after_canon) = read_lenstr(s, MAX_RECORD);
        let bytes = canon->Ok_0;
        law_lenstr_is_canonical(after_canon, MAX_SIGNATURE);
        let signature = lenstr_bytes(r.signature);
        lemma_after_both(s, lenstr_bytes(bytes), after_canon, signature, rest);
        lemma_canonical_is_exact(bytes);
        let q = read_canonical(bytes).0->Ok_0;
        assert(property_bytes(r) == property_bytes(q));
        assert(canonical(r) == canonical(q));
        assert(canonical(q) =~= canonical(q) + Seq::empty());
        assert(s =~= record_bytes(r));
    }
}

/// The signed part of a record is read from the bytes that it is written in.
proof fn lemma_canonical_is_exact(s: Seq<u8>)
    ensures
        read_canonical(s) matches (Ok(r), rest) ==> {
            &&& s == canonical(r) + rest
            &&& encode_utf8(r.name).len() <= 2048
            &&& encode_utf8(r.selector).len() <= 256
            &&& r.content_hash.len() <= 64
            &&& encode_utf8(r.mime).len() <= 128
            &&& r.meta.len() <= 256
            &&& forall|i: int| 0 <= i < r.meta.len() ==> (#[trigger] r.meta[i]).1.len() <= 4096
        },
{
    reveal(read_canonical);
    if let (Ok(r), rest) = read_canonical(s) {
        law_str_is_canonical(s, MAX_NAME);
        let a1 = lenstr_bytes(encode_utf8(r.name));
        let (name, s1) = read_str(s, MAX_NAME);
        law_str_is_canonical(s1, MAX_SELECTOR);
        let (selector, s2) = read_str(s1, MAX_SELECTOR);
        lemma_byte_canonical(s2);
        let (kind, s3) = read_be(s2, 1);
        law_lenstr_is_canonical(s3, MAX_HASH);
        let (hash, s4) = read_lenstr(s3, MAX_HASH);
        let q = bare(name->Ok_0, selector->Ok_0, kind->Ok_0 as u8, hash->Ok_0);
        lemma_properties_canonical(s4, q);
        assert(read_properties(s4, q) == (Ok::<RecordView, WireError>(r), rest));
        let a2 = a1 + lenstr_bytes(encode_utf8(r.selector));
        lemma_after_both(s, a1, s1, lenstr_bytes(encode_utf8(r.selector)), s2);
        let a3 = a2 + seq![r.kind];
        lemma_after_both(s, a2, s2, seq![r.kind], s3);
        let a4 = a3 + lenstr_bytes(r.content_hash);
        lemma_after_both(s, a3, s3, lenstr_bytes(r.content_hash), s4);
        lemma_after_both(s, a4, s4, property_bytes(r), rest);
    }
}

} // verus!
