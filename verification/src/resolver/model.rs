//! The signed-record envelope, and the bytes it is stored and exchanged as.
//!
//! Every backend moves these bytes; nothing here knows what a network is.

use crate::bytes::{
    le_bytes, le_number, le_value, lemma_le_len, lemma_le_round_trip, lemma_pow256, push_le,
};
use crate::hex_text::{
    hex_bytes, hex_chars, hex_digit_of, hex_value_of, is_hex_char, is_hex_digit, is_hex_text,
    law_hex_round_trip,
};
use crate::keys::{array32, array64};
use crate::text::chars_of;
use vstd::prelude::*;
use vstd::slice::*;
use vstd::string::*;

verus! {

/// Identifier of a name zone: the hash of the name.
pub type ZoneId = [u8; 32];

/// Anchor of trust: the hash of the public key.
pub type IdentityId = [u8; 32];

/// Public key bytes.
pub type PublicKey = [u8; 32];

/// Signature bytes.
pub type Signature = [u8; 64];

/// What a record is.
#[derive(Debug, Clone, Copy, PartialEq, Eq, Hash, PartialOrd, Ord, Structural)]
pub enum RecordKind {
    /// How to reach the machines of the zone.
    Node,
    /// A named service endpoint.
    Service,
    /// A content id for a path.
    Content,
    /// The zone points to another name.
    Alias,
    /// Another key may sign for the zone.
    Delegation,
    /// All records up to a sequence number are dead.
    Revocation,
}

/// The number of a kind on the wire; it never changes.
pub open spec fn kind_tag(k: RecordKind) -> u8 {
    match k {
        RecordKind::Node => 1,
        RecordKind::Service => 2,
        RecordKind::Content => 3,
        RecordKind::Alias => 4,
        RecordKind::Delegation => 5,
        RecordKind::Revocation => 6,
    }
}

/// The kind with a known number.
pub open spec fn tagged_kind(b: u8) -> RecordKind
    recommends
        1 <= b <= 6,
{
    if b == 1 {
        RecordKind::Node
    } else if b == 2 {
        RecordKind::Service
    } else if b == 3 {
        RecordKind::Content
    } else if b == 4 {
        RecordKind::Alias
    } else if b == 5 {
        RecordKind::Delegation
    } else {
        RecordKind::Revocation
    }
}

impl RecordKind {
    /// The number of the kind on the wire.
    pub fn discriminant(self) -> (b: u8)
        ensures
            b == kind_tag(self),
    {
        match self {
            RecordKind::Node => 1,
            RecordKind::Service => 2,
            RecordKind::Content => 3,
            RecordKind::Alias => 4,
            RecordKind::Delegation => 5,
            RecordKind::Revocation => 6,
        }
    }
}

/// One self-authenticating statement of the identity of a zone.
#[derive(Debug, PartialEq, Eq)]
pub struct SignedRecord {
    /// Owning zone.
    pub zone: ZoneId,
    /// Grows with each record of a zone and kind; the higher one wins.
    pub seq: u64,
    pub kind: RecordKind,
    /// What the record says, by its kind.
    pub payload: Vec<u8>,
    /// When the record expires; nothing if it never does.
    pub expires_at: Option<u64>,
    /// Signature over the fields above.
    pub signature: Signature,
    /// The key that signed.
    pub signer: PublicKey,
}

/// The mathematical value of a [`SignedRecord`].
pub struct RecordView {
    pub zone: Seq<u8>,
    pub seq: u64,
    pub kind: RecordKind,
    pub payload: Seq<u8>,
    pub expires_at: Option<u64>,
    pub signature: Seq<u8>,
    pub signer: Seq<u8>,
}

impl View for SignedRecord {
    type V = RecordView;

    open spec fn view(&self) -> RecordView {
        RecordView {
            zone: self.zone@,
            seq: self.seq,
            kind: self.kind,
            payload: self.payload@,
            expires_at: self.expires_at,
            signature: self.signature@,
            signer: self.signer@,
        }
    }
}

impl Clone for SignedRecord {
    fn clone(&self) -> (out: Self)
        ensures
            out@ == self@,
    {
        SignedRecord {
            zone: self.zone,
            seq: self.seq,
            kind: self.kind,
            payload: slice_to_vec(self.payload.as_slice()),
            expires_at: self.expires_at,
            signature: self.signature,
            signer: self.signer,
        }
    }
}

/// An expiry as a number: the largest one if it never comes.
pub open spec fn raw_expiry(e: Option<u64>) -> nat {
    match e {
        Some(t) => t as nat,
        None => u64::MAX as nat,
    }
}

/// The bytes that are signed: zone, sequence number, kind, payload and expiry.
pub open spec fn signed_form(r: RecordView) -> Seq<u8> {
    r.zone + le_bytes(r.seq as nat, 8) + seq![kind_tag(r.kind)] + r.payload + le_bytes(
        raw_expiry(r.expires_at),
        8,
    )
}

/// The record is past its expiry.
pub open spec fn is_expired(r: RecordView, now: u64) -> bool {
    r.expires_at matches Some(e) && e < now
}

/// An expiry as a number.
fn expiry_number(e: Option<u64>) -> (n: u64)
    ensures
        n == raw_expiry(e),
{
    match e {
        Some(t) => t,
        None => u64::MAX,
    }
}

impl SignedRecord {
    /// The bytes that are signed.
    pub fn signed_bytes(&self) -> (out: Vec<u8>)
        ensures
            out@ == signed_form(self@),
    {
        let mut out: Vec<u8> = Vec::new();
        out.extend_from_slice(self.zone.as_slice());
        push_le(&mut out, self.seq, 8);
        out.push(self.kind.discriminant());
        out.extend_from_slice(self.payload.as_slice());
        push_le(&mut out, expiry_number(self.expires_at), 8);
        assert(out@ =~= signed_form(self@));
        out
    }

    /// Whether the record is past its expiry.
    pub fn expired_at(&self, now: u64) -> (expired: bool)
        ensures
            expired == is_expired(self@, now),
    {
        match self.expires_at {
            Some(e) => e < now,
            None => false,
        }
    }
}

/// A record that passed validation.
#[derive(Debug, PartialEq, Eq)]
pub struct ValidatedRecord {
    pub record: SignedRecord,
    /// Identity that anchors the zone.
    pub identity: IdentityId,
}

/// The mathematical value of a [`ValidatedRecord`].
pub struct ValidatedView {
    pub record: RecordView,
    pub identity: Seq<u8>,
}

impl View for ValidatedRecord {
    type V = ValidatedView;

    open spec fn view(&self) -> ValidatedView {
        ValidatedView { record: self.record@, identity: self.identity@ }
    }
}

impl Clone for ValidatedRecord {
    fn clone(&self) -> (out: Self)
        ensures
            out@ == self@,
    {
        ValidatedRecord { record: self.record.clone(), identity: self.identity }
    }
}

/// One node behind a zone.
#[derive(Debug, Clone, PartialEq, Eq)]
pub struct NodeAddr {
    pub transport: Transport,
    /// Raw address bytes.
    pub multiaddr: Vec<u8>,
    pub roles: Vec<Role>,
}

/// Transport families.
#[derive(Debug, Clone, Copy, PartialEq, Eq, Structural)]
pub enum Transport {
    Tcp,
    Quic,
    Tor,
    I2p,
    Relay,
    Other,
}

/// Roles of a node.
#[derive(Debug, Clone, Copy, PartialEq, Eq, Structural)]
pub enum Role {
    /// Answers resolution queries.
    Resolver,
    /// Relays traffic.
    Relay,
    /// Stores records.
    Storage,
    /// Serves content.
    Gateway,
}

/// The live records of a zone.
#[derive(Debug, Clone, PartialEq, Eq)]
pub struct Resolution {
    pub zone: ZoneId,
    pub nodes: Vec<NodeAddr>,
    pub services: Vec<Vec<u8>>,
    pub contents: Vec<Vec<u8>>,
    pub alias: Option<Vec<u8>>,
    pub identity: IdentityId,
    pub max_seq: u64,
    pub from_cache: bool,
}

/// Why a record is refused or a zone not found.
#[derive(Debug, Clone, PartialEq, Eq)]
pub enum ResolveError {
    NotFound,
    /// A record or envelope cannot be decoded.
    Malformed,
    UnsupportedVersion(u8),
    UnknownKind(u8),
    /// The signature holds under no key of the zone.
    BadSignature,
    /// The sequence number is not newer.
    StaleSequence,
    /// A revocation covers the record, or it expired.
    Revoked,
    Timeout,
    Backend(String),
}

/// Versioned framing of a record.
#[derive(Debug, PartialEq, Eq)]
pub struct Envelope {
    pub version: u8,
    pub record: SignedRecord,
}

/// The wire form of an envelope: version, zone, sequence number, kind,
/// payload length, payload, expiry, signer, signature.
pub open spec fn wire_form(version: u8, r: RecordView) -> Seq<u8> {
    seq![version] + r.zone + le_bytes(r.seq as nat, 8) + seq![kind_tag(r.kind)] + le_bytes(
        r.payload.len(),
        8,
    ) + r.payload + le_bytes(raw_expiry(r.expires_at), 8) + r.signer + r.signature
}

/// Bytes of the wire form without payload.
pub const WIRE_FIXED: usize = 154;

/// The record of a wire form with a payload of `n` bytes.
pub open spec fn wire_record(b: Seq<u8>, n: int) -> RecordView {
    let raw = le_value(b.subrange(50 + n, 58 + n));
    RecordView {
        zone: b.subrange(1, 33),
        seq: le_value(b.subrange(33, 41)) as u64,
        kind: tagged_kind(b[41]),
        payload: b.subrange(50, 50 + n),
        expires_at: if raw == u64::MAX {
            None
        } else {
            Some(raw as u64)
        },
        signer: b.subrange(58 + n, 90 + n),
        signature: b.subrange(90 + n, 154 + n),
    }
}

/// The record of a wire form; bytes behind the signature are not read.
pub open spec fn parsed_wire(b: Seq<u8>) -> Result<RecordView, ResolveError> {
    let n = le_value(b.subrange(42, 50));
    if b.len() < WIRE_FIXED {
        Err(ResolveError::Malformed)
    } else if b[0] != 1 {
        Err(ResolveError::UnsupportedVersion(b[0]))
    } else if !(1 <= b[41] <= 6) {
        Err(ResolveError::UnknownKind(b[41]))
    } else if b.len() < WIRE_FIXED + n {
        Err(ResolveError::Malformed)
    } else {
        Ok(wire_record(b, n as int))
    }
}

/// The part of a slice from one position to another.
fn part(b: &[u8], from: usize, to: usize) -> (out: &[u8])
    requires
        from <= to <= b@.len(),
    ensures
        out@ == b@.subrange(from as int, to as int),
{
    let (_, rest) = b.split_at(from);
    let (out, _) = rest.split_at(to - from);
    assert(out@ =~= b@.subrange(from as int, to as int));
    out
}

impl Envelope {
    /// The wire form.
    pub fn to_wire(&self) -> (out: Vec<u8>)
        ensures
            out@ == wire_form(self.version, self.record@),
    {
        let mut out: Vec<u8> = Vec::new();
        out.push(self.version);
        out.extend_from_slice(self.record.zone.as_slice());
        push_le(&mut out, self.record.seq, 8);
        out.push(self.record.kind.discriminant());
        push_le(&mut out, self.record.payload.len() as u64, 8);
        out.extend_from_slice(self.record.payload.as_slice());
        push_le(&mut out, expiry_number(self.record.expires_at), 8);
        out.extend_from_slice(self.record.signer.as_slice());
        out.extend_from_slice(self.record.signature.as_slice());
        assert(out@ =~= wire_form(self.version, self.record@));
        out
    }

    /// Reads the wire form.
    pub fn from_wire(bytes: &[u8]) -> (out: Result<Self, ResolveError>)
        ensures
            match out {
                Ok(e) => e.version == 1 && parsed_wire(bytes@) == Ok::<RecordView, ResolveError>(
                    e.record@,
                ),
                Err(e) => parsed_wire(bytes@) == Err::<RecordView, ResolveError>(e),
            },
    {
        if bytes.len() < WIRE_FIXED {
            return Err(ResolveError::Malformed);
        }
        let version = bytes[0];
        if version != 1 {
            return Err(ResolveError::UnsupportedVersion(version));
        }
        let zone = array32(part(bytes, 1, 33));
        let seq = le_number(part(bytes, 33, 41));
        let kind = match bytes[41] {
            1 => RecordKind::Node,
            2 => RecordKind::Service,
            3 => RecordKind::Content,
            4 => RecordKind::Alias,
            5 => RecordKind::Delegation,
            6 => RecordKind::Revocation,
            k => return Err(ResolveError::UnknownKind(k)),
        };
        let claimed = le_number(part(bytes, 42, 50));
        if claimed > (bytes.len() - WIRE_FIXED) as u64 {
            return Err(ResolveError::Malformed);
        }
        let n: usize = claimed as usize;
        let payload = slice_to_vec(part(bytes, 50, 50 + n));
        let raw = le_number(part(bytes, 50 + n, 58 + n));
        let expires_at = if raw == u64::MAX {
            None
        } else {
            Some(raw)
        };
        let signer = array32(part(bytes, 58 + n, 90 + n));
        let signature = array64(part(bytes, 90 + n, 154 + n));
        let record = SignedRecord { zone, seq, kind, payload, expires_at, signature, signer };
        assert(record@ == wire_record(bytes@, n as int));
        Ok(Envelope { version, record })
    }

    /// The wire form in hexadecimal.
    pub fn to_hex(&self) -> (out: String)
        ensures
            out@ == hex_chars(wire_form(self.version, self.record@)),
    {
        hex_encode(self.to_wire().as_slice())
    }

    /// Reads the wire form in hexadecimal.
    pub fn from_hex(s: &str) -> (out: Result<Self, ResolveError>)
        ensures
            match out {
                Ok(e) => e.version == 1 && is_hex_text(s@) && parsed_wire(hex_bytes(s@)) == Ok::<
                    RecordView,
                    ResolveError,
                >(e.record@),
                Err(e) => if is_hex_text(s@) {
                    parsed_wire(hex_bytes(s@)) == Err::<RecordView, ResolveError>(e)
                } else {
                    e == ResolveError::Malformed
                },
            },
    {
        match hex_decode(s) {
            Ok(bytes) => Self::from_wire(bytes.as_slice()),
            Err(e) => Err(e),
        }
    }
}

/// Two lowercase digits for each byte.
pub fn hex_encode(bytes: &[u8]) -> (out: String)
    ensures
        out@ == hex_chars(bytes@),
{
    let mut out = String::new();
    let mut i: usize = 0;
    while i < bytes.len()
        invariant
            i <= bytes@.len(),
            out@ == hex_chars(bytes@.take(i as int)),
        decreases bytes@.len() - i,
    {
        let b = bytes[i];
        out.push(hex_digit_of(b / 16));
        out.push(hex_digit_of(b % 16));
        proof {
            let before = bytes@.take(i as int);
            let after = bytes@.take(i + 1);
            assert forall|j: int| 0 <= j < 2 * (i + 1) implies out@[j] == hex_chars(after)[j] by {
                if j < 2 * i {
                    assert(hex_chars(before)[j] == hex_chars(after)[j]);
                }
            }
            assert(out@ =~= hex_chars(after));
        }
        i = i + 1;
    }
    assert(bytes@.take(i as int) =~= bytes@);
    out
}

/// The bytes of an even number of hexadecimal digits of either case.
pub fn hex_decode(s: &str) -> (out: Result<Vec<u8>, ResolveError>)
    ensures
        match out {
            Ok(b) => is_hex_text(s@) && b@ == hex_bytes(s@),
            Err(e) => !is_hex_text(s@) && e == ResolveError::Malformed,
        },
{
    let chars = chars_of(s);
    if chars.len() % 2 != 0 {
        return Err(ResolveError::Malformed);
    }
    let mut out: Vec<u8> = Vec::new();
    let mut i: usize = 0;
    while i < chars.len()
        invariant
            i <= chars@.len(),
            i % 2 == 0,
            chars@.len() % 2 == 0,
            chars@ == s@,
            out@.len() == i / 2,
            forall|j: int| 0 <= j < i ==> is_hex_digit(#[trigger] chars@[j]),
            forall|j: int| 0 <= j < i / 2 ==> #[trigger] out@[j] == hex_bytes(s@)[j],
        decreases chars@.len() - i,
    {
        if !is_hex_char(chars[i]) || !is_hex_char(chars[i + 1]) {
            assert(!is_hex_digit(s@[i as int]) || !is_hex_digit(s@[i + 1]));
            return Err(ResolveError::Malformed);
        }
        let hi = hex_value_of(chars[i]);
        let lo = hex_value_of(chars[i + 1]);
        out.push(16 * hi + lo);
        assert(2 * (i as int / 2) == i);
        i = i + 2;
    }
    assert(out@ =~= hex_bytes(s@));
    Ok(out)
}

proof fn lemma_wire_parts(r: RecordView, rest: Seq<u8>)
    requires
        r.zone.len() == 32,
        r.signer.len() == 32,
        r.signature.len() == 64,
        r.payload.len() <= u64::MAX,
    ensures
        ({
            let b = wire_form(1, r) + rest;
            let n = r.payload.len() as int;
            &&& b.len() == 154 + n + rest.len()
            &&& b[0] == 1
            &&& b[41] == kind_tag(r.kind)
            &&& b.subrange(1, 33) == r.zone
            &&& b.subrange(33, 41) == le_bytes(r.seq as nat, 8)
            &&& b.subrange(42, 50) == le_bytes(r.payload.len(), 8)
            &&& b.subrange(50, 50 + n) == r.payload
            &&& b.subrange(50 + n, 58 + n) == le_bytes(raw_expiry(r.expires_at), 8)
            &&& b.subrange(58 + n, 90 + n) == r.signer
            &&& b.subrange(90 + n, 154 + n) == r.signature
        }),
{
    lemma_le_len(r.seq as nat, 8);
    lemma_le_len(r.payload.len(), 8);
    lemma_le_len(raw_expiry(r.expires_at), 8);
    let b = wire_form(1, r) + rest;
    let n = r.payload.len() as int;
    assert(b.subrange(1, 33) =~= r.zone);
    assert(b.subrange(33, 41) =~= le_bytes(r.seq as nat, 8));
    assert(b.subrange(42, 50) =~= le_bytes(r.payload.len(), 8));
    assert(b.subrange(50, 50 + n) =~= r.payload);
    assert(b.subrange(50 + n, 58 + n) =~= le_bytes(raw_expiry(r.expires_at), 8));
    assert(b.subrange(58 + n, 90 + n) =~= r.signer);
    assert(b.subrange(90 + n, 154 + n) =~= r.signature);
}

/// A record in the first version is read back from its wire form, whatever
/// follows it. The largest expiry is the one that stands for none.
pub proof fn law_wire_round_trip(r: RecordView, rest: Seq<u8>)
    requires
        r.zone.len() == 32,
        r.signer.len() == 32,
        r.signature.len() == 64,
        r.payload.len() <= u64::MAX,
        r.expires_at != Some(u64::MAX),
    ensures
        parsed_wire(wire_form(1, r) + rest) == Ok::<RecordView, ResolveError>(r),
{
    lemma_wire_parts(r, rest);
    lemma_pow256();
    lemma_le_round_trip(r.seq as nat, 8);
    lemma_le_round_trip(r.payload.len(), 8);
    lemma_le_round_trip(raw_expiry(r.expires_at), 8);
    assert(tagged_kind(kind_tag(r.kind)) == r.kind);
}

/// A record is read back from the hexadecimal form of its envelope.
pub proof fn law_hex_form_round_trip(r: RecordView)
    requires
        r.zone.len() == 32,
        r.signer.len() == 32,
        r.signature.len() == 64,
        r.payload.len() <= u64::MAX,
        r.expires_at != Some(u64::MAX),
    ensures
        is_hex_text(hex_chars(wire_form(1, r))),
        parsed_wire(hex_bytes(hex_chars(wire_form(1, r)))) == Ok::<RecordView, ResolveError>(r),
{
    law_hex_round_trip(wire_form(1, r));
    law_wire_round_trip(r, Seq::empty());
    assert(wire_form(1, r) + Seq::<u8>::empty() =~= wire_form(1, r));
}

/// A truncated wire form is malformed.
pub proof fn law_truncated_wire_is_refused(r: RecordView, k: int)
    requires
        r.zone.len() == 32,
        r.signer.len() == 32,
        r.signature.len() == 64,
        r.payload.len() <= u64::MAX,
        0 <= k < wire_form(1, r).len(),
    ensures
        parsed_wire(wire_form(1, r).take(k)) == Err::<RecordView, ResolveError>(
            ResolveError::Malformed,
        ),
{
    let b = wire_form(1, r);
    lemma_wire_parts(r, Seq::empty());
    assert(b + Seq::<u8>::empty() =~= b);
    lemma_pow256();
    lemma_le_round_trip(r.payload.len(), 8);
    if k >= WIRE_FIXED {
        assert(b.take(k).subrange(42, 50) =~= b.subrange(42, 50));
    }
}

/// The bytes of a zone record that are signed, and its wire form. The signed
/// bytes depend on neither the signature nor the signer.
pub proof fn law_zone_record_layout(r: RecordView, version: u8, other: RecordView)
    ensures
        ({
            let kind: u8 = match r.kind {
                RecordKind::Node => 1,
                RecordKind::Service => 2,
                RecordKind::Content => 3,
                RecordKind::Alias => 4,
                RecordKind::Delegation => 5,
                RecordKind::Revocation => 6,
            };
            let expiry: nat = match r.expires_at {
                Some(t) => t as nat,
                None => 0xffff_ffff_ffff_ffff,
            };
            &&& signed_form(r) == r.zone + le_bytes(r.seq as nat, 8) + seq![kind] + r.payload
                + le_bytes(expiry, 8)
            &&& wire_form(version, r) == seq![version] + r.zone + le_bytes(r.seq as nat, 8) + seq![
                kind,
            ] + le_bytes(r.payload.len(), 8) + r.payload + le_bytes(expiry, 8) + r.signer
                + r.signature
            &&& signed_form(
                RecordView { signature: other.signature, signer: other.signer, ..r },
            ) == signed_form(r)
        }),
{
}

/// A zone record has expired exactly after its expiry, and never without one.
pub proof fn law_when_zone_records_expire(r: RecordView, now: u64)
    ensures
        is_expired(r, now) <==> (r.expires_at matches Some(e) && now > e),
{
}

/// Wire bytes are accepted exactly where they are of the first version, of a
/// known kind, and hold as much as their payload length says.
pub proof fn law_when_wire_bytes_are_accepted(b: Seq<u8>)
    ensures
        parsed_wire(b) is Ok <==> {
            &&& b.len() >= 154
            &&& b[0] == 1
            &&& 1 <= b[41] <= 6
            &&& b.len() >= 154 + le_value(b.subrange(42, 50))
        },
        b.len() < 154 ==> parsed_wire(b) == Err::<RecordView, ResolveError>(
            ResolveError::Malformed,
        ),
        b.len() >= 154 && b[0] != 1 ==> parsed_wire(b) == Err::<RecordView, ResolveError>(
            ResolveError::UnsupportedVersion(b[0]),
        ),
        b.len() >= 154 && b[0] == 1 && !(1 <= b[41] <= 6) ==> parsed_wire(b) == Err::<
            RecordView,
            ResolveError,
        >(ResolveError::UnknownKind(b[41])),
{
}

/// What is read off wire bytes: each field from its place, and no expiry where
/// all bits of it are set.
pub proof fn law_wire_fields(b: Seq<u8>)
    requires
        parsed_wire(b) is Ok,
    ensures
        ({
            let r = parsed_wire(b)->Ok_0;
            let n = le_value(b.subrange(42, 50)) as int;
            let expiry = le_value(b.subrange(50 + n, 58 + n));
            &&& r.zone == b.subrange(1, 33)
            &&& r.seq == le_value(b.subrange(33, 41)) as u64
            &&& match r.kind {
                RecordKind::Node => b[41] == 1,
                RecordKind::Service => b[41] == 2,
                RecordKind::Content => b[41] == 3,
                RecordKind::Alias => b[41] == 4,
                RecordKind::Delegation => b[41] == 5,
                RecordKind::Revocation => b[41] == 6,
            }
            &&& r.payload == b.subrange(50, 50 + n)
            &&& r.expires_at == if expiry == 0xffff_ffff_ffff_ffff {
                None
            } else {
                Some(expiry as u64)
            }
            &&& r.signer == b.subrange(58 + n, 90 + n)
            &&& r.signature == b.subrange(90 + n, 154 + n)
        }),
{
}

/// Wire bytes that end before their payload and what follows it are
/// malformed.
pub proof fn law_short_payloads_are_malformed(b: Seq<u8>)
    requires
        b.len() >= 154,
        b[0] == 1,
        1 <= b[41] <= 6,
        b.len() < 154 + le_value(b.subrange(42, 50)),
    ensures
        parsed_wire(b) == Err::<RecordView, ResolveError>(ResolveError::Malformed),
{
}

} // verus!
