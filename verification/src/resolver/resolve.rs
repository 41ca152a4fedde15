//! Signed-record resolution: from records to nodes.
//!
//! An endpoint record binds a site key to an address, until it expires. The
//! record store holds records only after they were verified against the key
//! that a name is anchored to out of band, so a poisoned backend can deliver
//! garbage and achieve nothing. Sequence numbers only go up, and a
//! revocation kills all records up to one of them.

use crate::content::texts;
use crate::hex_text::{decode_hex, encode_hex, hex_bytes, hex_chars, hex_fault, is_hex_text};
use crate::keys::{
    array64, ed25519_key_fault, ed25519_signature, ed25519_strict_fault, Signature, SigningKey,
    VerifyingKey,
};
use crate::protocol::{is_valid_site, valid_site};
use crate::resolver::{LocalResolver, ResolveError, ResolveErrorView, Route, RouteView};
use crate::table::{strictly_sorted, TextMap};
use crate::text::{dec_chars, decimal};
use vstd::prelude::*;
use vstd::string::*;
use vstd::utf8::*;

verus! {

/// Transport family of an endpoint record.
#[derive(Debug, Clone, Copy, PartialEq, Eq, Structural)]
pub enum Transport {
    Tcp,
    Quic,
    /// Tor onion service.
    Tor,
    /// I2P destination.
    I2p,
}

/// The number of a transport family on the wire.
pub open spec fn transport_tag(t: Transport) -> u8 {
    match t {
        Transport::Tcp => 1,
        Transport::Quic => 2,
        Transport::Tor => 3,
        Transport::I2p => 4,
    }
}

impl Transport {
    /// The number on the wire.
    pub fn to_u8(self) -> (b: u8)
        ensures
            b == transport_tag(self),
    {
        match self {
            Transport::Tcp => 1,
            Transport::Quic => 2,
            Transport::Tor => 3,
            Transport::I2p => 4,
        }
    }

    /// The transport family with a number.
    pub fn from_u8(v: u8) -> (out: Option<Self>)
        ensures
            out is Some <==> 1 <= v <= 4,
            out matches Some(t) ==> transport_tag(t) == v,
    {
        match v {
            1 => Some(Transport::Tcp),
            2 => Some(Transport::Quic),
            3 => Some(Transport::Tor),
            4 => Some(Transport::I2p),
            _ => None,
        }
    }
}

/// Signed address record: binds a site key to a reachable endpoint.
#[derive(Debug, PartialEq, Eq)]
pub struct EndpointRecord {
    /// Site id that the record is bound to.
    pub site: String,
    pub transport: Transport,
    /// Host: an address, or an onion or I2P name.
    pub host: String,
    pub port: u16,
    /// Grows with each record; zero is never current.
    pub seq: u64,
    /// When the record expires.
    pub expires_at_unix: u64,
    /// Signature over the canonical bytes, in hexadecimal.
    pub signature_hex: String,
}

/// The mathematical value of an [`EndpointRecord`].
pub struct EndpointView {
    pub site: Seq<char>,
    pub transport: Transport,
    pub host: Seq<char>,
    pub port: u16,
    pub seq: u64,
    pub expires_at_unix: u64,
    pub signature_hex: Seq<char>,
}

impl View for EndpointRecord {
    type V = EndpointView;

    open spec fn view(&self) -> EndpointView {
        EndpointView {
            site: self.site@,
            transport: self.transport,
            host: self.host@,
            port: self.port,
            seq: self.seq,
            expires_at_unix: self.expires_at_unix,
            signature_hex: self.signature_hex@,
        }
    }
}

impl Clone for EndpointRecord {
    fn clone(&self) -> (out: Self)
        ensures
            out@ == self@,
    {
        EndpointRecord {
            site: self.site.clone(),
            transport: self.transport,
            host: self.host.clone(),
            port: self.port,
            seq: self.seq,
            expires_at_unix: self.expires_at_unix,
            signature_hex: self.signature_hex.clone(),
        }
    }
}

/// The bytes that are signed: the fields in their order, with a zero byte
/// between.
pub open spec fn endpoint_form(e: EndpointView) -> Seq<u8> {
    encode_utf8(e.site) + seq![0u8] + encode_utf8(dec_chars(transport_tag(e.transport) as nat))
        + seq![0u8] + encode_utf8(e.host) + seq![0u8] + encode_utf8(dec_chars(e.port as nat))
        + seq![0u8] + encode_utf8(dec_chars(e.seq as nat)) + seq![0u8] + encode_utf8(
        dec_chars(e.expires_at_unix as nat),
    )
}

/// Why a signed statement of a site is refused under a key at a time;
/// nothing where it holds: the site has to be that of the key, the statement
/// not expired, the signature 64 bytes in hexadecimal, and good.
pub open spec fn statement_fault(
    key: Seq<u8>,
    site: Seq<char>,
    expires: u64,
    form: Seq<u8>,
    signature_hex: Seq<char>,
    now: u64,
) -> Option<ResolveErrorView> {
    let sig = hex_bytes(signature_hex);
    if site != hex_chars(key) {
        Some(
            ResolveErrorView::BadSignature(
                "site mismatch: record claims "@ + site + ", key is "@ + hex_chars(key),
            ),
        )
    } else if expires <= now {
        Some(ResolveErrorView::Expired(expires, now))
    } else if !is_hex_text(signature_hex) {
        Some(ResolveErrorView::BadSignature(hex_fault(signature_hex)))
    } else if sig.len() != 64 {
        Some(ResolveErrorView::BadSignature("expected 64 bytes, got "@ + dec_chars(sig.len())))
    } else {
        match ed25519_strict_fault(key, form, sig) {
            None => None,
            Some(e) => Some(ResolveErrorView::BadSignature(e)),
        }
    }
}

/// Why an endpoint record is refused under a key at a time.
pub open spec fn endpoint_fault(key: Seq<u8>, e: EndpointView, now: u64) -> Option<
    ResolveErrorView,
> {
    statement_fault(key, e.site, e.expires_at_unix, endpoint_form(e), e.signature_hex, now)
}

/// A record with the signature of a seed over its other fields.
pub open spec fn signed_endpoint(seed: Seq<u8>, bare: EndpointView) -> EndpointView {
    EndpointView {
        signature_hex: hex_chars(ed25519_signature(seed, endpoint_form(bare))),
        ..bare
    }
}

/// The address of an endpoint record.
pub open spec fn endpoint_text(e: EndpointView) -> Seq<char> {
    e.host.push(':') + dec_chars(e.port as nat)
}

/// Checks a signed statement of a site.
fn check_statement(
    key: &VerifyingKey,
    site: &String,
    expires: u64,
    form: &[u8],
    signature_hex: &String,
    now: u64,
) -> (out: Result<(), ResolveError>)
    ensures
        match out {
            Ok(_) => statement_fault(key@, site@, expires, form@, signature_hex@, now) is None,
            Err(e) => statement_fault(key@, site@, expires, form@, signature_hex@, now) == Some(e@),
        },
{
    let own = encode_hex(key.to_bytes().as_slice());
    if *site != own {
        return Err(
            ResolveError::BadSignature(
                "site mismatch: record claims ".to_owned().concat(site.as_str()).concat(
                    ", key is ",
                ).concat(own.as_str()),
            ),
        );
    }
    if expires <= now {
        return Err(ResolveError::Expired(expires, now));
    }
    let bytes = match decode_hex(signature_hex.as_str()) {
        Ok(b) => b,
        Err(e) => return Err(ResolveError::BadSignature(e)),
    };
    if bytes.len() != 64 {
        return Err(
            ResolveError::BadSignature(
                "expected 64 bytes, got ".to_owned().concat(decimal(bytes.len() as u64).as_str()),
            ),
        );
    }
    match key.verify_strict(form, &Signature::from_bytes(&array64(bytes.as_slice()))) {
        Ok(_) => Ok(()),
        Err(e) => Err(ResolveError::BadSignature(e)),
    }
}

impl EndpointRecord {
    /// The bytes that are signed.
    pub fn canonical_bytes(&self) -> (out: Vec<u8>)
        ensures
            out@ == endpoint_form(self@),
    {
        let mut out: Vec<u8> = Vec::new();
        out.extend_from_slice(self.site.as_str().as_bytes());
        out.push(0);
        out.extend_from_slice(decimal(self.transport.to_u8() as u64).as_str().as_bytes());
        out.push(0);
        out.extend_from_slice(self.host.as_str().as_bytes());
        out.push(0);
        out.extend_from_slice(decimal(self.port as u64).as_str().as_bytes());
        out.push(0);
        out.extend_from_slice(decimal(self.seq).as_str().as_bytes());
        out.push(0);
        out.extend_from_slice(decimal(self.expires_at_unix).as_str().as_bytes());
        assert(out@ =~= endpoint_form(self@));
        out
    }

    /// A record signed with a site key.
    pub fn sign(
        signing: &SigningKey,
        site: &str,
        transport: Transport,
        host: &str,
        port: u16,
        seq: u64,
        expires_at_unix: u64,
    ) -> (r: Self)
        ensures
            r@ == signed_endpoint(
                signing@,
                EndpointView {
                    site: site@,
                    transport,
                    host: host@,
                    port,
                    seq,
                    expires_at_unix,
                    signature_hex: Seq::empty(),
                },
            ),
    {
        let mut record = EndpointRecord {
            site: site.to_owned(),
            transport,
            host: host.to_owned(),
            port,
            seq,
            expires_at_unix,
            signature_hex: String::new(),
        };
        let bytes = record.canonical_bytes();
        let sig = signing.sign(bytes.as_slice()).to_bytes();
        record.signature_hex = encode_hex(sig.as_slice());
        record
    }

    /// Checks the record against a key and a time.
    pub fn verify(&self, verify: &VerifyingKey, now_unix: u64) -> (out: Result<(), ResolveError>)
        ensures
            match out {
                Ok(_) => endpoint_fault(verify@, self@, now_unix) is None,
                Err(e) => endpoint_fault(verify@, self@, now_unix) == Some(e@),
            },
    {
        check_statement(
            verify,
            &self.site,
            self.expires_at_unix,
            self.canonical_bytes().as_slice(),
            &self.signature_hex,
            now_unix,
        )
    }

    /// The address, as host and port.
    pub fn endpoint(&self) -> (out: String)
        ensures
            out@ == endpoint_text(self@),
    {
        let mut out = self.host.clone();
        out.push(':');
        out.append(decimal(self.port as u64).as_str());
        out
    }
}

/// Tag of the signed form of a revocation.
pub const REVOCATION_TAG: &'static str = "nexus/v1/revocation";

/// Signed revocation: all records of the site up to a sequence number are
/// dead.
#[derive(Debug, Clone, PartialEq, Eq)]
pub struct Revocation {
    pub site: String,
    pub max_seq: u64,
    pub expires_at_unix: u64,
    pub signature_hex: String,
}

/// The mathematical value of a [`Revocation`].
pub struct RevocationView {
    pub site: Seq<char>,
    pub max_seq: u64,
    pub expires_at_unix: u64,
    pub signature_hex: Seq<char>,
}

impl View for Revocation {
    type V = RevocationView;

    open spec fn view(&self) -> RevocationView {
        RevocationView {
            site: self.site@,
            max_seq: self.max_seq,
            expires_at_unix: self.expires_at_unix,
            signature_hex: self.signature_hex@,
        }
    }
}

/// The bytes of a revocation that are signed.
pub open spec fn revocation_form(r: RevocationView) -> Seq<u8> {
    encode_utf8(REVOCATION_TAG@) + seq![0u8] + encode_utf8(r.site) + seq![0u8] + encode_utf8(
        dec_chars(r.max_seq as nat),
    ) + seq![0u8] + encode_utf8(dec_chars(r.expires_at_unix as nat))
}

/// Why a revocation is refused under a key at a time.
pub open spec fn revocation_fault(key: Seq<u8>, r: RevocationView, now: u64) -> Option<
    ResolveErrorView,
> {
    statement_fault(key, r.site, r.expires_at_unix, revocation_form(r), r.signature_hex, now)
}

impl Revocation {
    /// The bytes that are signed.
    pub fn canonical_bytes(&self) -> (out: Vec<u8>)
        ensures
            out@ == revocation_form(self@),
    {
        let mut out: Vec<u8> = Vec::new();
        out.extend_from_slice(REVOCATION_TAG.as_bytes());
        out.push(0);
        out.extend_from_slice(self.site.as_str().as_bytes());
        out.push(0);
        out.extend_from_slice(decimal(self.max_seq).as_str().as_bytes());
        out.push(0);
        out.extend_from_slice(decimal(self.expires_at_unix).as_str().as_bytes());
        assert(out@ =~= revocation_form(self@));
        out
    }

    /// A revocation signed with a site key.
    pub fn sign(signing: &SigningKey, site: &str, max_seq: u64, expires_at_unix: u64) -> (r: Self)
        ensures
            r@ == ({
                let bare = RevocationView {
                    site: site@,
                    max_seq,
                    expires_at_unix,
                    signature_hex: Seq::empty(),
                };
                RevocationView {
                    signature_hex: hex_chars(ed25519_signature(signing@, revocation_form(bare))),
                    ..bare
                }
            }),
    {
        let mut r = Revocation {
            site: site.to_owned(),
            max_seq,
            expires_at_unix,
            signature_hex: String::new(),
        };
        let bytes = r.canonical_bytes();
        let sig = signing.sign(bytes.as_slice()).to_bytes();
        r.signature_hex = encode_hex(sig.as_slice());
        r
    }

    /// Checks the revocation against a key and a time.
    pub fn verify(&self, verify: &VerifyingKey, now_unix: u64) -> (out: Result<(), ResolveError>)
        ensures
            match out {
                Ok(_) => revocation_fault(verify@, self@, now_unix) is None,
                Err(e) => revocation_fault(verify@, self@, now_unix) == Some(e@),
            },
    {
        check_statement(
            verify,
            &self.site,
            self.expires_at_unix,
            self.canonical_bytes().as_slice(),
            &self.signature_hex,
            now_unix,
        )
    }
}

/// The mathematical value of a record store.
pub struct StoreView {
    /// The verified records of each name, oldest first.
    pub records: Map<Seq<char>, Seq<EndpointView>>,
    /// The key that each name is anchored to.
    pub anchors: Map<Seq<char>, Seq<u8>>,
    /// The newest sequence number that each name admitted.
    pub high_water: Map<Seq<char>, u64>,
    /// The newest sequence number that each name revoked.
    pub tombstones: Map<Seq<char>, u64>,
}

/// The number of a name, zero without one.
pub open spec fn number_of(m: Map<Seq<char>, u64>, name: Seq<char>) -> u64 {
    if m.dom().contains(name) {
        m[name]
    } else {
        0
    }
}

/// The records of a name, none without the name.
pub open spec fn records_of(v: StoreView, name: Seq<char>) -> Seq<EndpointView> {
    if v.records.dom().contains(name) {
        v.records[name]
    } else {
        Seq::empty()
    }
}

/// The records that are not of a site, in their order.
pub open spec fn of_others(records: Seq<EndpointView>, site: Seq<char>) -> Seq<EndpointView>
    decreases records.len(),
{
    if records.len() == 0 {
        Seq::empty()
    } else if records.last().site != site {
        of_others(records.drop_last(), site).push(records.last())
    } else {
        of_others(records.drop_last(), site)
    }
}

/// A record may be admitted under a name at a time: the name is anchored,
/// the record holds under its key, and its sequence number is newer than any
/// that was admitted or revoked.
pub open spec fn admissible(v: StoreView, name: Seq<char>, e: EndpointView, now: u64) -> bool {
    &&& v.anchors.dom().contains(name)
    &&& endpoint_fault(v.anchors[name], e, now) is None
    &&& e.seq > number_of(v.high_water, name)
    &&& e.seq > number_of(v.tombstones, name)
}

/// The store after a record was admitted: it replaces those of its site.
pub open spec fn with_record(v: StoreView, name: Seq<char>, e: EndpointView) -> StoreView {
    StoreView {
        records: v.records.insert(name, of_others(records_of(v, name), e.site).push(e)),
        high_water: v.high_water.insert(name, e.seq),
        ..v
    }
}

/// A revocation may be taken in under a name at a time.
pub open spec fn revocable(v: StoreView, name: Seq<char>, r: RevocationView, now: u64) -> bool {
    &&& v.anchors.dom().contains(name)
    &&& revocation_fault(v.anchors[name], r, now) is None
}

/// The store after a revocation.
pub open spec fn with_revocation(v: StoreView, name: Seq<char>, r: RevocationView) -> StoreView {
    StoreView {
        tombstones: v.tombstones.insert(
            name,
            if r.max_seq > number_of(v.tombstones, name) {
                r.max_seq
            } else {
                number_of(v.tombstones, name)
            },
        ),
        ..v
    }
}

/// A record that can serve at a time: not expired, not revoked.
pub open spec fn serves(v: StoreView, name: Seq<char>, e: EndpointView, now: u64) -> bool {
    e.expires_at_unix > now && e.seq > number_of(v.tombstones, name)
}

/// Of the records that can serve, the one that expires last; of several such
/// the newest.
pub open spec fn best(
    v: StoreView,
    name: Seq<char>,
    records: Seq<EndpointView>,
    now: u64,
) -> Option<EndpointView>
    decreases records.len(),
{
    if records.len() == 0 {
        None
    } else {
        let last = records.last();
        match best(v, name, records.drop_last(), now) {
            Some(b) => if serves(v, name, last, now) && last.expires_at_unix >= b.expires_at_unix {
                Some(last)
            } else {
                Some(b)
            },
            None => if serves(v, name, last, now) {
                Some(last)
            } else {
                None
            },
        }
    }
}

/// The route of a name at a time.
pub open spec fn stored_route(v: StoreView, name: Seq<char>, now: u64) -> Option<RouteView> {
    match best(v, name, records_of(v, name), now) {
        Some(e) => Some(
            RouteView { endpoints: seq![endpoint_text(e)], pinned_site_id: Some(e.site) },
        ),
        None => None,
    }
}

/// The values of records.
pub open spec fn records_view(s: Seq<EndpointRecord>) -> Seq<EndpointView> {
    Seq::new(s.len(), |i: int| s[i]@)
}

/// Verified, local-first store of endpoint records by name.
#[derive(Debug)]
pub struct RecordStore {
    records: TextMap<Vec<EndpointRecord>>,
    anchors: TextMap<VerifyingKey>,
    high_water: TextMap<u64>,
    tombstones: TextMap<u64>,
}

impl View for RecordStore {
    type V = StoreView;

    closed spec fn view(&self) -> StoreView {
        StoreView {
            records: self.records@.map_values(|r: Vec<EndpointRecord>| records_view(r@)),
            anchors: self.anchors@.map_values(|k: VerifyingKey| k@),
            high_water: self.high_water@,
            tombstones: self.tombstones@,
        }
    }
}

/// A store that holds nothing.
pub open spec fn empty_store() -> StoreView {
    StoreView {
        records: Map::empty(),
        anchors: Map::empty(),
        high_water: Map::empty(),
        tombstones: Map::empty(),
    }
}

impl Default for RecordStore {
    fn default() -> (s: Self)
        ensures
            s@ == empty_store(),
    {
        Self::new()
    }
}

impl RecordStore {
    /// An empty store.
    pub fn new() -> (s: Self)
        ensures
            s@ == empty_store(),
    {
        let s = RecordStore {
            records: TextMap::new(),
            anchors: TextMap::new(),
            high_water: TextMap::new(),
            tombstones: TextMap::new(),
        };
        assert(s@.records =~= Map::empty());
        assert(s@.anchors =~= Map::empty());
        s
    }

    /// Anchors a name to a key, out of band.
    pub fn trust(&mut self, name: &str, verify: VerifyingKey)
        ensures
            final(self)@ == (StoreView {
                anchors: old(self)@.anchors.insert(name@, verify@),
                ..old(self)@
            }),
    {
        self.anchors.insert(name.to_owned(), verify);
        assert(self@.anchors =~= old(self)@.anchors.insert(name@, verify@));
    }

    /// Anchors a name to a key given as bytes.
    pub fn trust_bytes(&mut self, name: &str, public: &[u8; 32]) -> (out: Result<(), ResolveError>)
        ensures
            match out {
                Ok(_) => ed25519_key_fault(public@) is None && final(self)@ == (StoreView {
                    anchors: old(self)@.anchors.insert(name@, public@),
                    ..old(self)@
                }),
                Err(e) => final(self)@ == old(self)@ && (ed25519_key_fault(public@) matches Some(f)
                    && e@ == ResolveErrorView::BadSignature(f)),
            },
    {
        match VerifyingKey::from_bytes(public) {
            Ok(key) => {
                self.trust(name, key);
                Ok(())
            },
            Err(e) => Err(ResolveError::BadSignature(e)),
        }
    }

    /// Whether a name is anchored.
    pub fn is_trusted(&self, name: &str) -> (found: bool)
        ensures
            found == self@.anchors.dom().contains(name@),
    {
        self.anchors.contains_key(name)
    }

    /// The number of a name, zero without one.
    fn number(map: &TextMap<u64>, name: &str) -> (n: u64)
        ensures
            n == number_of(map@, name@),
    {
        match map.get(name) {
            Some(n) => *n,
            None => 0,
        }
    }

    /// Verifies a record against the anchor of the name and takes it in.
    /// Whatever is refused changes nothing.
    pub fn admit_record(&mut self, name: &str, record: EndpointRecord, now: u64) -> (done: bool)
        ensures
            done == admissible(old(self)@, name@, record@, now),
            final(self)@ == if done {
                with_record(old(self)@, name@, record@)
            } else {
                old(self)@
            },
    {
        let key = match self.anchors.get(name) {
            Some(key) => key,
            None => return false,
        };
        if record.verify(key, now).is_err() {
            return false;
        }
        if record.seq <= Self::number(&self.high_water, name) || record.seq <= Self::number(
            &self.tombstones,
            name,
        ) {
            return false;
        }
        let ghost rv = record@;
        let before = match self.records.remove(name) {
            Some(list) => list,
            None => Vec::new(),
        };
        assert(records_view(before@) =~= records_of(old(self)@, name@));
        let mut list = without_site(&before, record.site.as_str());
        let ghost others = records_view(list@);
        let seq = record.seq;
        list.push(record);
        assert(records_view(list@) =~= others.push(rv));
        self.records.insert(name.to_owned(), list);
        self.high_water.insert(name.to_owned(), seq);
        assert(self@.records =~= old(self)@.records.insert(name@, others.push(rv)));
        true
    }

    /// Verifies a revocation against the anchor of the name and takes it in.
    pub fn revoke(&mut self, name: &str, revocation: Revocation, now: u64) -> (done: bool)
        ensures
            done == revocable(old(self)@, name@, revocation@, now),
            final(self)@ == if done {
                with_revocation(old(self)@, name@, revocation@)
            } else {
                old(self)@
            },
    {
        let key = match self.anchors.get(name) {
            Some(key) => key,
            None => return false,
        };
        if revocation.verify(key, now).is_err() {
            return false;
        }
        let known = Self::number(&self.tombstones, name);
        let up_to: u64 = if revocation.max_seq > known {
            revocation.max_seq
        } else {
            known
        };
        self.tombstones.insert(name.to_owned(), up_to);
        true
    }

    /// The route of a name at a time.
    pub fn route(&self, name: &str, now: u64) -> (out: Option<Route>)
        ensures
            match out {
                Some(r) => stored_route(self@, name@, now) == Some(r@),
                None => stored_route(self@, name@, now) is None,
            },
    {
        let list = match self.records.get(name) {
            Some(list) => list,
            None => return None,
        };
        let dead = Self::number(&self.tombstones, name);
        let ghost all = records_view(list@);
        let ghost v = self@;
        let mut found: Option<usize> = None;
        let mut i: usize = 0;
        assert(all.take(0) =~= Seq::empty());
        while i < list.len()
            invariant
                i <= list@.len(),
                all == records_view(list@),
                dead == number_of(v.tombstones, name@),
                match found {
                    Some(b) => b < i && best(v, name@, all.take(i as int), now) == Some(
                        all[b as int],
                    ),
                    None => best(v, name@, all.take(i as int), now) is None,
                },
            decreases list@.len() - i,
        {
            proof {
                assert(all.take(i + 1).drop_last() =~= all.take(i as int));
                assert(all.take(i + 1).last() == list@[i as int]@);
            }
            let r = &list[i];
            if r.expires_at_unix > now && r.seq > dead {
                match found {
                    Some(b) => {
                        if r.expires_at_unix >= list[b].expires_at_unix {
                            found = Some(i);
                        }
                    },
                    None => {
                        found = Some(i);
                    },
                }
            }
            i = i + 1;
        }
        assert(all.take(i as int) =~= all);
        assert(all =~= records_of(v, name@));
        match found {
            Some(b) => {
                let mut endpoints: Vec<String> = Vec::new();
                endpoints.push(list[b].endpoint());
                let route = Route { endpoints, pinned_site_id: Some(list[b].site.clone()) };
                assert(route@.endpoints =~= seq![endpoint_text(all[b as int])]);
                Some(route)
            },
            None => None,
        }
    }

    /// The anchored names, in their order.
    pub fn known_names(&self) -> (out: Vec<String>)
        ensures
            strictly_sorted(texts(out@)),
            forall|n: Seq<char>| #[trigger]
                texts(out@).contains(n) <==> self@.anchors.dom().contains(n),
    {
        let out = self.anchors.keys();
        proof {
            assert(texts(out@) =~= self.anchors.key_order());
            assert forall|n: Seq<char>| #[trigger]
                texts(out@).contains(n) <==> self@.anchors.dom().contains(n) by {
                assert(self@.anchors.dom().contains(n) <==> self.anchors@.dom().contains(n));
            }
        }
        out
    }
}

/// The records that are not of a site, in their order.
fn without_site(list: &Vec<EndpointRecord>, site: &str) -> (out: Vec<EndpointRecord>)
    ensures
        records_view(out@) == of_others(records_view(list@), site@),
{
    let ghost all = records_view(list@);
    let mut out: Vec<EndpointRecord> = Vec::new();
    let mut i: usize = 0;
    assert(all.take(0) =~= Seq::empty());
    assert(records_view(out@) =~= Seq::empty());
    while i < list.len()
        invariant
            i <= list@.len(),
            all == records_view(list@),
            records_view(out@) == of_others(all.take(i as int), site@),
        decreases list@.len() - i,
    {
        proof {
            assert(all.take(i + 1).drop_last() =~= all.take(i as int));
            assert(all.take(i + 1).last() == list@[i as int]@);
        }
        if !crate::text::same_text(list[i].site.as_str(), site) {
            let ghost before = records_view(out@);
            let copy = list[i].clone();
            out.push(copy);
            assert(records_view(out@) =~= before.push(copy@));
        }
        i = i + 1;
    }
    assert(all.take(i as int) =~= all);
    out
}

/// What a backend offers for a name: the path of its envelope, and what the
/// envelope holds.
#[derive(Debug)]
pub struct Offer {
    pub path: String,
    pub payload: Payload,
}

/// What an envelope holds.
#[derive(Debug)]
pub enum Payload {
    Endpoint(EndpointRecord),
    Revocation(Revocation),
    /// Something that is neither.
    Other,
}

/// The mathematical value of a [`Payload`].
pub enum PayloadView {
    Endpoint(EndpointView),
    Revocation(RevocationView),
    Other,
}

/// The mathematical value of an [`Offer`].
pub struct OfferView {
    pub path: Seq<char>,
    pub payload: PayloadView,
}

impl View for Offer {
    type V = OfferView;

    open spec fn view(&self) -> OfferView {
        OfferView {
            path: self.path@,
            payload: match self.payload {
                Payload::Endpoint(e) => PayloadView::Endpoint(e@),
                Payload::Revocation(r) => PayloadView::Revocation(r@),
                Payload::Other => PayloadView::Other,
            },
        }
    }
}

/// The values of offers.
pub open spec fn offers_view(s: Seq<Offer>) -> Seq<OfferView> {
    Seq::new(s.len(), |i: int| s[i]@)
}

/// How long a name that no backend knows is remembered as such, in
/// milliseconds.
pub const DEFAULT_NEGATIVE_TTL: u64 = 300_000;

/// The mathematical value of a [`CachingResolver`].
pub struct ResolverView {
    /// The warm petname table.
    pub table: Map<Seq<char>, RouteView>,
    pub store: StoreView,
    /// The names that no backend knows, and until when on the clock that is
    /// remembered.
    pub negative: Map<Seq<char>, u64>,
    pub negative_ttl: u64,
}

/// The answer that needs no backend: the name is invalid, the table knows
/// it, or it is remembered as unknown. Nothing where backends are to be
/// asked. `clock` is in milliseconds.
pub open spec fn answered_at_once(v: ResolverView, name: Seq<char>, clock: u64) -> Option<
    Result<RouteView, ResolveErrorView>,
> {
    if !valid_site(name) {
        Some(Err(ResolveErrorView::InvalidName(name)))
    } else if v.table.dom().contains(name) {
        Some(Ok(v.table[name]))
    } else if number_of(v.negative, name) > clock {
        Some(Err(ResolveErrorView::UnknownSite(name)))
    } else {
        None
    }
}

/// The resolver after an offer, and the route that the offer opened.
pub open spec fn taken(v: ResolverView, name: Seq<char>, o: OfferView, now: u64) -> (
    ResolverView,
    Option<RouteView>,
) {
    if o.path != seq!['@'] + name {
        (v, None)
    } else {
        match o.payload {
            PayloadView::Endpoint(e) => if admissible(v.store, name, e, now) {
                let store = with_record(v.store, name, e);
                match stored_route(store, name, now) {
                    Some(route) => (
                        ResolverView {
                            table: v.table.insert(name, route),
                            store,
                            negative: v.negative.remove(name),
                            ..v
                        },
                        Some(route),
                    ),
                    None => (
                        ResolverView { store, negative: v.negative.remove(name), ..v },
                        None,
                    ),
                }
            } else {
                (v, None)
            },
            PayloadView::Revocation(r) => if revocable(v.store, name, r, now) {
                (ResolverView { store: with_revocation(v.store, name, r), ..v }, None)
            } else {
                (v, None)
            },
            PayloadView::Other => (v, None),
        }
    }
}

/// The resolver after offers in turn, up to the first that opened a route.
pub open spec fn all_taken(v: ResolverView, name: Seq<char>, offers: Seq<OfferView>, now: u64) -> (
    ResolverView,
    Option<RouteView>,
)
    decreases offers.len(),
{
    if offers.len() == 0 {
        (v, None)
    } else {
        let (w, route) = taken(v, name, offers[0], now);
        match route {
            Some(r) => (w, Some(r)),
            None => all_taken(w, name, offers.skip(1), now),
        }
    }
}

/// The end of a term that starts now.
pub open spec fn term_end(now: u64, ttl: u64) -> u64 {
    if now + ttl > u64::MAX {
        u64::MAX
    } else {
        (now + ttl) as u64
    }
}

/// The answer when no offer opened a route: what the store holds already,
/// else the name is unknown, and remembered so where the backends were all
/// there to say it.
pub open spec fn settled(
    v: ResolverView,
    name: Seq<char>,
    authoritative: bool,
    now: u64,
    clock: u64,
) -> (ResolverView, Result<RouteView, ResolveErrorView>) {
    match stored_route(v.store, name, now) {
        Some(r) => (v, Ok(r)),
        None => (
            if authoritative {
                ResolverView {
                    negative: v.negative.insert(name, term_end(clock, v.negative_ttl)),
                    ..v
                }
            } else {
                v
            },
            Err(ResolveErrorView::UnknownSite(name)),
        ),
    }
}

/// The resolver after a resolution, and its answer. `offers` is what the
/// backends offered, in their order; `authoritative` says that each of them
/// answered. Records are judged by the time `now`, in seconds; how long a name
/// is remembered as unknown goes by `clock`, in milliseconds.
pub open spec fn resolved(
    v: ResolverView,
    name: Seq<char>,
    offers: Seq<OfferView>,
    authoritative: bool,
    now: u64,
    clock: u64,
) -> (ResolverView, Result<RouteView, ResolveErrorView>) {
    match answered_at_once(v, name, clock) {
        Some(answer) => (v, answer),
        None => {
            let (w, route) = all_taken(v, name, offers, now);
            match route {
                Some(r) => (w, Ok(r)),
                None => settled(w, name, authoritative, now, clock),
            }
        },
    }
}

/// Chains the warm petname table, the verified store, and what backends
/// offer.
#[derive(Debug)]
pub struct CachingResolver {
    table: LocalResolver,
    store: RecordStore,
    negative: TextMap<u64>,
    negative_ttl: u64,
}

impl View for CachingResolver {
    type V = ResolverView;

    closed spec fn view(&self) -> ResolverView {
        ResolverView {
            table: self.table@,
            store: self.store@,
            negative: self.negative@,
            negative_ttl: self.negative_ttl,
        }
    }
}

impl CachingResolver {
    /// A resolver over a table and a store.
    pub fn new(table: LocalResolver, store: RecordStore) -> (r: Self)
        ensures
            r@ == (ResolverView {
                table: table@,
                store: store@,
                negative: Map::empty(),
                negative_ttl: DEFAULT_NEGATIVE_TTL,
            }),
    {
        CachingResolver {
            table,
            store,
            negative: TextMap::new(),
            negative_ttl: DEFAULT_NEGATIVE_TTL,
        }
    }

    /// The resolver with another term for unknown names, in milliseconds.
    pub fn with_negative_ttl(self, ttl: u64) -> (r: Self)
        ensures
            r@ == (ResolverView { negative_ttl: ttl, ..self@ }),
    {
        CachingResolver { negative_ttl: ttl, ..self }
    }

    /// Anchors a name to a key, out of band.
    pub fn trust(&mut self, name: &str, verify: VerifyingKey)
        ensures
            final(self)@ == (ResolverView {
                store: StoreView {
                    anchors: old(self)@.store.anchors.insert(name@, verify@),
                    ..old(self)@.store
                },
                ..old(self)@
            }),
    {
        self.store.trust(name, verify);
    }

    /// Takes in a record without a backend. An admitted one ends the memory
    /// of the name as unknown.
    pub fn admit_record(&mut self, name: &str, record: EndpointRecord, now: u64) -> (done: bool)
        ensures
            done == admissible(old(self)@.store, name@, record@, now),
            final(self)@ == if done {
                ResolverView {
                    store: with_record(old(self)@.store, name@, record@),
                    negative: old(self)@.negative.remove(name@),
                    ..old(self)@
                }
            } else {
                old(self)@
            },
    {
        let done = self.store.admit_record(name, record, now);
        if done {
            self.negative.remove(name);
        }
        done
    }

    /// The number of a name, zero without one.
    fn known_unknown(&self, name: &str) -> (until: u64)
        ensures
            until == number_of(self@.negative, name@),
    {
        match self.negative.get(name) {
            Some(until) => *until,
            None => 0,
        }
    }

    /// The answer that needs no backend.
    pub fn answer_at_once(&self, name: &str, clock: u64) -> (out: Option<
        Result<Route, ResolveError>,
    >)
        ensures
            match out {
                Some(Ok(r)) => answered_at_once(self@, name@, clock) == Some(
                    Ok::<RouteView, ResolveErrorView>(r@),
                ),
                Some(Err(e)) => answered_at_once(self@, name@, clock) == Some(
                    Err::<RouteView, ResolveErrorView>(e@),
                ),
                None => answered_at_once(self@, name@, clock) is None,
            },
    {
        if !is_valid_site(name) {
            return Some(Err(ResolveError::InvalidName(name.to_owned())));
        }
        if let Some(route) = self.table.get(name) {
            return Some(Ok(route.clone()));
        }
        if self.known_unknown(name) > clock {
            return Some(Err(ResolveError::UnknownSite(name.to_owned())));
        }
        None
    }

    /// Takes an offer; gives the route that it opened.
    pub fn take_offer(&mut self, name: &str, offer: Offer, now: u64) -> (out: Option<Route>)
        requires
            valid_site(name@),
        ensures
            taken(old(self)@, name@, offer@, now).0 == final(self)@,
            match out {
                Some(r) => taken(old(self)@, name@, offer@, now).1 == Some(r@),
                None => taken(old(self)@, name@, offer@, now).1 is None,
            },
    {
        let mut expected = String::new();
        expected.push('@');
        expected.append(name);
        assert(expected@ =~= seq!['@'] + name@);
        if offer.path != expected {
            return None;
        }
        match offer.payload {
            Payload::Endpoint(record) => {
                if self.store.admit_record(name, record, now) {
                    self.negative.remove(name);
                    if let Some(route) = self.store.route(name, now) {
                        let copy = route.clone();
                        let _ = self.table.insert(name, copy);
                        return Some(route);
                    }
                }
                None
            },
            Payload::Revocation(revocation) => {
                let _ = self.store.revoke(name, revocation, now);
                None
            },
            Payload::Other => None,
        }
    }

    /// The answer when no offer opened a route.
    pub fn settle(&mut self, name: &str, authoritative: bool, now: u64, clock: u64) -> (out: Result<
        Route,
        ResolveError,
    >)
        ensures
            settled(old(self)@, name@, authoritative, now, clock) == (
                final(self)@,
                crate::resolver::route_outcome(out),
            ),
    {
        match self.store.route(name, now) {
            Some(route) => Ok(route),
            None => {
                if authoritative {
                    let until: u64 = if clock > u64::MAX - self.negative_ttl {
                        u64::MAX
                    } else {
                        clock + self.negative_ttl
                    };
                    self.negative.insert(name.to_owned(), until);
                }
                Err(ResolveError::UnknownSite(name.to_owned()))
            },
        }
    }

    /// Resolves a name with what the backends offered.
    pub fn resolve(
        &mut self,
        name: &str,
        offers: Vec<Offer>,
        authoritative: bool,
        now: u64,
        clock: u64,
    ) -> (out: Result<Route, ResolveError>)
        ensures
            resolved(old(self)@, name@, offers_view(offers@), authoritative, now, clock) == (
                final(self)@,
                crate::resolver::route_outcome(out),
            ),
    {
        if let Some(answer) = self.answer_at_once(name, clock) {
            return answer;
        }
        let ghost all = offers_view(offers@);
        let ghost start = self@;
        let mut left: Vec<Offer> = offers;
        let ghost mut done: int = 0;
        assert(all.skip(0) =~= all);
        while left.len() > 0
            invariant
                0 <= done <= all.len(),
                valid_site(name@),
                start == old(self)@,
                offers_view(left@) == all.skip(done),
                all_taken(start, name@, all, now) == all_taken(self@, name@, all.skip(done), now),
                answered_at_once(start, name@, clock) is None,
                all == offers_view(offers@),
            decreases left@.len(),
        {
            proof {
                assert(offers_view(left@)[0] == left@[0]@);
                assert(all.skip(done).skip(1) =~= all.skip(done + 1));
            }
            let offer = left.remove(0);
            proof {
                assert(offers_view(left@) =~= all.skip(done).skip(1));
                done = done + 1;
            }
            if let Some(route) = self.take_offer(name, offer, now) {
                return Ok(route);
            }
        }
        assert(offers_view(left@).len() == 0);
        self.settle(name, authoritative, now, clock)
    }

    /// All names that the table knows or that are anchored, in their order.
    pub fn list_names(&self) -> (out: Vec<String>)
        ensures
            strictly_sorted(texts(out@)),
            forall|n: Seq<char>| #[trigger]
                texts(out@).contains(n) <==> (self@.table.dom().contains(n)
                    || self@.store.anchors.dom().contains(n)),
    {
        let mut names: TextMap<()> = TextMap::new();
        let from_table = self.table.names();
        let from_store = self.store.known_names();
        let mut i: usize = 0;
        while i < from_table.len()
            invariant
                i <= from_table@.len(),
                forall|n: Seq<char>| #[trigger]
                    names@.dom().contains(n) <==> texts(from_table@).take(i as int).contains(n),
            decreases from_table@.len() - i,
        {
            names.insert(from_table[i].clone(), ());
            proof {
                lemma_take_contains(texts(from_table@), i as int);
            }
            i = i + 1;
        }
        let ghost mid = names@.dom();
        assert(texts(from_table@).take(i as int) =~= texts(from_table@));
        let mut j: usize = 0;
        while j < from_store.len()
            invariant
                j <= from_store@.len(),
                forall|n: Seq<char>| #[trigger]
                    names@.dom().contains(n) <==> (mid.contains(n) || texts(from_store@).take(
                        j as int,
                    ).contains(n)),
            decreases from_store@.len() - j,
        {
            names.insert(from_store[j].clone(), ());
            proof {
                lemma_take_contains(texts(from_store@), j as int);
            }
            j = j + 1;
        }
        assert(texts(from_store@).take(j as int) =~= texts(from_store@));
        let out = names.keys();
        proof {
            assert(texts(out@) =~= names.key_order());
            assert forall|n: Seq<char>| #[trigger]
                texts(out@).contains(n) <==> (self@.table.dom().contains(n)
                    || self@.store.anchors.dom().contains(n)) by {
                assert(names@.dom().contains(n) <==> texts(out@).contains(n));
                assert(texts(from_table@).contains(n) <==> self@.table.dom().contains(n));
                assert(texts(from_store@).contains(n) <==> self@.store.anchors.dom().contains(n));
            }
        }
        out
    }
}

proof fn lemma_take_contains(s: Seq<Seq<char>>, i: int)
    requires
        0 <= i < s.len(),
    ensures
        forall|n: Seq<char>| #[trigger]
            s.take(i + 1).contains(n) <==> (s.take(i).contains(n) || n == s[i]),
{
    assert forall|n: Seq<char>| #[trigger] s.take(i + 1).contains(n) <==> (s.take(i).contains(n)
        || n == s[i]) by {
        if s.take(i).contains(n) {
            let k = s.take(i).index_of(n);
            assert(s.take(i + 1)[k] == n);
        }
        if n == s[i] {
            assert(s.take(i + 1)[i] == n);
        }
        if s.take(i + 1).contains(n) {
            let k = s.take(i + 1).index_of(n);
            if k < i {
                assert(s.take(i)[k] == n);
            }
        }
    }
}

/// A record that is admitted is newer than all before it, so neither it nor
/// an older one is ever admitted after it.
pub proof fn law_replays_are_refused(
    v: StoreView,
    name: Seq<char>,
    e: EndpointView,
    replay: EndpointView,
    now: u64,
    later: u64,
)
    requires
        admissible(v, name, e, now),
        replay.seq <= e.seq,
    ensures
        number_of(with_record(v, name, e).high_water, name) > number_of(v.high_water, name),
        !admissible(with_record(v, name, e), name, replay, later),
{
}

/// A record signed for another site than the anchor of the name is refused,
/// and so is every record of a name without an anchor.
pub proof fn law_foreign_records_are_refused(
    v: StoreView,
    name: Seq<char>,
    e: EndpointView,
    now: u64,
)
    requires
        !v.anchors.dom().contains(name) || e.site != hex_chars(v.anchors[name]),
    ensures
        !admissible(v, name, e, now),
{
}

/// After a revocation no record up to its sequence number is admitted, or
/// serves, at any time; and no later revocation takes that back.
pub proof fn law_tombstones_hold_for_good(
    v: StoreView,
    name: Seq<char>,
    r: RevocationView,
    e: EndpointView,
    again: RevocationView,
    now: u64,
)
    requires
        e.seq <= r.max_seq,
    ensures
        !admissible(with_revocation(v, name, r), name, e, now),
        !serves(with_revocation(v, name, r), name, e, now),
        !serves(with_revocation(with_revocation(v, name, r), name, again), name, e, now),
        number_of(with_revocation(v, name, r).tombstones, name) >= number_of(v.tombstones, name),
{
}

proof fn lemma_best_serves(v: StoreView, name: Seq<char>, records: Seq<EndpointView>, now: u64)
    ensures
        match best(v, name, records, now) {
            Some(b) => records.contains(b) && serves(v, name, b, now) && forall|i: int|
                0 <= i < records.len() && serves(v, name, #[trigger] records[i], now)
                    ==> records[i].expires_at_unix <= b.expires_at_unix,
            None => forall|i: int|
                0 <= i < records.len() ==> !serves(v, name, #[trigger] records[i], now),
        },
    decreases records.len(),
{
    if records.len() > 0 {
        let front = records.drop_last();
        lemma_best_serves(v, name, front, now);
        assert forall|i: int| 0 <= i < front.len() implies records[i] == #[trigger] front[i] by {}
        if let Some(b) = best(v, name, front, now) {
            let k = front.index_of(b);
            assert(records[k] == b);
        }
        if serves(v, name, records.last(), now) {
            assert(records[records.len() - 1] == records.last());
        }
        match best(v, name, records, now) {
            Some(b) => {
                assert forall|i: int|
                    0 <= i < records.len() && serves(
                        v,
                        name,
                        #[trigger] records[i],
                        now,
                    ) implies records[i].expires_at_unix <= b.expires_at_unix by {
                    if i < front.len() {
                        assert(front[i] == records[i]);
                    }
                }
            },
            None => {
                assert forall|i: int| 0 <= i < records.len() implies !serves(
                    v,
                    name,
                    #[trigger] records[i],
                    now,
                ) by {
                    if i < front.len() {
                        assert(front[i] == records[i]);
                    }
                }
            },
        }
    }
}

/// A route comes from a stored record that is neither expired nor revoked,
/// and no such record outlives it; without such a record there is no route.
pub proof fn law_routes_come_from_live_records(v: StoreView, name: Seq<char>, now: u64)
    ensures
        match stored_route(v, name, now) {
            Some(route) => exists|e: EndpointView|
                #![trigger records_of(v, name).contains(e)]
                records_of(v, name).contains(e) && serves(v, name, e, now) && route.endpoints
                    == seq![endpoint_text(e)] && route.pinned_site_id == Some(e.site),
            None => forall|i: int|
                0 <= i < records_of(v, name).len() ==> !serves(
                    v,
                    name,
                    #[trigger] records_of(v, name)[i],
                    now,
                ),
        },
{
    lemma_best_serves(v, name, records_of(v, name), now);
}

/// A name resolves at once as soon as a record for it is admitted.
pub proof fn law_admitted_record_gives_a_route(
    v: StoreView,
    name: Seq<char>,
    e: EndpointView,
    now: u64,
)
    requires
        admissible(v, name, e, now),
    ensures
        stored_route(with_record(v, name, e), name, now) is Some,
        of_others(records_of(v, name), e.site).len() == 0 ==> stored_route(
            with_record(v, name, e),
            name,
            now,
        ) == Some(
            RouteView { endpoints: seq![endpoint_text(e)], pinned_site_id: Some(e.site) },
        ),
{
    let w = with_record(v, name, e);
    let records = records_of(w, name);
    lemma_best_serves(w, name, records, now);
    assert(records[records.len() - 1] == e);
    assert(serves(w, name, e, now));
    if of_others(records_of(v, name), e.site).len() == 0 {
        assert(records =~= seq![e]);
        let b = best(w, name, records, now)->0;
        let k = records.index_of(b);
        assert(k == 0);
    }
}

/// A name that an offer resolved is answered at once from then on, with the
/// same route, whatever the time; backends are not asked again.
pub proof fn law_resolved_names_stay_warm(
    v: ResolverView,
    name: Seq<char>,
    offers: Seq<OfferView>,
    now: u64,
    later: u64,
)
    requires
        valid_site(name),
        all_taken(v, name, offers, now).1 is Some,
    ensures
        answered_at_once(all_taken(v, name, offers, now).0, name, later) == Some(
            Ok::<RouteView, ResolveErrorView>(all_taken(v, name, offers, now).1->0),
        ),
    decreases offers.len(),
{
    if offers.len() > 0 {
        let (w, route) = taken(v, name, offers[0], now);
        if route is None {
            law_resolved_names_stay_warm(w, name, offers.skip(1), now, later);
        }
    }
}

/// Backends may be asked in turn: what one offers is taken first, and what the
/// next one offers matters only where that opened no route.
pub proof fn law_offers_are_taken_in_turn(
    v: ResolverView,
    name: Seq<char>,
    first: Seq<OfferView>,
    next: Seq<OfferView>,
    now: u64,
)
    ensures
        all_taken(v, name, first + next, now) == match all_taken(v, name, first, now) {
            (w, Some(route)) => (w, Some(route)),
            (w, None) => all_taken(w, name, next, now),
        },
    decreases first.len(),
{
    if first.len() == 0 {
        assert(first + next =~= next);
    } else {
        let (w, _) = taken(v, name, first[0], now);
        assert((first + next)[0] == first[0]);
        assert((first + next).skip(1) =~= first.skip(1) + next);
        law_offers_are_taken_in_turn(w, name, first.skip(1), next, now);
    }
}

/// A failed exchange is no knowledge: where a backend did not answer, no
/// name becomes known as unknown.
pub proof fn law_failures_are_not_remembered(
    v: ResolverView,
    name: Seq<char>,
    other: Seq<char>,
    now: u64,
    clock: u64,
)
    ensures
        settled(v, name, false, now, clock).0 == v,
        other != name ==> number_of(settled(v, name, true, now, clock).0.negative, other)
            == number_of(v.negative, other),
{
}

/// Invalid names reach neither the store nor the backends.
pub proof fn law_invalid_names_change_nothing(
    v: ResolverView,
    name: Seq<char>,
    offers: Seq<OfferView>,
    authoritative: bool,
    now: u64,
    clock: u64,
)
    requires
        !valid_site(name),
    ensures
        resolved(v, name, offers, authoritative, now, clock) == (
            v,
            Err::<RouteView, ResolveErrorView>(ResolveErrorView::InvalidName(name)),
        ),
{
}

/// A record whose signature its site key bears out holds under that key until
/// it expires.
pub proof fn law_signed_endpoint_holds(key: Seq<u8>, e: EndpointView, sig: Seq<u8>, now: u64)
    requires
        sig.len() == 64,
        e.site == hex_chars(key),
        e.signature_hex == hex_chars(sig),
        ed25519_strict_fault(key, endpoint_form(e), sig) is None,
    ensures
        now < e.expires_at_unix ==> endpoint_fault(key, e, now) is None,
        now >= e.expires_at_unix ==> endpoint_fault(key, e, now) == Some(
            ResolveErrorView::Expired(e.expires_at_unix, now),
        ),
{
    crate::hex_text::law_hex_round_trip(sig);
}

/// An endpoint record holds under a key at a time exactly where it names that
/// key, has not expired, and carries a signature of 64 bytes that is good,
/// strictly, over all that it says.
pub proof fn law_when_endpoints_hold(key: Seq<u8>, e: EndpointView, now: u64)
    ensures
        ({
            let transport: nat = match e.transport {
                Transport::Tcp => 1,
                Transport::Quic => 2,
                Transport::Tor => 3,
                Transport::I2p => 4,
            };
            let form = encode_utf8(e.site) + seq![0u8] + encode_utf8(dec_chars(transport)) + seq![
                0u8,
            ] + encode_utf8(e.host) + seq![0u8] + encode_utf8(dec_chars(e.port as nat)) + seq![0u8]
                + encode_utf8(dec_chars(e.seq as nat)) + seq![0u8] + encode_utf8(
                dec_chars(e.expires_at_unix as nat),
            );
            &&& endpoint_fault(key, e, now) is None <==> {
                &&& e.site == hex_chars(key)
                &&& now < e.expires_at_unix
                &&& is_hex_text(e.signature_hex)
                &&& e.signature_hex.len() == 128
                &&& ed25519_strict_fault(key, form, hex_bytes(e.signature_hex)) is None
            }
            &&& e.site == hex_chars(key) && now >= e.expires_at_unix ==> endpoint_fault(
                key,
                e,
                now,
            ) == Some(ResolveErrorView::Expired(e.expires_at_unix, now))
            &&& endpoint_text(e) == e.host + ":"@ + dec_chars(e.port as nat)
        }),
{
    reveal_strlit(":");
    assert(endpoint_text(e) =~= e.host + ":"@ + dec_chars(e.port as nat));
}

/// A signed endpoint record says what it was to say, signed over all of it.
pub proof fn law_endpoints_are_signed_as_they_are(seed: Seq<u8>, e: EndpointView)
    ensures
        signed_endpoint(seed, e) == (EndpointView {
            signature_hex: hex_chars(ed25519_signature(seed, endpoint_form(e))),
            ..e
        }),
        forall|s: Seq<char>|
            #[trigger] endpoint_form(EndpointView { signature_hex: s, ..e }) == endpoint_form(e),
{
}

/// A revocation holds under a key at a time exactly where it names that key,
/// has not expired, and carries a signature of 64 bytes that is good, strictly,
/// over the revocation tag and all that it says.
pub proof fn law_when_revocations_hold(key: Seq<u8>, r: RevocationView, now: u64)
    ensures
        ({
            let form = encode_utf8("nexus/v1/revocation"@) + seq![0u8] + encode_utf8(r.site)
                + seq![0u8] + encode_utf8(dec_chars(r.max_seq as nat)) + seq![0u8] + encode_utf8(
                dec_chars(r.expires_at_unix as nat),
            );
            revocation_fault(key, r, now) is None <==> {
                &&& r.site == hex_chars(key)
                &&& now < r.expires_at_unix
                &&& is_hex_text(r.signature_hex)
                &&& r.signature_hex.len() == 128
                &&& ed25519_strict_fault(key, form, hex_bytes(r.signature_hex)) is None
            }
        }),
{
}

/// A record is admitted for a name exactly where the name has an anchor, the
/// record holds under it, and its number is above that of every record ever
/// admitted for the name and of every one that was revoked.
pub proof fn law_when_endpoints_are_admitted(
    v: StoreView,
    name: Seq<char>,
    e: EndpointView,
    r: RevocationView,
    now: u64,
)
    ensures
        admissible(v, name, e, now) <==> {
            &&& v.anchors.dom().contains(name)
            &&& endpoint_fault(v.anchors[name], e, now) is None
            &&& v.high_water.dom().contains(name) ==> e.seq > v.high_water[name]
            &&& v.tombstones.dom().contains(name) ==> e.seq > v.tombstones[name]
            &&& e.seq > 0
        },
        revocable(v, name, r, now) <==> v.anchors.dom().contains(name) && revocation_fault(
            v.anchors[name],
            r,
            now,
        ) is None,
{
}

proof fn lemma_of_others(records: Seq<EndpointView>, site: Seq<char>, x: EndpointView)
    ensures
        of_others(records, site).contains(x) <==> records.contains(x) && x.site != site,
    decreases records.len(),
{
    if records.len() > 0 {
        let front = records.drop_last();
        lemma_of_others(front, site, x);
        let before = of_others(front, site);
        let all = of_others(records, site);
        if records.contains(x) {
            let i = records.index_of(x);
            if i < front.len() {
                assert(front[i] == x);
            }
        }
        if front.contains(x) {
            assert(records[front.index_of(x)] == x);
        }
        assert(records[records.len() - 1] == records.last());
        if records.last().site != site {
            if before.contains(x) {
                assert(all[before.index_of(x)] == x);
            }
            assert(all[all.len() - 1] == records.last());
            if all.contains(x) {
                let i = all.index_of(x);
                if i < before.len() {
                    assert(before[i] == x);
                }
            }
        }
    }
}

/// An admitted record takes the place of those of its own site under the name;
/// every other record stays, under this name and under any other, and so do
/// anchors and revocations.
pub proof fn law_admitted_endpoints_replace_their_own(
    v: StoreView,
    name: Seq<char>,
    e: EndpointView,
    x: EndpointView,
    other: Seq<char>,
)
    ensures
        ({
            let w = with_record(v, name, e);
            &&& records_of(w, name).contains(x) <==> x == e || (records_of(v, name).contains(x)
                && x.site != e.site)
            &&& other != name ==> records_of(w, other) == records_of(v, other)
            &&& number_of(w.high_water, name) == e.seq
            &&& other != name ==> number_of(w.high_water, other) == number_of(v.high_water, other)
            &&& w.anchors == v.anchors
            &&& w.tombstones == v.tombstones
        }),
{
    let kept = of_others(records_of(v, name), e.site);
    let all = kept.push(e);
    lemma_of_others(records_of(v, name), e.site, x);
    assert(all[kept.len() as int] == e);
    if kept.contains(x) {
        assert(all[kept.index_of(x)] == x);
    }
    if all.contains(x) {
        let i = all.index_of(x);
        if i < kept.len() {
            assert(kept[i] == x);
        }
    }
}

/// A revocation lifts what is revoked under its name to its own number where
/// that is higher, and changes nothing else.
pub proof fn law_revocations_only_lift(
    v: StoreView,
    name: Seq<char>,
    r: RevocationView,
    other: Seq<char>,
)
    ensures
        ({
            let w = with_revocation(v, name, r);
            let before = number_of(v.tombstones, name);
            &&& number_of(w.tombstones, name) == if r.max_seq > before {
                r.max_seq
            } else {
                before
            }
            &&& other != name ==> number_of(w.tombstones, other) == number_of(v.tombstones, other)
            &&& w.records == v.records
            &&& w.anchors == v.anchors
            &&& w.high_water == v.high_water
        }),
{
}

/// Among the records of a name that are neither expired nor revoked, the route
/// is that of one that lives longest: its host and port, pinned to its site.
pub proof fn law_the_longest_lived_record_routes(
    v: StoreView,
    name: Seq<char>,
    now: u64,
    x: EndpointView,
)
    requires
        v.records.dom().contains(name),
        v.records[name].contains(x),
        x.expires_at_unix > now,
        v.tombstones.dom().contains(name) ==> x.seq > v.tombstones[name],
        x.seq > 0,
    ensures
        exists|e: EndpointView| #[trigger]
            v.records[name].contains(e) && e.expires_at_unix > now
                && e.expires_at_unix >= x.expires_at_unix && (v.tombstones.dom().contains(name)
                ==> e.seq > v.tombstones[name]) && stored_route(v, name, now) == Some(
                RouteView {
                    endpoints: seq![e.host + ":"@ + dec_chars(e.port as nat)],
                    pinned_site_id: Some(e.site),
                },
            ),
{
    let records = records_of(v, name);
    lemma_best_serves(v, name, records, now);
    let i = records.index_of(x);
    assert(serves(v, name, records[i], now));
    let e = best(v, name, records, now)->0;
    law_when_endpoints_hold(Seq::empty(), e, now);
    assert(v.records[name].contains(e));
}

/// A name without a record that is neither expired nor revoked has no route.
pub proof fn law_no_live_record_no_route(v: StoreView, name: Seq<char>, now: u64)
    requires
        v.records.dom().contains(name) ==> forall|i: int|
            0 <= i < v.records[name].len() ==> {
                let e = #[trigger] v.records[name][i];
                e.expires_at_unix <= now || (v.tombstones.dom().contains(name) && e.seq
                    <= v.tombstones[name])
            },
    ensures
        stored_route(v, name, now) is None,
{
    lemma_best_serves(v, name, records_of(v, name), now);
    if let Some(b) = best(v, name, records_of(v, name), now) {
        let i = records_of(v, name).index_of(b);
        assert(v.records[name][i] == b);
    }
}

/// What a resolver answers at once: that a name is invalid, the route of its
/// table, or that the name is unknown while that is remembered. Else backends
/// are asked.
pub proof fn law_answers_at_once(v: ResolverView, name: Seq<char>, clock: u64)
    ensures
        answered_at_once(v, name, clock) == if !valid_site(name) {
            Some(Err::<RouteView, ResolveErrorView>(ResolveErrorView::InvalidName(name)))
        } else if v.table.dom().contains(name) {
            Some(Ok(v.table[name]))
        } else if v.negative.dom().contains(name) && v.negative[name] > clock {
            Some(Err(ResolveErrorView::UnknownSite(name)))
        } else {
            None
        },
{
}

/// A name that no backend knew is answered as unknown until its term is over,
/// and from then on backends are asked again.
pub proof fn law_unknown_names_are_remembered_for_a_term(
    v: ResolverView,
    name: Seq<char>,
    now: u64,
    clock: u64,
    later: u64,
)
    requires
        valid_site(name),
        !v.table.dom().contains(name),
        stored_route(v.store, name, now) is None,
        clock + v.negative_ttl <= u64::MAX,
    ensures
        settled(v, name, true, now, clock).1 == Err::<RouteView, ResolveErrorView>(
            ResolveErrorView::UnknownSite(name),
        ),
        answered_at_once(settled(v, name, true, now, clock).0, name, later) == if later < clock
            + v.negative_ttl {
            Some(Err::<RouteView, ResolveErrorView>(ResolveErrorView::UnknownSite(name)))
        } else {
            None
        },
        settled(v, name, true, now, clock).0.store == v.store,
        settled(v, name, true, now, clock).0.table == v.table,
{
}

/// An offer counts only under the path of the name; an endpoint record that is
/// admissible is stored, opens a route, and ends the memory of the name as
/// unknown; one that is not changes nothing. A revocation that holds is taken
/// in and opens none.
pub proof fn law_offers_are_verified_first(
    v: ResolverView,
    name: Seq<char>,
    o: OfferView,
    now: u64,
)
    ensures
        ({
            let (w, route) = taken(v, name, o, now);
            &&& o.path != "@"@ + name ==> w == v && route is None
            &&& route is Some ==> (o.payload matches PayloadView::Endpoint(e) && admissible(
                v.store,
                name,
                e,
                now,
            ))
            &&& o.path == "@"@ + name ==> match o.payload {
                PayloadView::Endpoint(e) => if admissible(v.store, name, e, now) {
                    &&& w.store == with_record(v.store, name, e)
                    &&& route == stored_route(w.store, name, now)
                    &&& route is Some
                    &&& w.table == v.table.insert(name, route->0)
                    &&& w.negative == v.negative.remove(name)
                    &&& w.negative_ttl == v.negative_ttl
                } else {
                    w == v && route is None
                },
                PayloadView::Revocation(r) => if revocable(v.store, name, r, now) {
                    w == (ResolverView { store: with_revocation(v.store, name, r), ..v })
                        && route is None
                } else {
                    w == v && route is None
                },
                PayloadView::Other => w == v && route is None,
            }
        }),
{
    reveal_strlit("@");
    assert("@"@ =~= seq!['@']);
    if let PayloadView::Endpoint(e) = o.payload {
        if admissible(v.store, name, e, now) {
            law_admitted_record_gives_a_route(v.store, name, e, now);
        }
    }
}

/// A resolution that is not answered at once gives the first route that an
/// offer opened, else what the store holds, else that the name is unknown.
pub proof fn law_resolution(
    v: ResolverView,
    name: Seq<char>,
    offers: Seq<OfferView>,
    authoritative: bool,
    now: u64,
    clock: u64,
)
    ensures
        ({
            let out = resolved(v, name, offers, authoritative, now, clock);
            match answered_at_once(v, name, clock) {
                Some(a) => out == (v, a),
                None => {
                    let (w, route) = all_taken(v, name, offers, now);
                    &&& route matches Some(r) ==> out == (w, Ok::<RouteView, ResolveErrorView>(r))
                    &&& route is None ==> out.1 == match stored_route(w.store, name, now) {
                        Some(r) => Ok::<RouteView, ResolveErrorView>(r),
                        None => Err(ResolveErrorView::UnknownSite(name)),
                    }
                    &&& route is None ==> out.0.store == w.store && out.0.table == w.table
                },
            }
        }),
        offers.len() == 0 ==> all_taken(v, name, offers, now) == (v, None::<RouteView>),
        offers.len() == 1 ==> all_taken(v, name, offers, now) == taken(v, name, offers[0], now),
{
    reveal_with_fuel(all_taken, 2);
}

/// The record at `i` is the one that routes where it is live, no live record
/// before it lasts longer, and every live record after it ends earlier.
proof fn lemma_best_is_at(
    v: StoreView,
    name: Seq<char>,
    records: Seq<EndpointView>,
    now: u64,
    i: int,
)
    requires
        0 <= i < records.len(),
        serves(v, name, records[i], now),
        forall|j: int|
            0 <= j < records.len() && serves(v, name, #[trigger] records[j], now)
                ==> records[j].expires_at_unix <= records[i].expires_at_unix,
        forall|j: int|
            i < j < records.len() && serves(v, name, #[trigger] records[j], now)
                ==> records[j].expires_at_unix < records[i].expires_at_unix,
    ensures
        best(v, name, records, now) == Some(records[i]),
    decreases records.len(),
{
    let front = records.drop_last();
    assert forall|j: int| 0 <= j < front.len() implies records[j] == #[trigger] front[j] by {}
    if i == records.len() - 1 {
        lemma_best_serves(v, name, front, now);
    } else {
        lemma_best_is_at(v, name, front, now, i);
    }
}

/// Of the records of a name that are neither expired nor revoked, the one that
/// lasts longest routes; of those that last as long, the one that came last.
pub proof fn law_of_equal_terms_the_latest_routes(
    v: StoreView,
    name: Seq<char>,
    now: u64,
    i: int,
)
    requires
        v.records.dom().contains(name),
        0 <= i < v.records[name].len(),
        v.records[name][i].expires_at_unix > now,
        v.records[name][i].seq > 0,
        v.tombstones.dom().contains(name) ==> v.records[name][i].seq > v.tombstones[name],
        forall|j: int|
            0 <= j < v.records[name].len() ==> {
                let e = #[trigger] v.records[name][j];
                ||| e.expires_at_unix < v.records[name][i].expires_at_unix
                ||| e.expires_at_unix == v.records[name][i].expires_at_unix && j <= i
                ||| v.tombstones.dom().contains(name) && e.seq <= v.tombstones[name]
            },
    ensures
        stored_route(v, name, now) == Some(
            RouteView {
                endpoints: seq![
                    v.records[name][i].host + ":"@ + dec_chars(v.records[name][i].port as nat),
                ],
                pinned_site_id: Some(v.records[name][i].site),
            },
        ),
{
    lemma_best_is_at(v, name, v.records[name], now, i);
    let e = v.records[name][i];
    reveal_strlit(":");
    assert(endpoint_text(e) =~= e.host + ":"@ + dec_chars(e.port as nat));
}

/// A term ends when its length has passed, or never where that lies past the
/// last moment there is.
pub proof fn law_terms_end(now: u64, ttl: u64)
    ensures
        now + ttl <= u64::MAX ==> term_end(now, ttl) == now + ttl,
        now + ttl > u64::MAX ==> term_end(now, ttl) == u64::MAX,
{
}

/// A new store routes no name and knows none, so it admits no record.
pub proof fn law_new_stores_are_empty(
    name: Seq<char>,
    e: EndpointView,
    r: RevocationView,
    now: u64,
)
    ensures
        stored_route(empty_store(), name, now) is None,
        !admissible(empty_store(), name, e, now),
        !revocable(empty_store(), name, r, now),
{
}

/// Why a record is refused, in the order of the tests: a site that is not that
/// of the key, a term that has ended, a signature that is no hexadecimal text
/// or is of a wrong length, and one that the key did not make.
pub proof fn law_why_records_are_refused(
    key: Seq<u8>,
    e: EndpointView,
    r: RevocationView,
    now: u64,
)
    ensures
        e.site != hex_chars(key) ==> endpoint_fault(key, e, now) == Some(
            ResolveErrorView::BadSignature(
                "site mismatch: record claims "@ + e.site + ", key is "@ + hex_chars(key),
            ),
        ),
        r.site != hex_chars(key) ==> revocation_fault(key, r, now) == Some(
            ResolveErrorView::BadSignature(
                "site mismatch: record claims "@ + r.site + ", key is "@ + hex_chars(key),
            ),
        ),
        r.site == hex_chars(key) && now >= r.expires_at_unix ==> revocation_fault(key, r, now)
            == Some(ResolveErrorView::Expired(r.expires_at_unix, now)),
        e.site == hex_chars(key) && now < e.expires_at_unix && !is_hex_text(e.signature_hex)
            ==> endpoint_fault(key, e, now) == Some(
            ResolveErrorView::BadSignature(hex_fault(e.signature_hex)),
        ),
        e.site == hex_chars(key) && now < e.expires_at_unix && is_hex_text(e.signature_hex)
            && e.signature_hex.len() != 128 ==> endpoint_fault(key, e, now) == Some(
            ResolveErrorView::BadSignature(
                "expected 64 bytes, got "@ + dec_chars(e.signature_hex.len() / 2),
            ),
        ),
        e.site == hex_chars(key) && now < e.expires_at_unix && is_hex_text(e.signature_hex)
            && e.signature_hex.len() == 128 ==> match ed25519_strict_fault(
            key,
            endpoint_form(e),
            hex_bytes(e.signature_hex),
        ) {
            None => endpoint_fault(key, e, now) is None,
            Some(why) => endpoint_fault(key, e, now) == Some(ResolveErrorView::BadSignature(why)),
        },
{
}

} // verus!
