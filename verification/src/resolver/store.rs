//! Local-first record store: the source of truth when offline.
//!
//! A record is admitted where its signature holds under a key of the zone,
//! it has not expired, no revocation covers it, and its sequence number is
//! newer than that of the live record of its zone and kind.

use crate::byte_map::ByteMap;
use crate::bytes::{le_number, le_value};
use crate::keys::array32;
use crate::resolver::crypto::CryptoProvider;
use crate::resolver::model::{
    is_expired, kind_tag, parsed_wire, wire_form, Envelope, PublicKey, RecordKind, RecordView,
    ResolveError, SignedRecord, ValidatedRecord, ValidatedView, ZoneId,
};
use crate::hex_text::{hex_bytes, hex_chars, is_hex_text};
use crate::content::texts;
use crate::text::{dec_chars, decimal, trim, trimmed};
use vstd::prelude::*;
use vstd::slice::*;
use vstd::string::*;

verus! {

/// Why the store cannot be opened.
#[derive(Debug, Clone, PartialEq, Eq)]
pub enum StoreError {
    /// The log cannot be read or appended to.
    Io(String),
    /// A stored envelope cannot be decoded.
    Corrupt(String),
}

impl StoreError {
    /// What the error says to a reader.
    pub fn to_string(&self) -> (out: String)
        ensures
            match self {
                StoreError::Io(s) => out@ == "store io: "@ + s@,
                StoreError::Corrupt(s) => out@ == "store corrupt: "@ + s@,
            },
    {
        match self {
            StoreError::Io(s) => "store io: ".to_owned().concat(s.as_str()),
            StoreError::Corrupt(s) => "store corrupt: ".to_owned().concat(s.as_str()),
        }
    }
}

/// A revocation: records of the zone up to a sequence number are dead.
#[derive(Debug, Clone, Copy, PartialEq, Eq, Structural)]
pub struct RevocationTombstone {
    /// Sequence number of the revocation itself.
    pub seq: u64,
    pub invalidates_up_to: u64,
}

/// How long a name without live records is remembered as such, in seconds.
pub const NEGATIVE_TTL: u64 = 300;

/// The key of a zone and kind.
pub open spec fn slot(zone: Seq<u8>, kind: RecordKind) -> Seq<u8> {
    zone.push(kind_tag(kind))
}

/// The mathematical value of a store.
pub struct StoreView {
    /// The live record of each zone and kind.
    pub live: Map<Seq<u8>, ValidatedView>,
    /// The revocations of each zone, in the order they came.
    pub revocations: Map<Seq<u8>, Seq<RevocationTombstone>>,
    /// The keys of each zone.
    pub authorized: Map<Seq<u8>, Seq<Seq<u8>>>,
    /// The zones known to have nothing live, and until when.
    pub negative: Map<Seq<u8>, u64>,
    /// The highest sequence number ever admitted of each zone and kind.
    pub high_water: Map<Seq<u8>, u64>,
}

/// The key may sign for the zone.
pub open spec fn authorized(v: StoreView, zone: Seq<u8>, key: Seq<u8>) -> bool {
    v.authorized.dom().contains(zone) && v.authorized[zone].contains(key)
}

/// One of the revocations covers the sequence number.
pub open spec fn covered(tombstones: Seq<RevocationTombstone>, seq: u64) -> bool {
    exists|i: int| 0 <= i < tombstones.len() && seq <= (#[trigger] tombstones[i]).invalidates_up_to
}

/// A revocation of the zone covers the sequence number.
pub open spec fn revoked(v: StoreView, zone: Seq<u8>, seq: u64) -> bool {
    v.revocations.dom().contains(zone) && covered(v.revocations[zone], seq)
}

/// Why a record is refused at a time, whatever is live; nothing where it is
/// valid. `accepted` says whether its signature holds.
pub open spec fn record_fault(v: StoreView, accepted: bool, r: RecordView, now: u64) -> Option<
    ResolveError,
> {
    if !accepted {
        Some(ResolveError::BadSignature)
    } else if !authorized(v, r.zone, r.signer) {
        Some(ResolveError::BadSignature)
    } else if is_expired(r, now) {
        Some(ResolveError::Revoked)
    } else if revoked(v, r.zone, r.seq) {
        Some(ResolveError::Revoked)
    } else {
        None
    }
}

/// The validated form of a record.
pub open spec fn validated(r: RecordView) -> ValidatedView {
    ValidatedView { record: r, identity: Seq::new(32, |i: int| 0u8) }
}

/// The sequence of a zone in a map, empty without the zone.
pub open spec fn listed<T>(m: Map<Seq<u8>, Seq<T>>, zone: Seq<u8>) -> Seq<T> {
    if m.dom().contains(zone) {
        m[zone]
    } else {
        Seq::empty()
    }
}

/// The live records that a revocation leaves.
pub open spec fn surviving(
    live: Map<Seq<u8>, ValidatedView>,
    zone: Seq<u8>,
    up_to: u64,
) -> Map<Seq<u8>, ValidatedView> {
    live.remove_keys(
        Set::new(
            |s: Seq<u8>|
                live.dom().contains(s) && live[s].record.zone == zone && live[s].record.seq
                    <= up_to,
        ),
    )
}

/// The store after a revocation. One that is malformed changes nothing.
pub open spec fn after_revocation(v: StoreView, r: RecordView) -> StoreView {
    if r.payload.len() != 8 {
        v
    } else {
        let up_to = le_value(r.payload) as u64;
        StoreView {
            live: surviving(v.live, r.zone, up_to),
            revocations: v.revocations.insert(
                r.zone,
                listed(v.revocations, r.zone).push(
                    RevocationTombstone { seq: r.seq, invalidates_up_to: up_to },
                ),
            ),
            ..v
        }
    }
}

/// The store after a delegation. One that is malformed changes nothing.
pub open spec fn after_delegation(v: StoreView, r: RecordView) -> StoreView {
    if r.payload.len() < 32 || !authorized(v, r.zone, r.signer) {
        v
    } else {
        StoreView {
            authorized: v.authorized.insert(
                r.zone,
                listed(v.authorized, r.zone).push(r.payload.take(32)),
            ),
            ..v
        }
    }
}

/// The store with a record as the live one of its zone and kind.
pub open spec fn after_record(v: StoreView, r: RecordView) -> StoreView {
    StoreView {
        live: v.live.insert(slot(r.zone, r.kind), validated(r)),
        negative: v.negative.remove(r.zone),
        ..v
    }
}

/// The store once the sequence number of an admitted record is marked. No
/// mark ever falls.
pub open spec fn marked(v: StoreView, r: RecordView) -> StoreView {
    let s = slot(r.zone, r.kind);
    if v.high_water.dom().contains(s) && v.high_water[s] >= r.seq {
        v
    } else {
        StoreView { high_water: v.high_water.insert(s, r.seq), ..v }
    }
}

/// The live record of the zone and kind of a record is not older than it.
pub open spec fn stale(v: StoreView, r: RecordView) -> bool {
    v.live.dom().contains(slot(r.zone, r.kind)) && v.live[slot(r.zone, r.kind)].record.seq >= r.seq
}

/// What admission does with a record: the store then, or why it is refused.
pub open spec fn admitted(v: StoreView, accepted: bool, r: RecordView, now: u64) -> Result<
    StoreView,
    ResolveError,
> {
    match record_fault(v, accepted, r, now) {
        Some(e) => Err(e),
        None => match r.kind {
            RecordKind::Revocation => Ok(marked(after_revocation(v, r), r)),
            RecordKind::Delegation => Ok(marked(after_delegation(v, r), r)),
            _ => if stale(v, r) {
                Err(ResolveError::StaleSequence)
            } else {
                Ok(marked(after_record(v, r), r))
            },
        },
    }
}

/// The kind at a position of the order of kinds.
pub open spec fn kind_no(i: int) -> RecordKind {
    if i == 0 {
        RecordKind::Node
    } else if i == 1 {
        RecordKind::Service
    } else if i == 2 {
        RecordKind::Content
    } else if i == 3 {
        RecordKind::Alias
    } else if i == 4 {
        RecordKind::Delegation
    } else {
        RecordKind::Revocation
    }
}

/// The live record of a zone and kind expired or was revoked.
pub open spec fn dead(v: StoreView, zone: Seq<u8>, kind: RecordKind, now: u64) -> bool {
    v.live.dom().contains(slot(zone, kind)) && (is_expired(
        v.live[slot(zone, kind)].record,
        now,
    ) || revoked(v, zone, v.live[slot(zone, kind)].record.seq))
}

/// The store without the dead records of the first `n` kinds of a zone.
pub open spec fn pruned(v: StoreView, zone: Seq<u8>, now: u64, n: nat) -> StoreView
    decreases n,
{
    if n == 0 {
        v
    } else {
        let w = pruned(v, zone, now, (n - 1) as nat);
        let kind = kind_no(n - 1);
        if dead(w, zone, kind, now) {
            StoreView { live: w.live.remove(slot(zone, kind)), ..w }
        } else {
            w
        }
    }
}

/// The live records of the first `n` kinds of a zone, in the order of kinds.
pub open spec fn zone_records(v: StoreView, zone: Seq<u8>, n: nat) -> Seq<ValidatedView>
    decreases n,
{
    if n == 0 {
        Seq::empty()
    } else {
        let before = zone_records(v, zone, (n - 1) as nat);
        if v.live.dom().contains(slot(zone, kind_no(n - 1))) {
            before.push(v.live[slot(zone, kind_no(n - 1))])
        } else {
            before
        }
    }
}

/// The store after a lookup: dead records are gone, and a zone with nothing
/// live is remembered as such for a while.
pub open spec fn after_lookup(v: StoreView, zone: Seq<u8>, now: u64) -> StoreView {
    let w = pruned(v, zone, now, 6);
    StoreView {
        negative: if zone_records(w, zone, 6).len() > 0 {
            w.negative.remove(zone)
        } else {
            w.negative.insert(zone, (now + NEGATIVE_TTL) as u64)
        },
        ..w
    }
}

/// The highest sequence number ever admitted of the first `n` kinds of a
/// zone, zero without one.
pub open spec fn newest(v: StoreView, zone: Seq<u8>, n: nat) -> u64
    decreases n,
{
    if n == 0 {
        0
    } else {
        let before = newest(v, zone, (n - 1) as nat);
        let s = slot(zone, kind_no(n - 1));
        if v.high_water.dom().contains(s) && v.high_water[s] > before {
            v.high_water[s]
        } else {
            before
        }
    }
}

/// The values of keys.
pub open spec fn keys_view(keys: Seq<PublicKey>) -> Seq<Seq<u8>> {
    Seq::new(keys.len(), |i: int| keys[i]@)
}

/// What a store holds.
#[derive(Debug)]
struct Tables {
    live: ByteMap<ValidatedRecord>,
    revocations: ByteMap<Vec<RevocationTombstone>>,
    authorized: ByteMap<Vec<PublicKey>>,
    negative: ByteMap<u64>,
    high_water: ByteMap<u64>,
}

impl View for Tables {
    type V = StoreView;

    closed spec fn view(&self) -> StoreView {
        StoreView {
            live: self.live@.map_values(|r: ValidatedRecord| r@),
            revocations: self.revocations@.map_values(|t: Vec<RevocationTombstone>| t@),
            authorized: self.authorized@.map_values(|k: Vec<PublicKey>| keys_view(k@)),
            negative: self.negative@,
            high_water: self.high_water@,
        }
    }
}

/// The local record store.
#[derive(Debug)]
pub struct LocalStore<P: CryptoProvider> {
    crypto: P,
    tables: Tables,
}

impl<P: CryptoProvider> View for LocalStore<P> {
    type V = StoreView;

    closed spec fn view(&self) -> StoreView {
        self.tables@
    }
}

/// The key of a zone and kind.
fn slot_key(zone: &ZoneId, kind: RecordKind) -> (key: Vec<u8>)
    ensures
        key@ == slot(zone@, kind),
{
    let mut key = slice_to_vec(zone.as_slice());
    key.push(kind.discriminant());
    key
}

/// The kind at a position of the order of kinds.
fn kind_at(i: usize) -> (kind: RecordKind)
    ensures
        kind == kind_no(i as int),
{
    match i {
        0 => RecordKind::Node,
        1 => RecordKind::Service,
        2 => RecordKind::Content,
        3 => RecordKind::Alias,
        4 => RecordKind::Delegation,
        _ => RecordKind::Revocation,
    }
}

/// Two slots are the same only for the same zone and kind.
pub proof fn lemma_slot_injective(z1: Seq<u8>, k1: RecordKind, z2: Seq<u8>, k2: RecordKind)
    requires
        slot(z1, k1) == slot(z2, k2),
    ensures
        z1 == z2,
        k1 == k2,
{
    assert(slot(z1, k1).drop_last() =~= z1);
    assert(slot(z2, k2).drop_last() =~= z2);
    assert(slot(z1, k1).last() == kind_tag(k1));
}

/// Every live record stands in the slot of its own zone and kind, is no
/// revocation or delegation, is signed by a key of its zone, and no
/// revocation covers it.
pub open spec fn sound(v: StoreView) -> bool {
    forall|s: Seq<u8>| #[trigger]
        v.live.dom().contains(s) ==> {
            let r = v.live[s].record;
            &&& s == slot(r.zone, r.kind)
            &&& r.kind != RecordKind::Revocation
            &&& r.kind != RecordKind::Delegation
            &&& authorized(v, r.zone, r.signer)
            &&& !revoked(v, r.zone, r.seq)
        }
}

impl Tables {
    /// Tables that hold nothing.
    fn empty() -> (t: Self)
        ensures
            t@ == empty_store(),
    {
        let t = Tables {
            live: ByteMap::new(),
            revocations: ByteMap::new(),
            authorized: ByteMap::new(),
            negative: ByteMap::new(),
            high_water: ByteMap::new(),
        };
        assert(t@.live =~= Map::empty());
        assert(t@.revocations =~= Map::empty());
        assert(t@.authorized =~= Map::empty());
        t
    }

    /// Adds a key of a zone.
    fn add_key(&mut self, zone: ZoneId, key: PublicKey)
        ensures
            final(self)@ == (StoreView {
                authorized: old(self)@.authorized.insert(
                    zone@,
                    listed(old(self)@.authorized, zone@).push(key@),
                ),
                ..old(self)@
            }),
            sound(old(self)@) ==> sound(final(self)@),
    {
        let mut keys = match self.authorized.remove(zone.as_slice()) {
            Some(keys) => keys,
            None => Vec::new(),
        };
        let ghost before = keys_view(keys@);
        assert(before =~= listed(old(self)@.authorized, zone@));
        keys.push(key);
        assert(keys_view(keys@) =~= before.push(key@));
        self.authorized.insert(slice_to_vec(zone.as_slice()), keys);
        assert(self@.authorized =~= old(self)@.authorized.insert(zone@, before.push(key@)));
        proof {
            lemma_more_keys(old(self)@, zone@, key@, self@);
        }
    }

    fn is_authorized(&self, zone: &ZoneId, signer: &PublicKey) -> (found: bool)
        ensures
            found == authorized(self@, zone@, signer@),
    {
        match self.authorized.get(zone.as_slice()) {
            None => false,
            Some(keys) => {
                let mut i: usize = 0;
                while i < keys.len()
                    invariant
                        i <= keys@.len(),
                        self.authorized@.dom().contains(zone@),
                        *keys == self.authorized@[zone@],
                        forall|j: int| 0 <= j < i ==> #[trigger] keys@[j]@ != signer@,
                    decreases keys@.len() - i,
                {
                    if crate::bytes::same_bytes(keys[i].as_slice(), signer.as_slice()) {
                        assert(keys_view(keys@)[i as int] == signer@);
                        return true;
                    }
                    i = i + 1;
                }
                assert forall|j: int| 0 <= j < keys_view(keys@).len() implies keys_view(keys@)[j]
                    != signer@ by {
                    assert(keys@[j]@ != signer@);
                }
                false
            },
        }
    }

    fn is_revoked(&self, zone: &ZoneId, seq: u64) -> (found: bool)
        ensures
            found == revoked(self@, zone@, seq),
    {
        match self.revocations.get(zone.as_slice()) {
            None => false,
            Some(tombstones) => {
                let mut i: usize = 0;
                while i < tombstones.len()
                    invariant
                        i <= tombstones@.len(),
                        self.revocations@.dom().contains(zone@),
                        *tombstones == self.revocations@[zone@],
                        forall|j: int|
                            0 <= j < i ==> seq > (#[trigger] tombstones@[j]).invalidates_up_to,
                    decreases tombstones@.len() - i,
                {
                    if seq <= tombstones[i].invalidates_up_to {
                        return true;
                    }
                    i = i + 1;
                }
                false
            },
        }
    }

    /// Takes in a revocation.
    fn apply_revocation(&mut self, record: &SignedRecord)
        requires
            sound(old(self)@),
        ensures
            final(self)@ == after_revocation(old(self)@, record@),
            sound(final(self)@),
    {
        if record.payload.len() != 8 {
            return;
        }
        let up_to = le_number(record.payload.as_slice());
        let mut tombstones = match self.revocations.remove(record.zone.as_slice()) {
            Some(t) => t,
            None => Vec::new(),
        };
        assert(tombstones@ =~= listed(old(self)@.revocations, record.zone@));
        tombstones.push(RevocationTombstone { seq: record.seq, invalidates_up_to: up_to });
        let ghost zone = record.zone@;
        let ghost live0 = old(self)@.live;
        self.revocations.insert(slice_to_vec(record.zone.as_slice()), tombstones);
        assert(self@.revocations =~= old(self)@.revocations.insert(zone, tombstones@));
        let mut i: usize = 0;
        while i < 6
            invariant
                i <= 6,
                zone == record.zone@,
                sound(old(self)@),
                live0 == old(self)@.live,
                self@.revocations == old(self)@.revocations.insert(zone, tombstones@),
                self@.authorized == old(self)@.authorized,
                self@.negative == old(self)@.negative,
                self@.high_water == old(self)@.high_water,
                forall|s: Seq<u8>| #[trigger]
                    self@.live.dom().contains(s) ==> live0.dom().contains(s) && self@.live[s]
                        == live0[s],
                forall|j: int|
                    0 <= j < i && self@.live.dom().contains(slot(zone, #[trigger] kind_no(j)))
                        ==> live0[slot(zone, kind_no(j))].record.seq > up_to,
                forall|s: Seq<u8>| #[trigger]
                    live0.dom().contains(s) && !self@.live.dom().contains(s) ==> live0[s].record.zone
                        == zone && live0[s].record.seq <= up_to,
            decreases 6 - i,
        {
            let key = slot_key(&record.zone, kind_at(i));
            let ghost before = self@.live;
            let hit = match self.live.get(key.as_slice()) {
                Some(r) => r.record.seq <= up_to,
                None => false,
            };
            if hit {
                self.live.remove(key.as_slice());
                assert(self@.live =~= before.remove(key@));
                assert(live0.dom().contains(key@));
                proof {
                    let r = live0[key@].record;
                    lemma_slot_injective(r.zone, r.kind, zone, kind_no(i as int));
                }
            }
            i = i + 1;
        }
        proof {
            let rest = surviving(live0, zone, up_to);
            assert forall|s: Seq<u8>| #[trigger] self@.live.dom().contains(s) <==> rest.dom().contains(
                s,
            ) by {
                if self@.live.dom().contains(s) && live0[s].record.zone == zone {
                    let r = live0[s].record;
                    let j = kind_tag(r.kind) - 1;
                    assert(kind_no(j as int) == r.kind);
                    assert(live0[slot(zone, kind_no(j as int))].record.seq > up_to);
                }
            }
            assert(self@.live =~= rest);
            lemma_revocation_sound(old(self)@, record@, self@);
        }
    }

    /// Takes in a delegation.
    fn apply_delegation(&mut self, record: &SignedRecord)
        requires
            sound(old(self)@),
        ensures
            final(self)@ == after_delegation(old(self)@, record@),
            sound(final(self)@),
    {
        if record.payload.len() < 32 {
            return;
        }
        if self.is_authorized(&record.zone, &record.signer) {
            let (head, _) = record.payload.as_slice().split_at(32);
            assert(head@ =~= record.payload@.take(32));
            self.add_key(record.zone, array32(head));
        }
    }

    /// Takes in a record of another kind, unless the live one of its zone and
    /// kind is not older.
    fn apply_record(&mut self, record: &SignedRecord) -> (done: bool)
        requires
            sound(old(self)@),
            authorized(old(self)@, record@.zone, record@.signer),
            !revoked(old(self)@, record@.zone, record@.seq),
            record@.kind != RecordKind::Revocation,
            record@.kind != RecordKind::Delegation,
        ensures
            done == !stale(old(self)@, record@),
            final(self)@ == if done {
                after_record(old(self)@, record@)
            } else {
                old(self)@
            },
            sound(final(self)@),
    {
        let key = slot_key(&record.zone, record.kind);
        if let Some(r) = self.live.get(key.as_slice()) {
            if r.record.seq >= record.seq {
                return false;
            }
        }
        self.negative.remove(record.zone.as_slice());
        self.live.insert(key, validated_copy(record));
        proof {
            assert(self@.live =~= old(self)@.live.insert(
                slot(record@.zone, record@.kind),
                validated(record@),
            ));
            assert(self@ == after_record(old(self)@, record@));
            lemma_record_sound(old(self)@, record@);
        }
        true
    }

    /// Marks the sequence number of an admitted record.
    fn mark(&mut self, record: &SignedRecord)
        requires
            sound(old(self)@),
        ensures
            final(self)@ == marked(old(self)@, record@),
            sound(final(self)@),
    {
        let key = slot_key(&record.zone, record.kind);
        let higher = match self.high_water.get(key.as_slice()) {
            Some(seq) => record.seq > *seq,
            None => true,
        };
        if higher {
            self.high_water.insert(key, record.seq);
        }
        proof {
            lemma_sound_parts(old(self)@, self@);
        }
    }

    /// The live records of a zone, in the order of kinds. Dead ones are
    /// dropped.
    fn lookup(&mut self, zone: ZoneId, now: u64) -> (out: Vec<ValidatedRecord>)
        requires
            now + NEGATIVE_TTL <= u64::MAX,
        ensures
            final(self)@ == after_lookup(old(self)@, zone@, now),
            records_view(out@) == zone_records(final(self)@, zone@, 6),
            sound(old(self)@) ==> sound(final(self)@),
    {
        let mut i: usize = 0;
        while i < 6
            invariant
                i <= 6,
                self@ == pruned(old(self)@, zone@, now, i as nat),
            decreases 6 - i,
        {
            let kind = kind_at(i);
            let key = slot_key(&zone, kind);
            let ghost before = self@;
            let is_dead = match self.live.get(key.as_slice()) {
                Some(r) => r.record.expired_at(now) || self.is_revoked(&zone, r.record.seq),
                None => false,
            };
            assert(is_dead == dead(before, zone@, kind, now));
            if is_dead {
                self.live.remove(key.as_slice());
                assert(self@.live =~= before.live.remove(key@));
            }
            i = i + 1;
        }
        let ghost mid = self@;
        let out = self.collect(&zone);
        if out.len() > 0 {
            self.negative.remove(zone.as_slice());
        } else {
            self.negative.insert(slice_to_vec(zone.as_slice()), now + NEGATIVE_TTL);
        }
        proof {
            lemma_zone_records_same(mid, self@, zone@, 6);
            lemma_pruned_sound(old(self)@, zone@, now, 6);
            lemma_sound_parts(mid, self@);
        }
        out
    }

    /// The live records of a zone, in the order of kinds.
    fn collect(&self, zone: &ZoneId) -> (out: Vec<ValidatedRecord>)
        ensures
            records_view(out@) == zone_records(self@, zone@, 6),
            out@.len() == zone_records(self@, zone@, 6).len(),
    {
        let mut out: Vec<ValidatedRecord> = Vec::new();
        let mut i: usize = 0;
        assert(records_view(out@) =~= Seq::empty());
        while i < 6
            invariant
                i <= 6,
                records_view(out@) == zone_records(self@, zone@, i as nat),
            decreases 6 - i,
        {
            let key = slot_key(zone, kind_at(i));
            if let Some(r) = self.live.get(key.as_slice()) {
                let ghost before = records_view(out@);
                let copy = r.clone();
                out.push(copy);
                assert(records_view(out@) =~= before.push(copy@));
            }
            i = i + 1;
        }
        assert(records_view(out@).len() == out@.len());
        out
    }

    /// Whether a zone is known to have nothing live.
    fn is_negative(&self, zone: ZoneId, now: u64) -> (found: bool)
        ensures
            found == (self@.negative.dom().contains(zone@) && self@.negative[zone@] > now),
    {
        match self.negative.get(zone.as_slice()) {
            Some(until) => *until > now,
            None => false,
        }
    }

    /// The highest mark of a zone, zero without one.
    fn highest_mark(&self, zone: ZoneId) -> (seq: u64)
        ensures
            seq == newest(self@, zone@, 6),
    {
        let mut best: u64 = 0;
        let mut i: usize = 0;
        while i < 6
            invariant
                i <= 6,
                best == newest(self@, zone@, i as nat),
            decreases 6 - i,
        {
            let key = slot_key(&zone, kind_at(i));
            if let Some(seq) = self.high_water.get(key.as_slice()) {
                if *seq > best {
                    best = *seq;
                }
            }
            i = i + 1;
        }
        best
    }

    /// All live records, each once.
    fn live_records(&self) -> (out: Vec<ValidatedRecord>)
        ensures
            forall|i: int| 0 <= i < out@.len() ==> is_live(self@, (#[trigger] out@[i])@),
            forall|s: Seq<u8>| #[trigger]
                self@.live.dom().contains(s) ==> exists|i: int|
                    0 <= i < out@.len() && (#[trigger] out@[i])@ == self@.live[s],
            self@.live.dom().finite(),
            out@.len() == self@.live.dom().len(),
    {
        self.live.key_facts();
        let mut out: Vec<ValidatedRecord> = Vec::new();
        let mut i: usize = 0;
        while i < self.live.len()
            invariant
                i <= self.live.entry_count(),
                out@.len() == i,
                forall|j: int|
                    0 <= j < self.live.entry_count() ==> self.live@.dom().contains(
                        #[trigger] self.live.key_at(j),
                    ),
                forall|j: int|
                    0 <= j < i ==> (#[trigger] out@[j])@ == self.live@[self.live.key_at(j)]@,
            decreases self.live.entry_count() - i,
        {
            out.push(self.live.value_at(i).clone());
            i = i + 1;
        }
        proof {
            assert forall|j: int| 0 <= j < out@.len() implies is_live(
                self@,
                (#[trigger] out@[j])@,
            ) by {
                let s = self.live.key_at(j);
                assert(self@.live.dom().contains(s));
                assert(self@.live[s] == out@[j]@);
            }
            assert forall|s: Seq<u8>| #[trigger] self@.live.dom().contains(s) implies exists|j: int|
                0 <= j < out@.len() && (#[trigger] out@[j])@ == self@.live[s] by {
                assert(self.live@.dom().contains(s));
                let j = choose|j: int|
                    0 <= j < self.live.entry_count() && #[trigger] self.live.key_at(j) == s;
                assert(out@[j]@ == self.live@[self.live.key_at(j)]@);
            }
            assert(self@.live.dom() =~= self.live@.dom());
        }
        out
    }
}

/// A record in its validated form.
fn validated_copy(record: &SignedRecord) -> (out: ValidatedRecord)
    ensures
        out@ == validated(record@),
{
    let zeros: [u8; 32] = [0; 32];
    assert(zeros@ =~= Seq::new(32, |i: int| 0u8));
    ValidatedRecord { record: record.clone(), identity: zeros }
}

impl<P: CryptoProvider> LocalStore<P> {
    #[verifier::type_invariant]
    spec fn holds_sound_records(self) -> bool {
        sound(self.tables@)
    }

    /// The records whose signature the store accepts.
    pub closed spec fn accepts(self, r: RecordView) -> bool {
        self.crypto.accepts(r)
    }

    /// An empty store.
    pub fn in_memory(crypto: P) -> (s: Self)
        ensures
            s@ == empty_store(),
            forall|r: RecordView| #[trigger] s.accepts(r) == crypto.accepts(r),
            sound(s@),
    {
        LocalStore { crypto, tables: Tables::empty() }
    }

    /// Registers a key of a zone out of band. Without one no record of the
    /// zone is admitted.
    pub fn bootstrap_root_key(&mut self, zone: ZoneId, key: PublicKey)
        ensures
            final(self)@ == (StoreView {
                authorized: old(self)@.authorized.insert(
                    zone@,
                    listed(old(self)@.authorized, zone@).push(key@),
                ),
                ..old(self)@
            }),
            forall|r: RecordView| #[trigger] final(self).accepts(r) == old(self).accepts(r),
            sound(final(self)@),
    {
        proof {
            use_type_invariant(&*self);
        }
        let mut tables = Tables::empty();
        std::mem::swap(&mut self.tables, &mut tables);
        tables.add_key(zone, key);
        self.tables = tables;
    }

    /// Checks a record, without a look at what is live.
    pub fn validate(&self, record: &SignedRecord, now: u64) -> (out: Result<(), ResolveError>)
        ensures
            match out {
                Ok(_) => record_fault(self@, self.accepts(record@), record@, now) is None,
                Err(e) => record_fault(self@, self.accepts(record@), record@, now) == Some(e),
            },
    {
        if !self.crypto.verify(record) {
            return Err(ResolveError::BadSignature);
        }
        if !self.tables.is_authorized(&record.zone, &record.signer) {
            return Err(ResolveError::BadSignature);
        }
        if record.expired_at(now) {
            return Err(ResolveError::Revoked);
        }
        if self.tables.is_revoked(&record.zone, record.seq) {
            return Err(ResolveError::Revoked);
        }
        Ok(())
    }

    /// Validates a record and takes it in. The stored record is returned; a
    /// refused one changes nothing.
    pub fn admit_record(&mut self, record: SignedRecord, now: u64) -> (out: Result<
        ValidatedRecord,
        ResolveError,
    >)
        ensures
            sound(final(self)@),
            forall|r: RecordView| #[trigger] final(self).accepts(r) == old(self).accepts(r),
            match out {
                Ok(v) => v@ == validated(record@) && admitted(
                    old(self)@,
                    old(self).accepts(record@),
                    record@,
                    now,
                ) == Ok::<StoreView, ResolveError>(final(self)@),
                Err(e) => final(self)@ == old(self)@ && admitted(
                    old(self)@,
                    old(self).accepts(record@),
                    record@,
                    now,
                ) == Err::<StoreView, ResolveError>(e),
            },
    {
        proof {
            use_type_invariant(&*self);
        }
        match self.validate(&record, now) {
            Ok(_) => {},
            Err(e) => return Err(e),
        }
        let mut tables = Tables::empty();
        std::mem::swap(&mut self.tables, &mut tables);
        let newer = match record.kind {
            RecordKind::Revocation => {
                tables.apply_revocation(&record);
                true
            },
            RecordKind::Delegation => {
                tables.apply_delegation(&record);
                true
            },
            _ => tables.apply_record(&record),
        };
        if newer {
            tables.mark(&record);
        }
        self.tables = tables;
        if newer {
            Ok(validated_copy(&record))
        } else {
            Err(ResolveError::StaleSequence)
        }
    }

    /// The live records of a zone, in the order of kinds. Dead ones are
    /// dropped.
    pub fn lookup(&mut self, zone: ZoneId, now: u64) -> (out: Vec<ValidatedRecord>)
        requires
            now + NEGATIVE_TTL <= u64::MAX,
        ensures
            final(self)@ == after_lookup(old(self)@, zone@, now),
            records_view(out@) == zone_records(final(self)@, zone@, 6),
            forall|r: RecordView| #[trigger] final(self).accepts(r) == old(self).accepts(r),
            sound(final(self)@),
    {
        proof {
            use_type_invariant(&*self);
        }
        let mut tables = Tables::empty();
        std::mem::swap(&mut self.tables, &mut tables);
        let out = tables.lookup(zone, now);
        self.tables = tables;
        out
    }

    /// Whether a zone is known to have nothing live.
    pub fn is_negative(&self, zone: ZoneId, now: u64) -> (found: bool)
        ensures
            found == (self@.negative.dom().contains(zone@) && self@.negative[zone@] > now),
    {
        self.tables.is_negative(zone, now)
    }

    /// The highest sequence number ever admitted for a zone, zero without one.
    pub fn high_water(&self, zone: ZoneId) -> (seq: u64)
        ensures
            seq == newest(self@, zone@, 6),
    {
        self.tables.highest_mark(zone)
    }

    /// All live records, each once.
    pub fn live_records(&self) -> (out: Vec<ValidatedRecord>)
        ensures
            forall|i: int| 0 <= i < out@.len() ==> is_live(self@, (#[trigger] out@[i])@),
            forall|s: Seq<u8>| #[trigger]
                self@.live.dom().contains(s) ==> exists|i: int|
                    0 <= i < out@.len() && (#[trigger] out@[i])@ == self@.live[s],
            self@.live.dom().finite(),
            out@.len() == self@.live.dom().len(),
    {
        self.tables.live_records()
    }
}

/// What a decoding error is called in the log.
pub open spec fn fault_name(e: ResolveError) -> Seq<char> {
    match e {
        ResolveError::UnsupportedVersion(v) => "UnsupportedVersion("@ + dec_chars(v as nat) + ")"@,
        ResolveError::UnknownKind(k) => "UnknownKind("@ + dec_chars(k as nat) + ")"@,
        _ => "Malformed"@,
    }
}

/// The record of a log line.
pub open spec fn logged_record(line: Seq<char>) -> Result<RecordView, ResolveError> {
    if is_hex_text(trim(line)) {
        parsed_wire(hex_bytes(trim(line)))
    } else {
        Err(ResolveError::Malformed)
    }
}

/// The store after the first `n` lines of a log: records that are refused
/// now change nothing, a line that cannot be decoded is the error.
pub open spec fn replayed(
    empty: StoreView,
    accepts: spec_fn(RecordView) -> bool,
    lines: Seq<Seq<char>>,
    now: u64,
    n: nat,
) -> Result<StoreView, Seq<char>>
    decreases n,
{
    if n == 0 {
        Ok(empty)
    } else {
        match replayed(empty, accepts, lines, now, (n - 1) as nat) {
            Err(e) => Err(e),
            Ok(v) => match logged_record(lines[n - 1]) {
                Err(e) => Err("line "@ + dec_chars(n) + ": "@ + fault_name(e)),
                Ok(r) => match admitted(v, accepts(r), r, now) {
                    Ok(w) => Ok(w),
                    Err(_) => Ok(v),
                },
            },
        }
    }
}

/// A store that holds nothing.
pub open spec fn empty_store() -> StoreView {
    StoreView {
        live: Map::empty(),
        revocations: Map::empty(),
        authorized: Map::empty(),
        negative: Map::empty(),
        high_water: Map::empty(),
    }
}

/// What a decoding error is called in the log.
fn write_fault(e: &ResolveError) -> (out: String)
    ensures
        out@ == fault_name(*e),
{
    match e {
        ResolveError::UnsupportedVersion(v) => "UnsupportedVersion(".to_owned().concat(
            decimal(*v as u64).as_str(),
        ).concat(")"),
        ResolveError::UnknownKind(k) => "UnknownKind(".to_owned().concat(
            decimal(*k as u64).as_str(),
        ).concat(")"),
        _ => "Malformed".to_owned(),
    }
}

impl<P: CryptoProvider> LocalStore<P> {
    /// The line that a log keeps of a record.
    pub fn log_line(record: &SignedRecord) -> (line: String)
        ensures
            line@ == hex_chars(wire_form(1, record@)).push('\n'),
    {
        let envelope = Envelope { version: 1, record: record.clone() };
        let mut line = envelope.to_hex();
        line.push('\n');
        line
    }

    /// Fills a store, which has its root keys already, from the lines of a
    /// log.
    pub fn replay(&mut self, lines: &Vec<String>, now: u64) -> (out: Result<(), StoreError>)
        ensures
            sound(final(self)@),
            forall|r: RecordView| #[trigger] final(self).accepts(r) == old(self).accepts(r),
            match out {
                Ok(_) => replayed(
                    old(self)@,
                    |r: RecordView| old(self).accepts(r),
                    texts(lines@),
                    now,
                    lines@.len(),
                ) == Ok::<StoreView, Seq<char>>(final(self)@),
                Err(e) => replayed(
                    old(self)@,
                    |r: RecordView| old(self).accepts(r),
                    texts(lines@),
                    now,
                    lines@.len(),
                ) matches Err(t) && (e matches StoreError::Corrupt(c) && c@ == t),
            },
    {
        let ghost accepts = |r: RecordView| old(self).accepts(r);
        let ghost all = texts(lines@);
        let ghost start = self@;
        proof {
            use_type_invariant(&*self);
        }
        let mut i: usize = 0;
        while i < lines.len()
            invariant
                i <= lines@.len(),
                all == texts(lines@),
                accepts == (|r: RecordView| old(self).accepts(r)),
                start == old(self)@,
                sound(self@),
                forall|r: RecordView| #[trigger] self.accepts(r) == old(self).accepts(r),
                replayed(start, accepts, all, now, i as nat) == Ok::<StoreView, Seq<char>>(self@),
            decreases lines@.len() - i,
        {
            let text = trimmed(lines[i].as_str());
            assert(all[i as int] == lines@[i as int]@);
            match Envelope::from_hex(text.as_str()) {
                Err(e) => {
                    proof {
                        lemma_replay_stops(start, accepts, all, now, (i + 1) as nat, all.len());
                    }
                    return Err(
                        StoreError::Corrupt(
                            "line ".to_owned().concat(decimal(i as u64 + 1).as_str()).concat(
                                ": ",
                            ).concat(write_fault(&e).as_str()),
                        ),
                    );
                },
                Ok(envelope) => {
                    let ghost rv = envelope.record@;
                    assert(accepts(rv) == self.accepts(rv));
                    let _ = self.admit_record(envelope.record, now);
                },
            }
            i = i + 1;
        }
        Ok(())
    }
}

proof fn lemma_replay_stops(
    empty: StoreView,
    accepts: spec_fn(RecordView) -> bool,
    lines: Seq<Seq<char>>,
    now: u64,
    n: nat,
    m: nat,
)
    requires
        n <= m,
        replayed(empty, accepts, lines, now, n) is Err,
    ensures
        replayed(empty, accepts, lines, now, m) == replayed(empty, accepts, lines, now, n),
    decreases m - n,
{
    if n < m {
        lemma_replay_stops(empty, accepts, lines, now, n, (m - 1) as nat);
    }
}

/// The record is a live one.
pub open spec fn is_live(v: StoreView, r: ValidatedView) -> bool {
    exists|s: Seq<u8>| #[trigger] v.live.dom().contains(s) && v.live[s] == r
}

/// The values of records.
pub open spec fn records_view(s: Seq<ValidatedRecord>) -> Seq<ValidatedView> {
    Seq::new(s.len(), |i: int| s[i]@)
}

proof fn lemma_revocation_sound(v: StoreView, r: RecordView, w: StoreView)
    requires
        sound(v),
        w == after_revocation(v, r),
    ensures
        sound(w),
{
    if r.payload.len() == 8 {
        let up_to = le_value(r.payload) as u64;
        let old_list = listed(v.revocations, r.zone);
        let tomb = RevocationTombstone { seq: r.seq, invalidates_up_to: up_to };
        assert forall|s: Seq<u8>| #[trigger] w.live.dom().contains(s) implies {
            let x = w.live[s].record;
            &&& s == slot(x.zone, x.kind)
            &&& x.kind != RecordKind::Revocation
            &&& x.kind != RecordKind::Delegation
            &&& authorized(w, x.zone, x.signer)
            &&& !revoked(w, x.zone, x.seq)
        } by {
            assert(v.live.dom().contains(s));
            let x = w.live[s].record;
            assert(!revoked(v, x.zone, x.seq));
            if x.zone == r.zone && revoked(w, x.zone, x.seq) {
                let list = w.revocations[x.zone];
                let i = choose|i: int|
                    0 <= i < list.len() && x.seq <= (#[trigger] list[i]).invalidates_up_to;
                if i < old_list.len() {
                    assert(list[i] == old_list[i]);
                    assert(covered(old_list, x.seq));
                } else {
                    assert(list[i] == tomb);
                }
            }
        }
    }
}

proof fn lemma_record_sound(v: StoreView, r: RecordView)
    requires
        sound(v),
        authorized(v, r.zone, r.signer),
        !revoked(v, r.zone, r.seq),
        r.kind != RecordKind::Revocation,
        r.kind != RecordKind::Delegation,
    ensures
        sound(after_record(v, r)),
{
    let w = after_record(v, r);
    assert forall|s: Seq<u8>| #[trigger] w.live.dom().contains(s) implies {
        let x = w.live[s].record;
        &&& s == slot(x.zone, x.kind)
        &&& x.kind != RecordKind::Revocation
        &&& x.kind != RecordKind::Delegation
        &&& authorized(w, x.zone, x.signer)
        &&& !revoked(w, x.zone, x.seq)
    } by {
        if s != slot(r.zone, r.kind) {
            assert(v.live.dom().contains(s));
        }
    }
}

/// Soundness does not look at the caches.
proof fn lemma_sound_parts(v: StoreView, w: StoreView)
    requires
        v.live == w.live,
        v.authorized == w.authorized,
        v.revocations == w.revocations,
    ensures
        sound(v) ==> sound(w),
{
    if sound(v) {
        assert forall|s: Seq<u8>| #[trigger] w.live.dom().contains(s) implies {
            let x = w.live[s].record;
            &&& s == slot(x.zone, x.kind)
            &&& x.kind != RecordKind::Revocation
            &&& x.kind != RecordKind::Delegation
            &&& authorized(w, x.zone, x.signer)
            &&& !revoked(w, x.zone, x.seq)
        } by {
            assert(v.live.dom().contains(s));
        }
    }
}

proof fn lemma_pruned_sound(v: StoreView, zone: Seq<u8>, now: u64, n: nat)
    ensures
        sound(v) ==> sound(pruned(v, zone, now, n)),
        pruned(v, zone, now, n).authorized == v.authorized,
        pruned(v, zone, now, n).revocations == v.revocations,
        pruned(v, zone, now, n).negative == v.negative,
        pruned(v, zone, now, n).high_water == v.high_water,
        pruned(v, zone, now, n).live.dom().subset_of(v.live.dom()),
        forall|s: Seq<u8>| #[trigger]
            pruned(v, zone, now, n).live.dom().contains(s) ==> pruned(v, zone, now, n).live[s]
                == v.live[s],
    decreases n,
{
    if n > 0 {
        lemma_pruned_sound(v, zone, now, (n - 1) as nat);
        let w = pruned(v, zone, now, n);
        let u = pruned(v, zone, now, (n - 1) as nat);
        if sound(v) {
            assert forall|s: Seq<u8>| #[trigger] w.live.dom().contains(s) implies {
                let x = w.live[s].record;
                &&& s == slot(x.zone, x.kind)
                &&& x.kind != RecordKind::Revocation
                &&& x.kind != RecordKind::Delegation
                &&& authorized(w, x.zone, x.signer)
                &&& !revoked(w, x.zone, x.seq)
            } by {
                assert(u.live.dom().contains(s));
            }
        }
    }
}

proof fn lemma_zone_records_same(v: StoreView, w: StoreView, zone: Seq<u8>, n: nat)
    requires
        v.live == w.live,
    ensures
        zone_records(v, zone, n) == zone_records(w, zone, n),
    decreases n,
{
    if n > 0 {
        lemma_zone_records_same(v, w, zone, (n - 1) as nat);
    }
}

proof fn lemma_pruned_kinds(v: StoreView, zone: Seq<u8>, now: u64, n: nat, j: int)
    requires
        n <= 6,
        0 <= j < n,
    ensures
        !dead(pruned(v, zone, now, n), zone, kind_no(j), now),
    decreases n,
{
    let w = pruned(v, zone, now, n);
    let u = pruned(v, zone, now, (n - 1) as nat);
    lemma_pruned_sound(v, zone, now, n);
    lemma_pruned_sound(v, zone, now, (n - 1) as nat);
    if j < n - 1 {
        lemma_pruned_kinds(v, zone, now, (n - 1) as nat, j);
        if w.live.dom().contains(slot(zone, kind_no(j))) {
            assert(u.live.dom().contains(slot(zone, kind_no(j))));
        }
    }
}

/// After a lookup no live record of the zone is expired or revoked.
pub proof fn law_lookup_leaves_nothing_dead(
    v: StoreView,
    zone: Seq<u8>,
    now: u64,
    kind: RecordKind,
)
    ensures
        !dead(after_lookup(v, zone, now), zone, kind, now),
{
    let j = kind_tag(kind) - 1;
    assert(kind_no(j as int) == kind);
    lemma_pruned_kinds(v, zone, now, 6, j as int);
}

/// A revoked record is never admitted again, and no revocation is ever taken
/// back by what is admitted later.
pub proof fn law_revocations_hold_for_good(
    v: StoreView,
    accepted: bool,
    r: RecordView,
    now: u64,
    zone: Seq<u8>,
    seq: u64,
)
    requires
        revoked(v, zone, seq),
    ensures
        r.zone == zone && r.seq == seq ==> admitted(v, accepted, r, now) is Err,
        admitted(v, accepted, r, now) matches Ok(w) ==> revoked(w, zone, seq),
{
    if let Ok(w) = admitted(v, accepted, r, now) {
        if r.kind == RecordKind::Revocation && r.payload.len() == 8 && r.zone == zone {
            let list = v.revocations[zone];
            let i = choose|i: int|
                0 <= i < list.len() && seq <= (#[trigger] list[i]).invalidates_up_to;
            assert(w.revocations[zone][i] == list[i]);
        }
    }
}

/// A record that is not newer than the live one of its zone and kind is
/// refused; one that is admitted becomes the live one.
pub proof fn law_newer_record_wins(v: StoreView, r: RecordView, now: u64)
    requires
        r.kind != RecordKind::Revocation,
        r.kind != RecordKind::Delegation,
        record_fault(v, true, r, now) is None,
    ensures
        stale(v, r) ==> admitted(v, true, r, now) == Err::<StoreView, ResolveError>(
            ResolveError::StaleSequence,
        ),
        !stale(v, r) ==> (admitted(v, true, r, now) matches Ok(w) && w.live[slot(r.zone, r.kind)]
            == validated(r) && stale(w, r)),
{
}

proof fn lemma_newest_marked(v: StoreView, r: RecordView, zone: Seq<u8>, n: nat)
    requires
        n <= 6,
    ensures
        newest(marked(v, r), zone, n) == if zone == r.zone && kind_tag(r.kind) <= n && r.seq
            > newest(v, zone, n) {
            r.seq
        } else {
            newest(v, zone, n)
        },
    decreases n,
{
    if n > 0 {
        lemma_newest_marked(v, r, zone, (n - 1) as nat);
        let kind = kind_no(n - 1);
        assert(kind_tag(kind) == n);
        if slot(zone, kind) == slot(r.zone, r.kind) {
            lemma_slot_injective(zone, kind, r.zone, r.kind);
        } else if zone == r.zone && kind_tag(r.kind) == n {
            assert(kind == r.kind);
        }
    }
}

proof fn lemma_newest_same(v: StoreView, w: StoreView, zone: Seq<u8>, n: nat)
    requires
        v.high_water == w.high_water,
    ensures
        newest(v, zone, n) == newest(w, zone, n),
    decreases n,
{
    if n > 0 {
        lemma_newest_same(v, w, zone, (n - 1) as nat);
    }
}

/// The high water of a zone is the highest sequence number ever admitted for
/// it: an admitted record lifts it to its own number where that is higher,
/// and neither that nor a lookup lets it fall.
pub proof fn law_high_water_is_the_highest_admitted(
    v: StoreView,
    accepted: bool,
    r: RecordView,
    zone: Seq<u8>,
    now: u64,
)
    ensures
        admitted(v, accepted, r, now) matches Ok(w) ==> newest(w, zone, 6) == if zone == r.zone
            && r.seq > newest(v, zone, 6) {
            r.seq
        } else {
            newest(v, zone, 6)
        },
        newest(after_lookup(v, r.zone, now), zone, 6) == newest(v, zone, 6),
{
    if let Ok(w) = admitted(v, accepted, r, now) {
        let u = match r.kind {
            RecordKind::Revocation => after_revocation(v, r),
            RecordKind::Delegation => after_delegation(v, r),
            _ => after_record(v, r),
        };
        lemma_newest_same(v, u, zone, 6);
        lemma_newest_marked(u, r, zone, 6);
    }
    lemma_pruned_sound(v, r.zone, now, 6);
    lemma_newest_same(v, after_lookup(v, r.zone, now), zone, 6);
}

/// The high water of a zone never falls, whether a record is admitted or a
/// zone looked up.
pub proof fn law_high_water_never_falls(
    v: StoreView,
    accepted: bool,
    r: RecordView,
    looked_up: Seq<u8>,
    zone: Seq<u8>,
    now: u64,
)
    ensures
        admitted(v, accepted, r, now) matches Ok(w) ==> newest(v, zone, 6) <= newest(w, zone, 6),
        newest(v, zone, 6) <= newest(after_lookup(v, looked_up, now), zone, 6),
{
    law_high_water_is_the_highest_admitted(v, accepted, r, zone, now);
    lemma_pruned_sound(v, looked_up, now, 6);
    lemma_newest_same(v, after_lookup(v, looked_up, now), zone, 6);
}

/// No record of a zone without a registered key is admitted.
pub proof fn law_unanchored_zone_admits_nothing(
    v: StoreView,
    accepted: bool,
    r: RecordView,
    now: u64,
)
    requires
        !v.authorized.dom().contains(r.zone),
    ensures
        admitted(v, accepted, r, now) == Err::<StoreView, ResolveError>(
            ResolveError::BadSignature,
        ),
{
}

proof fn lemma_more_keys(v: StoreView, zone: Seq<u8>, key: Seq<u8>, w: StoreView)
    requires
        w == (StoreView {
            authorized: v.authorized.insert(zone, listed(v.authorized, zone).push(key)),
            ..v
        }),
    ensures
        sound(v) ==> sound(w),
        authorized(w, zone, key),
{
    let keys = listed(v.authorized, zone);
    assert(keys.push(key)[keys.len() as int] == key);
    if sound(v) {
        assert forall|s: Seq<u8>| #[trigger] w.live.dom().contains(s) implies authorized(
            w,
            w.live[s].record.zone,
            w.live[s].record.signer,
        ) by {
            let r = v.live[s].record;
            assert(v.live.dom().contains(s));
            if r.zone == zone {
                let i = keys.index_of(r.signer);
                assert(keys.push(key)[i] == r.signer);
            }
        }
        assert forall|s: Seq<u8>| #[trigger] w.live.dom().contains(s) implies !revoked(
            w,
            w.live[s].record.zone,
            w.live[s].record.seq,
        ) by {
            assert(v.live.dom().contains(s));
        }
    }
}

proof fn lemma_zone_records(v: StoreView, zone: Seq<u8>, n: nat)
    requires
        n <= 6,
    ensures
        forall|j: int|
            0 <= j < n && v.live.dom().contains(slot(zone, #[trigger] kind_no(j)))
                ==> zone_records(v, zone, n).contains(v.live[slot(zone, kind_no(j))]),
        forall|i: int|
            0 <= i < zone_records(v, zone, n).len() ==> exists|j: int|
                0 <= j < n && v.live.dom().contains(slot(zone, #[trigger] kind_no(j)))
                    && #[trigger] zone_records(v, zone, n)[i] == v.live[slot(zone, kind_no(j))],
    decreases n,
{
    if n > 0 {
        let m = (n - 1) as nat;
        lemma_zone_records(v, zone, m);
        let before = zone_records(v, zone, m);
        let all = zone_records(v, zone, n);
        assert forall|j: int|
            0 <= j < n && v.live.dom().contains(
                slot(zone, #[trigger] kind_no(j)),
            ) implies all.contains(v.live[slot(zone, kind_no(j))]) by {
            let r = v.live[slot(zone, kind_no(j))];
            if j < m {
                let i = before.index_of(r);
                assert(all[i] == r);
            } else {
                assert(all[all.len() - 1] == r);
            }
        }
        assert forall|i: int| 0 <= i < all.len() implies exists|j: int|
            0 <= j < n && v.live.dom().contains(slot(zone, #[trigger] kind_no(j)))
                && #[trigger] all[i] == v.live[slot(zone, kind_no(j))] by {
            if i < before.len() {
                let j = choose|j: int|
                    0 <= j < m && v.live.dom().contains(slot(zone, #[trigger] kind_no(j)))
                        && before[i] == v.live[slot(zone, kind_no(j))];
                assert(kind_no(j) == kind_no(j));
            } else {
                assert(all[i] == v.live[slot(zone, kind_no(m as int))]);
            }
        }
    }
}

/// A lookup returns every live record of the zone, whatever its kind and
/// whatever else is live, each once, and nothing else.
pub proof fn law_lookup_returns_every_live_record(v: StoreView, zone: Seq<u8>, now: u64)
    ensures
        ({
            let w = after_lookup(v, zone, now);
            let found = zone_records(w, zone, 6);
            &&& forall|kind: RecordKind|
                w.live.dom().contains(#[trigger] slot(zone, kind)) ==> found.contains(
                    w.live[slot(zone, kind)],
                )
            &&& forall|i: int|
                0 <= i < found.len() ==> exists|kind: RecordKind|
                    w.live.dom().contains(#[trigger] slot(zone, kind)) && #[trigger] found[i]
                        == w.live[slot(zone, kind)]
            &&& found.len() == (if w.live.dom().contains(zone.push(1u8)) {
                1nat
            } else {
                0nat
            }) + (if w.live.dom().contains(zone.push(2u8)) {
                1nat
            } else {
                0nat
            }) + (if w.live.dom().contains(zone.push(3u8)) {
                1nat
            } else {
                0nat
            }) + (if w.live.dom().contains(zone.push(4u8)) {
                1nat
            } else {
                0nat
            }) + (if w.live.dom().contains(zone.push(5u8)) {
                1nat
            } else {
                0nat
            }) + (if w.live.dom().contains(zone.push(6u8)) {
                1nat
            } else {
                0nat
            })
        }),
{
    let w = after_lookup(v, zone, now);
    let found = zone_records(w, zone, 6);
    lemma_zone_records(w, zone, 6);
    reveal_with_fuel(zone_records, 7);
    assert forall|kind: RecordKind| w.live.dom().contains(
        #[trigger] slot(zone, kind),
    ) implies found.contains(w.live[slot(zone, kind)]) by {
        let j = kind_tag(kind) - 1;
        assert(kind_no(j as int) == kind);
    }
    assert forall|i: int| 0 <= i < found.len() implies exists|kind: RecordKind|
        w.live.dom().contains(#[trigger] slot(zone, kind)) && #[trigger] found[i] == w.live[slot(
            zone,
            kind,
        )] by {
        let j = choose|j: int|
            0 <= j < 6 && w.live.dom().contains(slot(zone, #[trigger] kind_no(j))) && found[i]
                == w.live[slot(zone, kind_no(j))];
        assert(w.live.dom().contains(slot(zone, kind_no(j))));
    }
}

proof fn lemma_pruned_live(v: StoreView, zone: Seq<u8>, now: u64, n: nat, s: Seq<u8>)
    requires
        n <= 6,
    ensures
        pruned(v, zone, now, n).live.dom().contains(s) <==> v.live.dom().contains(s) && !exists|
            j: int,
        | 0 <= j < n && s == slot(zone, #[trigger] kind_no(j)) && dead(v, zone, kind_no(j), now),
    decreases n,
{
    if n > 0 {
        let m = (n - 1) as nat;
        lemma_pruned_live(v, zone, now, m, s);
        lemma_pruned_sound(v, zone, now, m);
        let u = pruned(v, zone, now, m);
        let kind = kind_no(m as int);
        let own = slot(zone, kind);
        lemma_pruned_live(v, zone, now, m, own);
        assert(u.live.dom().contains(own) == v.live.dom().contains(own)) by {
            if exists|j: int|
                0 <= j < m && own == slot(zone, #[trigger] kind_no(j)) && dead(
                    v,
                    zone,
                    kind_no(j),
                    now,
                ) {
                let j = choose|j: int|
                    0 <= j < m && own == slot(zone, #[trigger] kind_no(j)) && dead(
                        v,
                        zone,
                        kind_no(j),
                        now,
                    );
                lemma_slot_injective(zone, kind, zone, kind_no(j));
            }
        }
        assert(dead(u, zone, kind, now) == dead(v, zone, kind, now));
        let w = pruned(v, zone, now, n);
        if dead(v, zone, kind, now) && s == own {
            assert(s == slot(zone, kind_no(m as int)));
        }
        if v.live.dom().contains(s) && !w.live.dom().contains(s) && u.live.dom().contains(s) {
            assert(s == slot(zone, kind_no(m as int)) && dead(v, zone, kind_no(m as int), now));
        }
        if !u.live.dom().contains(s) && v.live.dom().contains(s) {
            let j = choose|j: int|
                0 <= j < m && s == slot(zone, #[trigger] kind_no(j)) && dead(
                    v,
                    zone,
                    kind_no(j),
                    now,
                );
            assert(s == slot(zone, kind_no(j)) && dead(v, zone, kind_no(j), now));
        }
    }
}

/// A lookup drops a record exactly where it is one of the zone and its expiry
/// has passed or a revocation of the zone covers its number. Every other
/// record stays as it is, and nothing else changes but the memory of zones
/// with nothing live.
pub proof fn law_lookup_drops_only_the_dead(
    v: StoreView,
    zone: Seq<u8>,
    now: u64,
    other: Seq<u8>,
    kind: RecordKind,
)
    requires
        now + 300 <= u64::MAX,
    ensures
        ({
            let w = after_lookup(v, zone, now);
            let s = slot(other, kind);
            let r = v.live[s].record;
            &&& w.live.dom().contains(s) <==> v.live.dom().contains(s) && !(other == zone && ((
            r.expires_at matches Some(e) && e < now) || (v.revocations.dom().contains(zone)
                && exists|i: int|
                0 <= i < v.revocations[zone].len() && r.seq <= (
                #[trigger] v.revocations[zone][i]).invalidates_up_to)))
            &&& w.live.dom().contains(s) ==> w.live[s] == v.live[s]
            &&& w.revocations == v.revocations
            &&& w.authorized == v.authorized
            &&& w.high_water == v.high_water
            &&& w.negative == if exists|k: RecordKind|
                w.live.dom().contains(#[trigger] slot(zone, k)) {
                v.negative.remove(zone)
            } else {
                v.negative.insert(zone, (now + 300) as u64)
            }
        }),
{
    let w = after_lookup(v, zone, now);
    let s = slot(other, kind);
    lemma_pruned_live(v, zone, now, 6, s);
    lemma_pruned_sound(v, zone, now, 6);
    let j = kind_tag(kind) - 1;
    assert(kind_no(j as int) == kind);
    if other == zone {
        if exists|j: int|
            0 <= j < 6 && s == slot(zone, #[trigger] kind_no(j)) && dead(v, zone, kind_no(j), now) {
            let j = choose|j: int|
                0 <= j < 6 && s == slot(zone, #[trigger] kind_no(j)) && dead(
                    v,
                    zone,
                    kind_no(j),
                    now,
                );
            lemma_slot_injective(zone, kind, zone, kind_no(j));
        }
    } else if exists|j: int|
        0 <= j < 6 && s == slot(zone, #[trigger] kind_no(j)) && dead(v, zone, kind_no(j), now) {
        let j = choose|j: int|
            0 <= j < 6 && s == slot(zone, #[trigger] kind_no(j)) && dead(v, zone, kind_no(j), now);
        lemma_slot_injective(other, kind, zone, kind_no(j));
    }
    let u = pruned(v, zone, now, 6);
    lemma_zone_records(u, zone, 6);
    let found = zone_records(u, zone, 6);
    if found.len() > 0 {
        let j = choose|j: int|
            0 <= j < 6 && u.live.dom().contains(slot(zone, #[trigger] kind_no(j))) && found[0]
                == u.live[slot(zone, kind_no(j))];
        assert(w.live.dom().contains(slot(zone, kind_no(j))));
    } else if exists|k: RecordKind| w.live.dom().contains(#[trigger] slot(zone, k)) {
        let k = choose|k: RecordKind| w.live.dom().contains(#[trigger] slot(zone, k));
        let i = kind_tag(k) - 1;
        assert(kind_no(i as int) == k);
        assert(found.contains(u.live[slot(zone, k)]));
    }
}

/// A record is admitted exactly where its signature holds, its signer is a
/// key of the zone, it has not expired, no revocation of the zone covers its
/// number, and, unless it is a revocation or a delegation, it is newer than
/// the live record of its zone and kind.
pub proof fn law_admission(v: StoreView, accepted: bool, r: RecordView, now: u64)
    ensures
        ({
            let signed = accepted && v.authorized.dom().contains(r.zone)
                && v.authorized[r.zone].contains(r.signer);
            let expired = r.expires_at matches Some(e) && e < now;
            let revoked = v.revocations.dom().contains(r.zone) && exists|i: int|
                0 <= i < v.revocations[r.zone].len() && r.seq <= (
                #[trigger] v.revocations[r.zone][i]).invalidates_up_to;
            let older = r.kind != RecordKind::Revocation && r.kind != RecordKind::Delegation
                && v.live.dom().contains(slot(r.zone, r.kind)) && v.live[slot(
                r.zone,
                r.kind,
            )].record.seq >= r.seq;
            match admitted(v, accepted, r, now) {
                Ok(_) => signed && !expired && !revoked && !older,
                Err(ResolveError::BadSignature) => !signed,
                Err(ResolveError::Revoked) => signed && (expired || revoked),
                Err(ResolveError::StaleSequence) => signed && !expired && !revoked && older,
                Err(_) => false,
            }
        }),
{
}

/// An admitted record takes the place of its zone and kind, as it is, and no
/// other record is touched; the zone is no longer one with nothing live.
pub proof fn law_admitted_record_is_live(v: StoreView, r: RecordView, now: u64, s: Seq<u8>)
    requires
        r.kind != RecordKind::Revocation,
        r.kind != RecordKind::Delegation,
    ensures
        admitted(v, true, r, now) matches Ok(w) ==> {
            &&& w.live.dom().contains(slot(r.zone, r.kind))
            &&& w.live[slot(r.zone, r.kind)].record == r
            &&& s != slot(r.zone, r.kind) ==> (w.live.dom().contains(s) <==> v.live.dom().contains(
                s,
            )) && w.live[s] == v.live[s]
            &&& w.negative == v.negative.remove(r.zone)
            &&& w.authorized == v.authorized
            &&& w.revocations == v.revocations
        },
{
}

/// A delegation lets the key that its payload starts with sign for the zone,
/// and changes neither what is live nor any other key.
pub proof fn law_delegated_keys_may_sign(
    v: StoreView,
    r: RecordView,
    now: u64,
    zone: Seq<u8>,
    key: Seq<u8>,
)
    requires
        r.kind == RecordKind::Delegation,
    ensures
        admitted(v, true, r, now) matches Ok(w) ==> {
            &&& w.live == v.live
            &&& w.revocations == v.revocations
            &&& w.negative == v.negative
            &&& (w.authorized.dom().contains(zone) && w.authorized[zone].contains(key)) <==> (
            v.authorized.dom().contains(zone) && v.authorized[zone].contains(key)) || (
            r.payload.len() >= 32 && zone == r.zone && key == r.payload.take(32))
        },
{
    if let Ok(w) = admitted(v, true, r, now) {
        if r.payload.len() >= 32 && zone == r.zone {
            let keys = v.authorized[zone];
            let more = keys.push(r.payload.take(32));
            assert(w.authorized[zone] == more);
            assert(more[keys.len() as int] == r.payload.take(32));
            if keys.contains(key) {
                let i = keys.index_of(key);
                assert(more[i] == key);
            }
            if more.contains(key) {
                let i = more.index_of(key);
                if i < keys.len() {
                    assert(keys[i] == key);
                }
            }
        }
    }
}

/// A revocation kills the records of its zone up to the number that its
/// payload spells, now and for good, and no others: neither those of other
/// zones nor newer ones.
pub proof fn law_revocation_kills_up_to_its_number(
    v: StoreView,
    r: RecordView,
    now: u64,
    other: Seq<u8>,
    kind: RecordKind,
    seq: u64,
)
    requires
        sound(v),
        r.kind == RecordKind::Revocation,
        r.payload.len() == 8,
    ensures
        admitted(v, true, r, now) matches Ok(w) ==> {
            let up_to = le_value(r.payload);
            let s = slot(other, kind);
            &&& w.live.dom().contains(s) <==> v.live.dom().contains(s) && !(other == r.zone
                && v.live[s].record.seq <= up_to)
            &&& w.live.dom().contains(s) ==> w.live[s] == v.live[s]
            &&& w.authorized == v.authorized
            &&& w.negative == v.negative
            &&& revoked(w, r.zone, seq) <==> revoked(v, r.zone, seq) || seq <= up_to
            &&& other != r.zone ==> (revoked(w, other, seq) <==> revoked(v, other, seq))
        },
{
    crate::bytes::lemma_le_value(r.payload);
    crate::bytes::lemma_pow256();
    if let Ok(w) = admitted(v, true, r, now) {
        let s = slot(other, kind);
        if v.live.dom().contains(s) {
            let x = v.live[s].record;
            lemma_slot_injective(other, kind, x.zone, x.kind);
        }
        let old_list = listed(v.revocations, r.zone);
        let list = w.revocations[r.zone];
        let tomb = RevocationTombstone {
            seq: r.seq,
            invalidates_up_to: le_value(r.payload) as u64,
        };
        assert(list == old_list.push(tomb));
        assert(list[old_list.len() as int] == tomb);
        if covered(old_list, seq) {
            let i = choose|i: int|
                0 <= i < old_list.len() && seq <= (#[trigger] old_list[i]).invalidates_up_to;
            assert(list[i] == old_list[i]);
        }
        if covered(list, seq) {
            let i = choose|i: int|
                0 <= i < list.len() && seq <= (#[trigger] list[i]).invalidates_up_to;
            if i < old_list.len() {
                assert(old_list[i] == list[i]);
            }
        }
    }
}

/// A replay admits the records of its lines one after the other: a line more
/// is what admission makes of its record, and a refused one changes nothing.
pub proof fn law_replay_admits_line_by_line(
    start: StoreView,
    accepts: spec_fn(RecordView) -> bool,
    lines: Seq<Seq<char>>,
    line: Seq<char>,
    now: u64,
)
    requires
        replayed(start, accepts, lines, now, lines.len()) is Ok,
        logged_record(line) is Ok,
    ensures
        ({
            let v = replayed(start, accepts, lines, now, lines.len())->Ok_0;
            let r = logged_record(line)->Ok_0;
            replayed(start, accepts, lines.push(line), now, lines.len() + 1) == Ok::<
                StoreView,
                Seq<char>,
            >(
                match admitted(v, accepts(r), r, now) {
                    Ok(w) => w,
                    Err(_) => v,
                },
            )
        }),
        replayed(start, accepts, Seq::empty(), now, 0) == Ok::<StoreView, Seq<char>>(start),
{
    lemma_replay_prefix(start, accepts, lines, lines.push(line), now, lines.len());
}

proof fn lemma_replay_prefix(
    start: StoreView,
    accepts: spec_fn(RecordView) -> bool,
    a: Seq<Seq<char>>,
    b: Seq<Seq<char>>,
    now: u64,
    n: nat,
)
    requires
        n <= a.len() <= b.len(),
        forall|i: int| 0 <= i < n ==> a[i] == #[trigger] b[i],
    ensures
        replayed(start, accepts, a, now, n) == replayed(start, accepts, b, now, n),
    decreases n,
{
    if n > 0 {
        lemma_replay_prefix(start, accepts, a, b, now, (n - 1) as nat);
        assert(a[n - 1] == b[n - 1]);
    }
}

/// A record that was written to the log is read back from its line.
pub proof fn law_logged_records_are_read_back(r: RecordView)
    requires
        r.zone.len() == 32,
        r.signer.len() == 32,
        r.signature.len() == 64,
        r.payload.len() <= u64::MAX,
        r.expires_at != Some(u64::MAX),
    ensures
        logged_record(hex_chars(wire_form(1, r))) == Ok::<RecordView, ResolveError>(r),
        logged_record(hex_chars(wire_form(1, r)).push('\n')) == Ok::<RecordView, ResolveError>(r),
{
    crate::resolver::model::law_hex_form_round_trip(r);
    let b = wire_form(1, r);
    let h = hex_chars(b);
    crate::hex_text::law_hex_round_trip(b);
    assert(b.len() > 0);
    assert(crate::hex_text::is_hex_digit(h[0]));
    assert(crate::hex_text::is_hex_digit(h[h.len() - 1]));
    lemma_trim_line(h);
}

/// What neither starts nor ends in white space is its own trimmed form, also
/// with a newline behind it.
proof fn lemma_trim_line(s: Seq<char>)
    requires
        s.len() > 0,
        !crate::text::is_white(s[0]),
        !crate::text::is_white(s.last()),
    ensures
        trim(s) == s,
        trim(s.push('\n')) == s,
{
    assert(s.push('\n')[0] == s[0]);
    assert(s.push('\n').drop_last() =~= s);
    assert(crate::text::trim_end(s) == s);
    assert(crate::text::trim_start(s.push('\n')) == s.push('\n'));
}

/// Replay stops at the first line that is no record, and tells its number and
/// what is wrong with it; nothing after it is read.
pub proof fn law_replay_stops_at_the_first_bad_line(
    start: StoreView,
    accepts: spec_fn(RecordView) -> bool,
    lines: Seq<Seq<char>>,
    now: u64,
    n: nat,
)
    requires
        0 < n <= lines.len(),
        forall|i: int| 0 <= i < n - 1 ==> logged_record(#[trigger] lines[i]) is Ok,
        logged_record(lines[n - 1]) is Err,
    ensures
        replayed(start, accepts, lines, now, lines.len()) == Err::<StoreView, Seq<char>>(
            "line "@ + dec_chars(n) + ": "@ + match logged_record(lines[n - 1])->Err_0 {
                ResolveError::UnsupportedVersion(v) => "UnsupportedVersion("@ + dec_chars(v as nat)
                    + ")"@,
                ResolveError::UnknownKind(k) => "UnknownKind("@ + dec_chars(k as nat) + ")"@,
                _ => "Malformed"@,
            },
        ),
{
    lemma_replay_goes_on(start, accepts, lines, now, (n - 1) as nat);
    lemma_replay_failed(start, accepts, lines, now, n, lines.len());
}

/// Replay goes on while every line is a record.
proof fn lemma_replay_goes_on(
    start: StoreView,
    accepts: spec_fn(RecordView) -> bool,
    lines: Seq<Seq<char>>,
    now: u64,
    n: nat,
)
    requires
        n <= lines.len(),
        forall|i: int| 0 <= i < n ==> logged_record(#[trigger] lines[i]) is Ok,
    ensures
        replayed(start, accepts, lines, now, n) is Ok,
    decreases n,
{
    if n > 0 {
        lemma_replay_goes_on(start, accepts, lines, now, (n - 1) as nat);
    }
}

/// A replay that failed stays as it is.
proof fn lemma_replay_failed(
    start: StoreView,
    accepts: spec_fn(RecordView) -> bool,
    lines: Seq<Seq<char>>,
    now: u64,
    n: nat,
    end: nat,
)
    requires
        n <= end,
        replayed(start, accepts, lines, now, n) is Err,
    ensures
        replayed(start, accepts, lines, now, end) == replayed(start, accepts, lines, now, n),
    decreases end,
{
    if n < end {
        lemma_replay_failed(start, accepts, lines, now, n, (end - 1) as nat);
    }
}

/// A revocation whose payload is no number revokes nothing; its own number is
/// noted all the same.
pub proof fn law_odd_revocations_revoke_nothing(v: StoreView, r: RecordView, now: u64)
    requires
        r.kind == RecordKind::Revocation,
        r.payload.len() != 8,
    ensures
        admitted(v, true, r, now) matches Ok(w) ==> w.live == v.live && w.revocations
            == v.revocations && w.authorized == v.authorized && w.negative == v.negative
            && w.high_water.dom() == v.high_water.dom().insert(slot(r.zone, r.kind)),
{
    if let Ok(w) = admitted(v, true, r, now) {
        assert(w.high_water.dom() =~= v.high_water.dom().insert(slot(r.zone, r.kind)));
    }
}

/// A new store holds nothing and trusts no key, so it admits nothing.
pub proof fn law_new_stores_admit_nothing(
    accepted: bool,
    r: RecordView,
    now: u64,
    zone: Seq<u8>,
    kind: RecordKind,
    seq: u64,
)
    ensures
        admitted(empty_store(), accepted, r, now) is Err,
        !empty_store().live.dom().contains(slot(zone, kind)),
        !revoked(empty_store(), zone, seq),
{
}

} // verus!
