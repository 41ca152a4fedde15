//! Key rotation chains.
//!
//! Each hop leads from an old key to a new one, attested by a signature of
//! the old key over a tagged binding of both. Walking the log from a trusted
//! key gives the current key, and nothing else moves the trust.

use crate::hex_text::{
    decode_hex, encode_hex, hex_bytes, hex_chars, hex_fault, is_hex_text, law_hex_round_trip,
};
use crate::identity::{
    canonical_v1, IdentityError, IdentityErrorView, RecordView, SiteIdentity, SIG_V1_TAG,
};
use crate::keys::{
    array32, array64, ed25519_key_fault, ed25519_signature, ed25519_strict_fault, Signature,
    VerifyingKey,
};
use crate::table::TextMap;
use crate::text::{dec_chars, decimal};
use vstd::prelude::*;
use vstd::string::*;
use vstd::utf8::*;

verus! {

/// Tag of the binding of two keys.
pub const ROTATION_TAG: &'static str = "nexus/v1/rotation";

/// One hop: the owner of the key in the log attests the new one.
#[derive(Debug, Clone, PartialEq, Eq)]
pub struct RotationEntry {
    pub new_pub_hex: String,
    pub signature_hex: String,
}

/// A log of hops, by the old key in hexadecimal.
#[derive(Debug, Clone)]
pub struct RotationLog {
    pub entries: TextMap<RotationEntry>,
}

/// The tagged binding of an old key to a new one.
pub open spec fn binding(old_hex: Seq<char>, new_hex: Seq<char>) -> Seq<u8> {
    encode_utf8(ROTATION_TAG@) + seq![0u8] + encode_utf8(old_hex) + seq![0u8] + encode_utf8(new_hex)
}

/// What a broken hop says: where, and why.
pub open spec fn hop_text(hop: Seq<char>, why: Seq<char>) -> Seq<char> {
    "hop "@ + hop + ": "@ + why
}

/// The signature bytes of a hop.
pub open spec fn hop_signature(signature_hex: Seq<char>, hop: Seq<char>) -> Result<
    Seq<u8>,
    Seq<char>,
> {
    let bytes = hex_bytes(signature_hex);
    if !is_hex_text(signature_hex) {
        Err(hop_text(hop, hex_fault(signature_hex)))
    } else if bytes.len() != 64 {
        Err(hop_text(hop, "expected 64-byte signature, got "@ + dec_chars(bytes.len())))
    } else {
        Ok(bytes)
    }
}

/// The public key that a hop leads to.
pub open spec fn hop_key(pub_hex: Seq<char>, hop: Seq<char>) -> Result<Seq<u8>, Seq<char>> {
    let bytes = hex_bytes(pub_hex);
    if !is_hex_text(pub_hex) {
        Err(hop_text(hop, hex_fault(pub_hex)))
    } else if bytes.len() != 32 {
        Err(hop_text(hop, "expected 32-byte key, got "@ + dec_chars(bytes.len())))
    } else {
        match ed25519_key_fault(bytes) {
            Some(e) => Err(hop_text(hop, e)),
            None => Ok(bytes),
        }
    }
}

/// The key behind one hop: the signature has to be that of the key before
/// it, over the binding of both.
pub open spec fn followed(entry: RotationEntry, key: Seq<u8>, hop: Seq<char>) -> Result<
    Seq<u8>,
    Seq<char>,
> {
    match hop_signature(entry.signature_hex@, hop) {
        Err(e) => Err(e),
        Ok(sig) => match ed25519_strict_fault(key, binding(hop, entry.new_pub_hex@), sig) {
            Some(e) => Err(hop_text(hop, e)),
            None => hop_key(entry.new_pub_hex@, hop),
        },
    }
}

/// The key at the end of the chain that starts at `key`, known to the log as
/// `hop`, where the hops in `seen` have been taken already.
pub open spec fn chain_end(
    log: Map<Seq<char>, RotationEntry>,
    key: Seq<u8>,
    hop: Seq<char>,
    seen: Set<Seq<char>>,
) -> Result<Seq<u8>, Seq<char>>
    decreases log.dom().difference(seen).len(),
    when log.dom().finite()
{
    if seen.contains(hop) {
        Err("cycle detected at "@ + hop)
    } else if !log.dom().contains(hop) {
        Ok(key)
    } else {
        match followed(log[hop], key, hop) {
            Err(e) => Err(e),
            Ok(next) => {
                proof {
                    lemma_seen_grows(log.dom(), seen, hop);
                }
                chain_end(log, next, log[hop].new_pub_hex@, seen.insert(hop))
            },
        }
    }
}

/// A hop that is taken is no longer among those to take.
pub proof fn lemma_seen_grows(dom: Set<Seq<char>>, seen: Set<Seq<char>>, hop: Seq<char>)
    requires
        dom.finite(),
        dom.contains(hop),
        !seen.contains(hop),
    ensures
        dom.difference(seen.insert(hop)).len() < dom.difference(seen).len(),
{
    assert(dom.difference(seen.insert(hop)) =~= dom.difference(seen).remove(hop));
    vstd::set_lib::lemma_len_difference(dom, seen);
}

/// The current key of a chain that starts at a trusted key.
pub open spec fn current_key(log: Map<Seq<char>, RotationEntry>, from: Seq<u8>) -> Result<
    Seq<u8>,
    Seq<char>,
> {
    chain_end(log, from, hex_chars(from), Set::empty())
}

/// What a hop error says.
fn write_hop(hop: &str, why: &str) -> (out: String)
    ensures
        out@ == hop_text(hop@, why@),
{
    "hop ".to_owned().concat(hop).concat(": ").concat(why)
}

/// The signature of a hop.
fn decode_rotation_signature(signature_hex: &str, hop: &str) -> (out: Result<
    Signature,
    IdentityError,
>)
    ensures
        match out {
            Ok(sig) => hop_signature(signature_hex@, hop@) == Ok::<Seq<u8>, Seq<char>>(sig@),
            Err(e) => hop_signature(signature_hex@, hop@) matches Err(t) && e@
                == IdentityErrorView::BrokenChain(t),
        },
{
    let bytes = match decode_hex(signature_hex) {
        Ok(b) => b,
        Err(e) => return Err(IdentityError::BrokenChain(write_hop(hop, e.as_str()))),
    };
    if bytes.len() != 64 {
        let why = "expected 64-byte signature, got ".to_owned().concat(
            decimal(bytes.len() as u64).as_str(),
        );
        return Err(IdentityError::BrokenChain(write_hop(hop, why.as_str())));
    }
    Ok(Signature::from_bytes(&array64(bytes.as_slice())))
}

/// The key that a hop leads to.
fn parse_verifying_key(pub_hex: &str, hop: &str) -> (out: Result<VerifyingKey, IdentityError>)
    ensures
        match out {
            Ok(key) => hop_key(pub_hex@, hop@) == Ok::<Seq<u8>, Seq<char>>(key@),
            Err(e) => hop_key(pub_hex@, hop@) matches Err(t) && e@
                == IdentityErrorView::BrokenChain(t),
        },
{
    let bytes = match decode_hex(pub_hex) {
        Ok(b) => b,
        Err(e) => return Err(IdentityError::BrokenChain(write_hop(hop, e.as_str()))),
    };
    if bytes.len() != 32 {
        let why = "expected 32-byte key, got ".to_owned().concat(
            decimal(bytes.len() as u64).as_str(),
        );
        return Err(IdentityError::BrokenChain(write_hop(hop, why.as_str())));
    }
    match VerifyingKey::from_bytes(&array32(bytes.as_slice())) {
        Ok(key) => Ok(key),
        Err(e) => Err(IdentityError::BrokenChain(write_hop(hop, e.as_str()))),
    }
}

impl Default for RotationLog {
    fn default() -> (log: Self)
        ensures
            log.entries@ == Map::<Seq<char>, RotationEntry>::empty(),
    {
        RotationLog { entries: TextMap::new() }
    }
}

impl RotationLog {
    /// The tagged binding of an old key to a new one.
    pub fn canonical_binding(old_hex: &str, new_hex: &str) -> (out: Vec<u8>)
        ensures
            out@ == binding(old_hex@, new_hex@),
    {
        let mut out: Vec<u8> = Vec::new();
        out.extend_from_slice(ROTATION_TAG.as_bytes());
        out.push(0);
        out.extend_from_slice(old_hex.as_bytes());
        out.push(0);
        out.extend_from_slice(new_hex.as_bytes());
        assert(out@ =~= binding(old_hex@, new_hex@));
        out
    }

    /// Records a hop: the old key signs the binding. A hop that the old key
    /// had before is replaced.
    pub fn rotate(&mut self, from: &SiteIdentity, to: &SiteIdentity) -> (out: Result<
        (),
        IdentityError,
    >)
        ensures
            match (from.signing, out) {
                (Some(key), Ok(_)) => {
                    let from_hex = hex_chars(from.verify@);
                    let to_hex = hex_chars(to.verify@);
                    let entry = final(self).entries@[from_hex];
                    &&& final(self).entries@ == old(self).entries@.insert(from_hex, entry)
                    &&& entry.new_pub_hex@ == to_hex
                    &&& entry.signature_hex@ == hex_chars(
                        ed25519_signature(key@, binding(from_hex, to_hex)),
                    )
                },
                (None, Err(e)) => *final(self) == *old(self) && e@ == IdentityErrorView::KeyFile(
                    "cannot rotate from a public-only key"@,
                ),
                _ => false,
            },
    {
        let from_hex = from.site_id();
        let to_hex = to.site_id();
        let signer = match &from.signing {
            Some(key) => key,
            None => {
                return Err(
                    IdentityError::KeyFile("cannot rotate from a public-only key".to_owned()),
                );
            },
        };
        let message = Self::canonical_binding(from_hex.as_str(), to_hex.as_str());
        let sig = signer.sign(message.as_slice()).to_bytes();
        let entry = RotationEntry {
            new_pub_hex: to_hex,
            signature_hex: encode_hex(sig.as_slice()),
        };
        self.entries.insert(from_hex, entry);
        Ok(())
    }

    /// Walks the chain from a trusted key and gives the current one. Each
    /// hop is checked under the key before it.
    pub fn verify_rotation_chain(&self, from: &VerifyingKey) -> (out: Result<
        VerifyingKey,
        IdentityError,
    >)
        ensures
            match out {
                Ok(key) => current_key(self.entries@, from@) == Ok::<Seq<u8>, Seq<char>>(key@),
                Err(e) => current_key(self.entries@, from@) matches Err(t) && e@
                    == IdentityErrorView::BrokenChain(t),
            },
    {
        self.entries.order_facts();
        let mut current: VerifyingKey = *from;
        let mut hop = encode_hex(from.as_bytes().as_slice());
        let mut seen: TextMap<()> = TextMap::new();
        assert(seen@.dom() =~= Set::empty());
        loop
            invariant
                self.entries@.dom().finite(),
                current_key(self.entries@, from@) == chain_end(
                    self.entries@,
                    current@,
                    hop@,
                    seen@.dom(),
                ),
            decreases self.entries@.dom().difference(seen@.dom()).len(),
        {
            if seen.contains_key(hop.as_str()) {
                return Err(
                    IdentityError::BrokenChain(
                        "cycle detected at ".to_owned().concat(hop.as_str()),
                    ),
                );
            }
            let entry = match self.entries.get(hop.as_str()) {
                Some(entry) => entry,
                None => return Ok(current),
            };
            let sig = match decode_rotation_signature(entry.signature_hex.as_str(), hop.as_str()) {
                Ok(sig) => sig,
                Err(e) => return Err(e),
            };
            let message = Self::canonical_binding(hop.as_str(), entry.new_pub_hex.as_str());
            if let Err(e) = current.verify_strict(message.as_slice(), &sig) {
                return Err(IdentityError::BrokenChain(write_hop(hop.as_str(), e.as_str())));
            }
            let next = match parse_verifying_key(entry.new_pub_hex.as_str(), hop.as_str()) {
                Ok(key) => key,
                Err(e) => return Err(e),
            };
            let ghost before = seen@.dom();
            proof {
                lemma_seen_grows(self.entries@.dom(), before, hop@);
            }
            let new_hop = entry.new_pub_hex.clone();
            let ghost taken = hop@;
            seen.insert(hop, ());
            assert(seen@.dom() =~= before.insert(taken));
            current = next;
            hop = new_hop;
        }
    }
}

/// A key without a hop is the end of its own chain.
pub proof fn law_unrotated_key_is_its_own_end(
    log: Map<Seq<char>, RotationEntry>,
    key: Seq<u8>,
)
    requires
        log.dom().finite(),
        !log.dom().contains(hex_chars(key)),
    ensures
        current_key(log, key) == Ok::<Seq<u8>, Seq<char>>(key),
{
}

/// A hop with a good signature to a key that has none of its own moves the
/// trust to that key.
pub proof fn law_good_hop_moves_trust(
    log: Map<Seq<char>, RotationEntry>,
    old: Seq<u8>,
    new: Seq<u8>,
)
    requires
        log.dom().finite(),
        log.dom().contains(hex_chars(old)),
        !log.dom().contains(hex_chars(new)),
        log[hex_chars(old)].new_pub_hex@ == hex_chars(new),
        followed(log[hex_chars(old)], old, hex_chars(old)) is Ok,
    ensures
        current_key(log, old) == Ok::<Seq<u8>, Seq<char>>(new),
{
    law_hex_round_trip(new);
    reveal_with_fuel(chain_end, 2);
    lemma_seen_grows(log.dom(), Set::empty(), hex_chars(old));
}

/// Two keys that lead to each other give no key at all.
pub proof fn law_cycle_is_refused(
    log: Map<Seq<char>, RotationEntry>,
    a: Seq<u8>,
    b: Seq<u8>,
)
    requires
        log.dom().finite(),
        log.dom().contains(hex_chars(a)),
        log.dom().contains(hex_chars(b)),
        a != b,
        log[hex_chars(a)].new_pub_hex@ == hex_chars(b),
        log[hex_chars(b)].new_pub_hex@ == hex_chars(a),
        followed(log[hex_chars(a)], a, hex_chars(a)) is Ok,
        followed(log[hex_chars(b)], b, hex_chars(b)) is Ok,
    ensures
        current_key(log, a) == Err::<Seq<u8>, Seq<char>>("cycle detected at "@ + hex_chars(a)),
{
    law_hex_round_trip(a);
    law_hex_round_trip(b);
    reveal_with_fuel(chain_end, 3);
    lemma_seen_grows(log.dom(), Set::empty(), hex_chars(a));
    lemma_seen_grows(log.dom(), Set::empty().insert(hex_chars(a)), hex_chars(b));
}

/// A hop whose signature the key before it does not bear out breaks the
/// chain.
pub proof fn law_unsigned_hop_breaks_the_chain(
    log: Map<Seq<char>, RotationEntry>,
    key: Seq<u8>,
)
    requires
        log.dom().finite(),
        log.dom().contains(hex_chars(key)),
        ed25519_strict_fault(
            key,
            binding(hex_chars(key), log[hex_chars(key)].new_pub_hex@),
            hex_bytes(log[hex_chars(key)].signature_hex@),
        ) is Some,
    ensures
        current_key(log, key) is Err,
{
}

/// No signed record is a signed rotation: the two signed forms differ
/// whatever they hold.
pub proof fn law_signing_domains_are_apart(
    r: RecordView,
    old_hex: Seq<char>,
    new_hex: Seq<char>,
)
    ensures
        canonical_v1(r) != binding(old_hex, new_hex),
{
    reveal_strlit("nexus/v1/record");
    reveal_strlit("nexus/v1/rotation");
    is_ascii_chars_encode_utf8(SIG_V1_TAG@);
    is_ascii_chars_encode_utf8(ROTATION_TAG@);
    assert(SIG_V1_TAG@[10] == 'e');
    assert(ROTATION_TAG@[10] == 'o');
    assert(canonical_v1(r)[10] == encode_utf8(SIG_V1_TAG@)[10]);
    assert(binding(old_hex, new_hex)[10] == encode_utf8(ROTATION_TAG@)[10]);
}

/// A hop is followed exactly where its signature of 64 bytes is good, strictly,
/// under the key before it over both names with the rotation tag, and it names
/// a key; trust then moves to the key that it names.
pub proof fn law_when_hops_are_followed(entry: RotationEntry, key: Seq<u8>, hop: Seq<char>)
    ensures
        ({
            let form = encode_utf8("nexus/v1/rotation"@) + seq![0u8] + encode_utf8(hop) + seq![0u8]
                + encode_utf8(entry.new_pub_hex@);
            let next = hex_bytes(entry.new_pub_hex@);
            &&& followed(entry, key, hop) is Ok <==> {
                &&& is_hex_text(entry.signature_hex@)
                &&& entry.signature_hex@.len() == 128
                &&& ed25519_strict_fault(key, form, hex_bytes(entry.signature_hex@)) is None
                &&& is_hex_text(entry.new_pub_hex@)
                &&& entry.new_pub_hex@.len() == 64
                &&& ed25519_key_fault(next) is None
            }
            &&& followed(entry, key, hop) matches Ok(k) ==> k == next
        }),
{
}

proof fn lemma_fewer_seen(
    log: Map<Seq<char>, RotationEntry>,
    key: Seq<u8>,
    hop: Seq<char>,
    seen: Set<Seq<char>>,
    fewer: Set<Seq<char>>,
)
    requires
        log.dom().finite(),
        fewer.subset_of(seen),
        chain_end(log, key, hop, seen) is Ok,
    ensures
        chain_end(log, key, hop, fewer) == chain_end(log, key, hop, seen),
    decreases log.dom().difference(seen).len(),
{
    if log.dom().contains(hop) {
        let next = followed(log[hop], key, hop)->Ok_0;
        lemma_seen_grows(log.dom(), seen, hop);
        assert(fewer.insert(hop).subset_of(seen.insert(hop)));
        lemma_fewer_seen(
            log,
            next,
            log[hop].new_pub_hex@,
            seen.insert(hop),
            fewer.insert(hop),
        );
    }
}

/// Trust is moved hop by hop: where a chain holds, its end is that of the
/// chain that starts behind its first hop, and a chain with a bad first hop
/// does not hold.
pub proof fn law_chains_are_followed_hop_by_hop(
    log: Map<Seq<char>, RotationEntry>,
    key: Seq<u8>,
    next: Seq<u8>,
)
    requires
        log.dom().finite(),
        log.dom().contains(hex_chars(key)),
        log[hex_chars(key)].new_pub_hex@ == hex_chars(next),
    ensures
        current_key(log, key) is Ok ==> followed(log[hex_chars(key)], key, hex_chars(key)) == Ok::<
            Seq<u8>,
            Seq<char>,
        >(next) && current_key(log, key) == current_key(log, next),
        followed(log[hex_chars(key)], key, hex_chars(key)) is Err ==> current_key(log, key) is Err,
{
    let hop = hex_chars(key);
    crate::hex_text::law_hex_round_trip(next);
    if current_key(log, key) is Ok {
        assert(hex_bytes(log[hop].new_pub_hex@) == next);
        let one = Set::<Seq<char>>::empty().insert(hop);
        assert(chain_end(log, next, hex_chars(next), one) is Ok);
        lemma_fewer_seen(log, next, hex_chars(next), one, Set::empty());
    }
}

/// The end of a chain has no hop of its own: wherever a chain ends, nothing
/// newer was attested.
pub proof fn law_chains_end_at_the_newest_key(
    log: Map<Seq<char>, RotationEntry>,
    key: Seq<u8>,
    hop: Seq<char>,
    seen: Set<Seq<char>>,
)
    requires
        log.dom().finite(),
        chain_end(log, key, hop, seen) is Ok,
        hop == hex_chars(key),
        forall|h: Seq<char>| #[trigger]
            log.dom().contains(h) ==> log[h].new_pub_hex@ == hex_chars(
                hex_bytes(log[h].new_pub_hex@),
            ),
    ensures
        !log.dom().contains(hex_chars(chain_end(log, key, hop, seen)->Ok_0)),
    decreases log.dom().difference(seen).len(),
{
    if log.dom().contains(hop) {
        let next = followed(log[hop], key, hop)->Ok_0;
        lemma_seen_grows(log.dom(), seen, hop);
        assert(next == hex_bytes(log[hop].new_pub_hex@));
        law_chains_end_at_the_newest_key(
            log,
            next,
            log[hop].new_pub_hex@,
            seen.insert(hop),
        );
    }
}

/// A chain goes on from any key in the same way, however many hops lie behind
/// it: a hop that was made before is a cycle, a key that was not rotated is
/// the end, and a hop that cannot be followed ends the chain with its fault.
pub proof fn law_chains_have_no_longest_length(
    log: Map<Seq<char>, RotationEntry>,
    key: Seq<u8>,
    hop: Seq<char>,
    seen: Set<Seq<char>>,
)
    requires
        log.dom().finite(),
    ensures
        seen.contains(hop) ==> chain_end(log, key, hop, seen) == Err::<Seq<u8>, Seq<char>>(
            "cycle detected at "@ + hop,
        ),
        !seen.contains(hop) && !log.dom().contains(hop) ==> chain_end(log, key, hop, seen) == Ok::<
            Seq<u8>,
            Seq<char>,
        >(key),
        !seen.contains(hop) && log.dom().contains(hop) ==> chain_end(log, key, hop, seen)
            == match followed(log[hop], key, hop) {
            Err(why) => Err::<Seq<u8>, Seq<char>>(why),
            Ok(next) => chain_end(log, next, log[hop].new_pub_hex@, seen.insert(hop)),
        },
{
}

/// Why a hop is not followed: each fault is told with the key that the hop
/// starts from.
pub proof fn law_why_hops_are_refused(entry: RotationEntry, key: Seq<u8>, hop: Seq<char>)
    ensures
        ({
            let sig = entry.signature_hex@;
            let new = entry.new_pub_hex@;
            followed(entry, key, hop) matches Err(why) ==> why == "hop "@ + hop + ": "@
                + if !is_hex_text(sig) {
                hex_fault(sig)
            } else if sig.len() != 128 {
                "expected 64-byte signature, got "@ + dec_chars(sig.len() / 2)
            } else {
                match ed25519_strict_fault(key, binding(hop, new), hex_bytes(sig)) {
                    Some(e) => e,
                    None => if !is_hex_text(new) {
                        hex_fault(new)
                    } else if new.len() != 64 {
                        "expected 32-byte key, got "@ + dec_chars(new.len() / 2)
                    } else {
                        ed25519_key_fault(hex_bytes(new))->0
                    },
                }
            }
        }),
{
}

} // verus!
