//! Ed25519 site identities and signed resource records.
//!
//! A site owns a key pair. Its identity is the public key, in lowercase
//! hexadecimal. A record binds a site and a path to a content hash until it
//! expires, signed by the site key.

use crate::hex_text::{
    decode_hex, encode_hex, hex_bytes, hex_chars, hex_fault, is_hex_text, law_hex_round_trip,
};
use crate::keys::{
    array32, array64, ed25519_fault, ed25519_key_fault, ed25519_public, ed25519_signature,
    Signature, SigningKey, VerifyingKey,
};
use crate::text::{dec_chars, decimal};
use vstd::prelude::*;
use vstd::string::*;
use vstd::utf8::*;

pub mod rotation;

pub use crate::identity::rotation::{RotationEntry, RotationLog, ROTATION_TAG};

verus! {

/// Tag of the signed form of a record. A signature under one tag is none
/// under another.
pub const SIG_V1_TAG: &'static str = "nexus/v1/record";

/// Every way in which an identity operation can fail.
#[derive(Debug, Clone, PartialEq, Eq)]
pub enum IdentityError {
    /// The key has not 32 bytes; carries its length.
    BadKeyLen(usize),
    /// The signature or the key is refused.
    BadSignature(String),
    /// The record expired, at the first time, before the second.
    Expired(u64, u64),
    /// The record names the first site, not the second.
    SiteMismatch(String, String),
    /// A record could not be written or read.
    Serialization(String),
    /// The key file could not be used.
    KeyFile(String),
    /// A rotation chain does not hold.
    BrokenChain(String),
    /// The key file is open to others; carries its mode.
    InsecureKeyPerms(u32),
}

/// The mathematical value of an [`IdentityError`].
pub enum IdentityErrorView {
    BadKeyLen(nat),
    BadSignature(Seq<char>),
    Expired(u64, u64),
    SiteMismatch(Seq<char>, Seq<char>),
    Serialization(Seq<char>),
    KeyFile(Seq<char>),
    BrokenChain(Seq<char>),
    InsecureKeyPerms(u32),
}

impl View for IdentityError {
    type V = IdentityErrorView;

    open spec fn view(&self) -> IdentityErrorView {
        match self {
            IdentityError::BadKeyLen(n) => IdentityErrorView::BadKeyLen(*n as nat),
            IdentityError::BadSignature(s) => IdentityErrorView::BadSignature(s@),
            IdentityError::Expired(at, now) => IdentityErrorView::Expired(*at, *now),
            IdentityError::SiteMismatch(a, b) => IdentityErrorView::SiteMismatch(a@, b@),
            IdentityError::Serialization(s) => IdentityErrorView::Serialization(s@),
            IdentityError::KeyFile(s) => IdentityErrorView::KeyFile(s@),
            IdentityError::BrokenChain(s) => IdentityErrorView::BrokenChain(s@),
            IdentityError::InsecureKeyPerms(m) => IdentityErrorView::InsecureKeyPerms(*m),
        }
    }
}

/// What an [`IdentityError`] says to a reader.
pub open spec fn error_text(e: IdentityErrorView) -> Seq<char> {
    match e {
        IdentityErrorView::BadKeyLen(n) => "bad key length: expected 32 bytes, got "@ + dec_chars(n),
        IdentityErrorView::BadSignature(s) => "bad signature: "@ + s,
        IdentityErrorView::Expired(at, now) => "record expired at "@ + dec_chars(at as nat)
            + " (now "@ + dec_chars(now as nat) + ")"@,
        IdentityErrorView::SiteMismatch(a, b) => "site mismatch: record claims "@ + a
            + ", expected "@ + b,
        IdentityErrorView::Serialization(s) => "serialization: "@ + s,
        IdentityErrorView::KeyFile(s) => "key file: "@ + s,
        IdentityErrorView::BrokenChain(s) => "broken rotation chain: "@ + s,
        IdentityErrorView::InsecureKeyPerms(m) => "insecure key file permissions: mode "@
            + dec_chars(m as nat),
    }
}

impl IdentityError {
    /// What the error says to a reader.
    pub fn to_string(&self) -> (out: String)
        ensures
            out@ == error_text(self@),
    {
        match self {
            IdentityError::BadKeyLen(n) => "bad key length: expected 32 bytes, got ".to_owned().concat(
                decimal(*n as u64).as_str(),
            ),
            IdentityError::BadSignature(s) => "bad signature: ".to_owned().concat(s.as_str()),
            IdentityError::Expired(at, now) => "record expired at ".to_owned().concat(
                decimal(*at).as_str(),
            ).concat(" (now ").concat(decimal(*now).as_str()).concat(")"),
            IdentityError::SiteMismatch(a, b) => "site mismatch: record claims ".to_owned().concat(
                a.as_str(),
            ).concat(", expected ").concat(b.as_str()),
            IdentityError::Serialization(s) => "serialization: ".to_owned().concat(s.as_str()),
            IdentityError::KeyFile(s) => "key file: ".to_owned().concat(s.as_str()),
            IdentityError::BrokenChain(s) => "broken rotation chain: ".to_owned().concat(
                s.as_str(),
            ),
            IdentityError::InsecureKeyPerms(
                m,
            ) => "insecure key file permissions: mode ".to_owned().concat(
                decimal(*m as u64).as_str(),
            ),
        }
    }
}

/// The signed payload.
#[derive(Debug, Clone, PartialEq, Eq)]
pub struct ResourceRecord {
    pub site: String,
    pub path: String,
    pub content_hash: String,
    pub expires_at_unix: u64,
}

/// The mathematical value of a [`ResourceRecord`].
pub struct RecordView {
    pub site: Seq<char>,
    pub path: Seq<char>,
    pub content_hash: Seq<char>,
    pub expires_at_unix: u64,
}

impl View for ResourceRecord {
    type V = RecordView;

    open spec fn view(&self) -> RecordView {
        RecordView {
            site: self.site@,
            path: self.path@,
            content_hash: self.content_hash@,
            expires_at_unix: self.expires_at_unix,
        }
    }
}

/// The canonical form of a record: site, path, content hash and expiry, with
/// a zero byte between.
pub open spec fn canonical(r: RecordView) -> Seq<u8> {
    encode_utf8(r.site) + seq![0u8] + encode_utf8(r.path) + seq![0u8] + encode_utf8(r.content_hash)
        + seq![0u8] + encode_utf8(dec_chars(r.expires_at_unix as nat))
}

/// The tagged canonical form, which is what gets signed.
pub open spec fn canonical_v1(r: RecordView) -> Seq<u8> {
    encode_utf8(SIG_V1_TAG@) + seq![0u8] + canonical(r)
}

impl ResourceRecord {
    /// The canonical form.
    pub fn canonical_bytes(&self) -> (out: Vec<u8>)
        ensures
            out@ == canonical(self@),
    {
        let mut out: Vec<u8> = Vec::new();
        out.extend_from_slice(self.site.as_str().as_bytes());
        out.push(0);
        out.extend_from_slice(self.path.as_str().as_bytes());
        out.push(0);
        out.extend_from_slice(self.content_hash.as_str().as_bytes());
        out.push(0);
        out.extend_from_slice(decimal(self.expires_at_unix).as_str().as_bytes());
        assert(out@ =~= canonical(self@));
        out
    }

    /// The tagged canonical form.
    pub fn canonical_bytes_v1(&self) -> (out: Vec<u8>)
        ensures
            out@ == canonical_v1(self@),
    {
        let mut out: Vec<u8> = Vec::new();
        out.extend_from_slice(SIG_V1_TAG.as_bytes());
        out.push(0);
        let body = self.canonical_bytes();
        out.extend_from_slice(body.as_slice());
        assert(out@ =~= canonical_v1(self@));
        out
    }
}

/// A record with its signature in hexadecimal.
#[derive(Debug, Clone, PartialEq, Eq)]
pub struct SignedRecord {
    pub record: ResourceRecord,
    pub signature_hex: String,
}

/// The mathematical value of a [`SignedRecord`].
pub struct SignedView {
    pub record: RecordView,
    pub signature_hex: Seq<char>,
}

impl View for SignedRecord {
    type V = SignedView;

    open spec fn view(&self) -> SignedView {
        SignedView { record: self.record@, signature_hex: self.signature_hex@ }
    }
}

/// The first reason to refuse a signed record under a public key at a time,
/// nothing where it holds: the site has to be that of the key, the record
/// not expired, the signature 64 bytes in hexadecimal, and good for the
/// tagged form or for the bare one, which older signers used.
pub open spec fn record_fault(key: Seq<u8>, s: SignedView, now: u64) -> Option<IdentityErrorView> {
    let sig = hex_bytes(s.signature_hex);
    if s.record.site != hex_chars(key) {
        Some(IdentityErrorView::SiteMismatch(s.record.site, hex_chars(key)))
    } else if s.record.expires_at_unix <= now {
        Some(IdentityErrorView::Expired(s.record.expires_at_unix, now))
    } else if !is_hex_text(s.signature_hex) {
        Some(IdentityErrorView::BadSignature(hex_fault(s.signature_hex)))
    } else if sig.len() != 64 {
        Some(IdentityErrorView::BadSignature("expected 64 bytes, got "@ + dec_chars(sig.len())))
    } else if ed25519_fault(key, canonical_v1(s.record), sig) is None {
        None
    } else {
        match ed25519_fault(key, canonical(s.record), sig) {
            None => None,
            Some(e) => Some(IdentityErrorView::BadSignature(e)),
        }
    }
}

/// The signed record that a secret key makes.
pub open spec fn signed_with(seed: Seq<u8>, r: RecordView) -> SignedView {
    SignedView { record: r, signature_hex: hex_chars(ed25519_signature(seed, canonical_v1(r))) }
}

/// A site identity: a key pair, or the public key alone.
#[derive(Clone)]
pub struct SiteIdentity {
    pub signing: Option<SigningKey>,
    pub verify: VerifyingKey,
}

impl SiteIdentity {
    /// The public key is that of the secret key, where there is one.
    pub open spec fn wf(self) -> bool {
        self.signing matches Some(key) ==> self.verify@ == ed25519_public(key@)
    }

    /// A fresh key pair; nothing is known of the secret.
    pub fn generate() -> (id: Self)
        ensures
            id.wf(),
            id.signing is Some,
    {
        let signing = SigningKey::generate();
        let verify = signing.verifying_key();
        Self { signing: Some(signing), verify }
    }

    /// The key pair with the given secret seed of 32 bytes.
    pub fn from_secret_bytes(secret: &[u8]) -> (out: Result<Self, IdentityError>)
        ensures
            match out {
                Ok(id) => secret@.len() == 32 && id.wf() && (id.signing matches Some(key)
                    && key@ == secret@),
                Err(e) => secret@.len() != 32 && e@ == IdentityErrorView::BadKeyLen(secret@.len()),
            },
    {
        if secret.len() != 32 {
            return Err(IdentityError::BadKeyLen(secret.len()));
        }
        let signing = SigningKey::from_bytes(&array32(secret));
        let verify = signing.verifying_key();
        Ok(Self { signing: Some(signing), verify })
    }

    /// The identity with the given public key of 32 bytes, which cannot sign.
    pub fn from_public_bytes(public: &[u8]) -> (out: Result<Self, IdentityError>)
        ensures
            match out {
                Ok(id) => public@.len() == 32 && ed25519_key_fault(public@) is None
                    && id.signing is None && id.verify@ == public@,
                Err(e) => if public@.len() != 32 {
                    e@ == IdentityErrorView::BadKeyLen(public@.len())
                } else {
                    ed25519_key_fault(public@) matches Some(f) && e@
                        == IdentityErrorView::BadSignature(f)
                },
            },
    {
        if public.len() != 32 {
            return Err(IdentityError::BadKeyLen(public.len()));
        }
        match VerifyingKey::from_bytes(&array32(public)) {
            Ok(verify) => Ok(Self { signing: None, verify }),
            Err(e) => Err(IdentityError::BadSignature(e)),
        }
    }

    /// The public key in lowercase hexadecimal: the site id.
    pub fn site_id(&self) -> (id: String)
        ensures
            id@ == hex_chars(self.verify@),
            id@.len() == 64,
    {
        let bytes = self.verify.to_bytes();
        proof {
            law_hex_round_trip(bytes@);
        }
        encode_hex(bytes.as_slice())
    }

    /// The public key.
    pub fn public_bytes(&self) -> (bytes: [u8; 32])
        ensures
            bytes@ == self.verify@,
    {
        self.verify.to_bytes()
    }

    /// Signs the record that binds a path of this site to a content hash.
    /// The record then holds under this identity until it expires.
    pub fn sign_record(&self, path: &str, content_hash: &str, expires_at_unix: u64) -> (out: Result<
        SignedRecord,
        IdentityError,
    >)
        ensures
            match (self.signing, out) {
                (Some(key), Ok(s)) => {
                    let record = RecordView {
                        site: hex_chars(self.verify@),
                        path: path@,
                        content_hash: content_hash@,
                        expires_at_unix,
                    };
                    &&& s@ == signed_with(key@, record)
                    &&& self.wf() ==> forall|now: u64|
                        now < expires_at_unix ==> #[trigger] record_fault(self.verify@, s@, now)
                            is None
                },
                (None, Err(e)) => e@ == IdentityErrorView::BadSignature("no secret key"@),
                _ => false,
            },
    {
        let signing = match &self.signing {
            Some(key) => key,
            None => return Err(IdentityError::BadSignature("no secret key".to_owned())),
        };
        let record = ResourceRecord {
            site: self.site_id(),
            path: path.to_owned(),
            content_hash: content_hash.to_owned(),
            expires_at_unix,
        };
        let bytes = record.canonical_bytes_v1();
        let sig = signing.sign(bytes.as_slice()).to_bytes();
        proof {
            law_hex_round_trip(sig@);
        }
        Ok(SignedRecord { record, signature_hex: encode_hex(sig.as_slice()) })
    }

    /// Checks a signed record against the public key and the time.
    pub fn verify_record(&self, signed: &SignedRecord, now_unix: u64) -> (out: Result<
        (),
        IdentityError,
    >)
        ensures
            match out {
                Ok(_) => record_fault(self.verify@, signed@, now_unix) is None,
                Err(e) => record_fault(self.verify@, signed@, now_unix) == Some(e@),
            },
    {
        let site = self.site_id();
        if signed.record.site != site {
            return Err(IdentityError::SiteMismatch(signed.record.site.clone(), site));
        }
        if signed.record.expires_at_unix <= now_unix {
            return Err(IdentityError::Expired(signed.record.expires_at_unix, now_unix));
        }
        let bytes = match decode_hex(signed.signature_hex.as_str()) {
            Ok(b) => b,
            Err(e) => return Err(IdentityError::BadSignature(e)),
        };
        if bytes.len() != 64 {
            return Err(
                IdentityError::BadSignature(
                    "expected 64 bytes, got ".to_owned().concat(
                        decimal(bytes.len() as u64).as_str(),
                    ),
                ),
            );
        }
        let sig = Signature::from_bytes(&array64(bytes.as_slice()));
        let tagged = signed.record.canonical_bytes_v1();
        if self.verify.verify(tagged.as_slice(), &sig).is_ok() {
            return Ok(());
        }
        let bare = signed.record.canonical_bytes();
        match self.verify.verify(bare.as_slice(), &sig) {
            Ok(_) => Ok(()),
            Err(e) => Err(IdentityError::BadSignature(e)),
        }
    }
}

/// A delegation: a site lets another key sign for a path prefix until it
/// expires.
#[derive(Debug, Clone, PartialEq, Eq)]
pub struct Delegation {
    pub site: String,
    pub delegate_pub_hex: String,
    pub path_prefix: String,
    pub expires_at_unix: u64,
    pub signature_hex: String,
}

/// The canonical form of a delegation: site, delegate, path prefix and
/// expiry, with a zero byte between.
pub open spec fn delegation_bytes(
    site: Seq<char>,
    delegate: Seq<char>,
    prefix: Seq<char>,
    expires: nat,
) -> Seq<u8> {
    encode_utf8(site) + seq![0u8] + encode_utf8(delegate) + seq![0u8] + encode_utf8(prefix)
        + seq![0u8] + encode_utf8(dec_chars(expires))
}

impl Delegation {
    /// The canonical form.
    pub fn canonical_bytes(&self) -> (out: Vec<u8>)
        ensures
            out@ == delegation_bytes(
                self.site@,
                self.delegate_pub_hex@,
                self.path_prefix@,
                self.expires_at_unix as nat,
            ),
    {
        let mut out: Vec<u8> = Vec::new();
        out.extend_from_slice(self.site.as_str().as_bytes());
        out.push(0);
        out.extend_from_slice(self.delegate_pub_hex.as_str().as_bytes());
        out.push(0);
        out.extend_from_slice(self.path_prefix.as_str().as_bytes());
        out.push(0);
        out.extend_from_slice(decimal(self.expires_at_unix).as_str().as_bytes());
        out
    }
}

/// What a key file says: the mode has to keep others out, and the bytes have
/// to be a seed.
pub fn identity_from_key_file(is_file: bool, mode: u32, bytes: &[u8]) -> (out: Result<
    SiteIdentity,
    IdentityError,
>)
    ensures
        match out {
            Ok(id) => (is_file ==> (mode & 0o077) == 0) && bytes@.len() == 32 && id.wf()
                && (id.signing matches Some(key) && key@ == bytes@),
            Err(e) => if is_file && (mode & 0o077) != 0 {
                e@ == IdentityErrorView::InsecureKeyPerms(mode & 0o777)
            } else {
                bytes@.len() != 32 && e@ == IdentityErrorView::KeyFile(
                    error_text(IdentityErrorView::BadKeyLen(bytes@.len())),
                )
            },
        },
{
    assert((mode & 0o777) & 0o077 == mode & 0o077) by (bit_vector);
    if is_file && (mode & 0o777) & 0o077 != 0 {
        return Err(IdentityError::InsecureKeyPerms(mode & 0o777));
    }
    match SiteIdentity::from_secret_bytes(bytes) {
        Ok(id) => Ok(id),
        Err(e) => Err(IdentityError::KeyFile(e.to_string())),
    }
}

/// The bytes that a key file holds.
pub fn key_file_bytes(id: &SiteIdentity) -> (out: Result<[u8; 32], IdentityError>)
    ensures
        match (id.signing, out) {
            (Some(key), Ok(seed)) => seed@ == key@,
            (None, Err(e)) => e@ == IdentityErrorView::KeyFile("no secret key to save"@),
            _ => false,
        },
{
    match &id.signing {
        Some(key) => Ok(key.to_bytes()),
        None => Err(IdentityError::KeyFile("no secret key to save".to_owned())),
    }
}

/// A signed record holds under a key at a time exactly where it names that
/// key, has not expired, and carries a good signature of 64 bytes over its
/// site, path, content hash and expiry, with the record tag before them or
/// without. The expiry itself is no longer within.
pub proof fn law_when_records_hold(key: Seq<u8>, s: SignedView, now: u64)
    ensures
        ({
            let r = s.record;
            let form = encode_utf8(r.site) + seq![0u8] + encode_utf8(r.path) + seq![0u8]
                + encode_utf8(r.content_hash) + seq![0u8] + encode_utf8(
                dec_chars(r.expires_at_unix as nat),
            );
            let tagged = encode_utf8("nexus/v1/record"@) + seq![0u8] + form;
            let sig = hex_bytes(s.signature_hex);
            &&& record_fault(key, s, now) is None <==> {
                &&& r.site == hex_chars(key)
                &&& now < r.expires_at_unix
                &&& is_hex_text(s.signature_hex)
                &&& s.signature_hex.len() == 128
                &&& ed25519_fault(key, tagged, sig) is None || ed25519_fault(key, form, sig) is None
            }
            &&& r.site != hex_chars(key) ==> record_fault(key, s, now) == Some(
                IdentityErrorView::SiteMismatch(r.site, hex_chars(key)),
            )
            &&& r.site == hex_chars(key) && now >= r.expires_at_unix ==> record_fault(key, s, now)
                == Some(IdentityErrorView::Expired(r.expires_at_unix, now))
        }),
{
}

/// A record is signed as it is, over its site, path, content hash and expiry
/// with the record tag before them.
pub proof fn law_records_are_signed_as_they_are(seed: Seq<u8>, r: RecordView)
    ensures
        signed_with(seed, r).record == r,
        signed_with(seed, r).signature_hex == hex_chars(
            ed25519_signature(
                seed,
                encode_utf8("nexus/v1/record"@) + seq![0u8] + (encode_utf8(r.site) + seq![0u8]
                    + encode_utf8(r.path) + seq![0u8] + encode_utf8(r.content_hash) + seq![0u8]
                    + encode_utf8(dec_chars(r.expires_at_unix as nat))),
            ),
        ),
{
}

/// A delegation is signed over its site, the delegate, the prefix and the
/// expiry.
pub proof fn law_delegation_layout(
    site: Seq<char>,
    delegate: Seq<char>,
    prefix: Seq<char>,
    expires: nat,
)
    ensures
        delegation_bytes(site, delegate, prefix, expires) == encode_utf8(site) + seq![0u8]
            + encode_utf8(delegate) + seq![0u8] + encode_utf8(prefix) + seq![0u8] + encode_utf8(
            dec_chars(expires),
        ),
{
}

/// The text of an error names its kind and gives what it is about; times and
/// lengths are in decimal.
pub proof fn law_error_texts(n: nat, at: u64, now: u64, mode: u32, a: Seq<char>, b: Seq<char>)
    ensures
        error_text(IdentityErrorView::BadKeyLen(n)) == "bad key length: expected 32 bytes, got "@
            + dec_chars(n),
        error_text(IdentityErrorView::BadSignature(a)) == "bad signature: "@ + a,
        error_text(IdentityErrorView::Expired(at, now)) == "record expired at "@ + dec_chars(
            at as nat,
        ) + " (now "@ + dec_chars(now as nat) + ")"@,
        error_text(IdentityErrorView::SiteMismatch(a, b)) == "site mismatch: record claims "@ + a
            + ", expected "@ + b,
        error_text(IdentityErrorView::Serialization(a)) == "serialization: "@ + a,
        error_text(IdentityErrorView::KeyFile(a)) == "key file: "@ + a,
        error_text(IdentityErrorView::BrokenChain(a)) == "broken rotation chain: "@ + a,
        error_text(IdentityErrorView::InsecureKeyPerms(mode))
            == "insecure key file permissions: mode "@ + dec_chars(mode as nat),
{
}

/// Why the signature of a record is refused: it is no hexadecimal text, it is
/// of a wrong length, or the key made it over neither form; the older form is
/// the one whose failure is told.
pub proof fn law_why_signatures_are_refused(key: Seq<u8>, s: SignedView, now: u64)
    requires
        s.record.site == hex_chars(key),
        now < s.record.expires_at_unix,
    ensures
        !is_hex_text(s.signature_hex) ==> record_fault(key, s, now) == Some(
            IdentityErrorView::BadSignature(hex_fault(s.signature_hex)),
        ),
        is_hex_text(s.signature_hex) && s.signature_hex.len() != 128 ==> record_fault(key, s, now)
            == Some(
            IdentityErrorView::BadSignature(
                "expected 64 bytes, got "@ + dec_chars(s.signature_hex.len() / 2),
            ),
        ),
        is_hex_text(s.signature_hex) && s.signature_hex.len() == 128 ==> match (
            ed25519_fault(key, canonical_v1(s.record), hex_bytes(s.signature_hex)),
            ed25519_fault(key, canonical(s.record), hex_bytes(s.signature_hex)),
        ) {
            (Some(_), Some(why)) => record_fault(key, s, now) == Some(
                IdentityErrorView::BadSignature(why),
            ),
            _ => record_fault(key, s, now) is None,
        },
{
}

} // verus!
