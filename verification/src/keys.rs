//! Ed25519 keys and signatures, held as bytes.

use vstd::prelude::*;
use vstd::string::*;

verus! {

/// The public key of a secret seed, as `ed25519_dalek::SigningKey` derives it.
pub uninterp spec fn ed25519_public(seed: Seq<u8>) -> Seq<u8>;

/// The signature of a message under a secret seed, as
/// `ed25519_dalek::SigningKey` makes it.
pub uninterp spec fn ed25519_signature(seed: Seq<u8>, message: Seq<u8>) -> Seq<u8>;

/// Why `ed25519_dalek::VerifyingKey::from_bytes` refuses some bytes; nothing
/// where they are a key.
pub uninterp spec fn ed25519_key_fault(bytes: Seq<u8>) -> Option<Seq<char>>;

/// Why `ed25519_dalek::VerifyingKey::verify` refuses a signature; nothing
/// where it is good.
pub uninterp spec fn ed25519_fault(key: Seq<u8>, message: Seq<u8>, signature: Seq<u8>) -> Option<
    Seq<char>,
>;

/// Why `ed25519_dalek::VerifyingKey::verify_strict` refuses a signature;
/// nothing where it is good.
pub uninterp spec fn ed25519_strict_fault(
    key: Seq<u8>,
    message: Seq<u8>,
    signature: Seq<u8>,
) -> Option<Seq<char>>;

/// The view of a fault.
pub open spec fn fault_view(f: Option<String>) -> Option<Seq<char>> {
    match f {
        Some(s) => Some(s@),
        None => None,
    }
}

/// `ed25519_dalek::SigningKey::generate` with the random numbers of the
/// operating system: some seed, of which nothing is known.
#[verifier::external_body]
fn random_seed() -> (seed: [u8; 32]) {
    ed25519_dalek::SigningKey::generate(&mut rand::rngs::OsRng).to_bytes()
}

/// `ed25519_dalek::SigningKey::verifying_key`: the public key of the seed,
/// which `VerifyingKey::from_bytes` accepts.
#[verifier::external_body]
fn derive_public(seed: &[u8; 32]) -> (key: [u8; 32])
    ensures
        key@ == ed25519_public(seed@),
        ed25519_key_fault(key@) is None,
{
    ed25519_dalek::SigningKey::from_bytes(seed).verifying_key().to_bytes()
}

/// `ed25519_dalek::SigningKey::sign`: the signature of the message, which
/// `VerifyingKey::verify` accepts under the public key of the seed.
#[verifier::external_body]
fn make_signature(seed: &[u8; 32], message: &[u8]) -> (signature: [u8; 64])
    ensures
        signature@ == ed25519_signature(seed@, message@),
        ed25519_fault(ed25519_public(seed@), message@, signature@) is None,
{
    let key = ed25519_dalek::SigningKey::from_bytes(seed);
    ed25519_dalek::Signer::sign(&key, message).to_bytes()
}

/// `ed25519_dalek::VerifyingKey::from_bytes`: nothing where the bytes are a
/// key, else the text of its error.
#[verifier::external_body]
fn key_fault(bytes: &[u8; 32]) -> (fault: Option<String>)
    ensures
        fault_view(fault) == ed25519_key_fault(bytes@),
{
    ed25519_dalek::VerifyingKey::from_bytes(bytes).err().map(|e| e.to_string())
}

/// `ed25519_dalek::VerifyingKey::verify`: nothing where the signature is
/// good, else the text of its error.
#[verifier::external_body]
fn signature_fault(key: &[u8; 32], message: &[u8], signature: &[u8; 64]) -> (fault: Option<String>)
    requires
        ed25519_key_fault(key@) is None,
    ensures
        fault_view(fault) == ed25519_fault(key@, message@, signature@),
{
    let signature = ed25519_dalek::Signature::from_bytes(signature);
    match ed25519_dalek::VerifyingKey::from_bytes(key) {
        Ok(k) => ed25519_dalek::Verifier::verify(&k, message, &signature).err().map(
            |e| e.to_string(),
        ),
        Err(e) => Some(e.to_string()),
    }
}

/// `ed25519_dalek::VerifyingKey::verify_strict`: nothing where the signature
/// is good, else the text of its error.
#[verifier::external_body]
fn strict_signature_fault(key: &[u8; 32], message: &[u8], signature: &[u8; 64]) -> (fault: Option<
    String,
>)
    requires
        ed25519_key_fault(key@) is None,
    ensures
        fault_view(fault) == ed25519_strict_fault(key@, message@, signature@),
{
    let signature = ed25519_dalek::Signature::from_bytes(signature);
    match ed25519_dalek::VerifyingKey::from_bytes(key) {
        Ok(k) => k.verify_strict(message, &signature).err().map(|e| e.to_string()),
        Err(e) => Some(e.to_string()),
    }
}

/// The array with the elements of a slice of 32 bytes.
pub fn array32(s: &[u8]) -> (out: [u8; 32])
    requires
        s@.len() == 32,
    ensures
        out@ == s@,
{
    let mut out: [u8; 32] = [0; 32];
    let mut i: usize = 0;
    while i < 32
        invariant
            i <= 32,
            s@.len() == 32,
            forall|j: int| 0 <= j < i ==> out@[j] == s@[j],
        decreases 32 - i,
    {
        out[i] = s[i];
        i = i + 1;
    }
    assert(out@ =~= s@);
    out
}

/// The array with the elements of a slice of 64 bytes.
pub fn array64(s: &[u8]) -> (out: [u8; 64])
    requires
        s@.len() == 64,
    ensures
        out@ == s@,
{
    let mut out: [u8; 64] = [0; 64];
    let mut i: usize = 0;
    while i < 64
        invariant
            i <= 64,
            s@.len() == 64,
            forall|j: int| 0 <= j < i ==> out@[j] == s@[j],
        decreases 64 - i,
    {
        out[i] = s[i];
        i = i + 1;
    }
    assert(out@ =~= s@);
    out
}

/// A secret key: the 32 bytes of the seed.
#[derive(Clone, Copy, PartialEq, Eq)]
pub struct SigningKey {
    seed: [u8; 32],
}

/// A public key: 32 bytes that are a point of the curve.
#[derive(Debug, Clone, Copy, PartialEq, Eq)]
pub struct VerifyingKey {
    bytes: [u8; 32],
}

/// The 64 bytes of a signature.
#[derive(Debug, Clone, Copy, PartialEq, Eq)]
pub struct Signature {
    bytes: [u8; 64],
}

impl View for SigningKey {
    type V = Seq<u8>;

    closed spec fn view(&self) -> Seq<u8> {
        self.seed@
    }
}

impl View for VerifyingKey {
    type V = Seq<u8>;

    closed spec fn view(&self) -> Seq<u8> {
        self.bytes@
    }
}

impl View for Signature {
    type V = Seq<u8>;

    closed spec fn view(&self) -> Seq<u8> {
        self.bytes@
    }
}

impl SigningKey {
    /// A fresh key from the random numbers of the operating system; nothing
    /// is known of the seed.
    pub fn generate() -> (key: Self)
        ensures
            key@.len() == 32,
    {
        SigningKey { seed: random_seed() }
    }

    /// The key with the given seed.
    pub fn from_bytes(seed: &[u8; 32]) -> (key: Self)
        ensures
            key@ == seed@,
    {
        SigningKey { seed: *seed }
    }

    /// The seed.
    pub fn to_bytes(&self) -> (seed: [u8; 32])
        ensures
            seed@ == self@,
    {
        self.seed
    }

    /// The public key.
    pub fn verifying_key(&self) -> (key: VerifyingKey)
        ensures
            key@ == ed25519_public(self@),
    {
        VerifyingKey { bytes: derive_public(&self.seed) }
    }

    /// The signature of a message; the public key verifies it.
    pub fn sign(&self, message: &[u8]) -> (signature: Signature)
        ensures
            signature@ == ed25519_signature(self@, message@),
            ed25519_fault(ed25519_public(self@), message@, signature@) is None,
    {
        Signature { bytes: make_signature(&self.seed, message) }
    }
}

impl VerifyingKey {
    #[verifier::type_invariant]
    spec fn is_point(self) -> bool {
        ed25519_key_fault(self.bytes@) is None
    }

    /// The key with the given bytes, or why they are none.
    pub fn from_bytes(bytes: &[u8; 32]) -> (out: Result<Self, String>)
        ensures
            match out {
                Ok(key) => ed25519_key_fault(bytes@) is None && key@ == bytes@,
                Err(e) => ed25519_key_fault(bytes@) == Some(e@),
            },
    {
        match key_fault(bytes) {
            None => Ok(VerifyingKey { bytes: *bytes }),
            Some(e) => Err(e),
        }
    }

    /// The bytes of the key.
    pub fn to_bytes(&self) -> (bytes: [u8; 32])
        ensures
            bytes@ == self@,
            ed25519_key_fault(self@) is None,
    {
        proof {
            use_type_invariant(self);
        }
        self.bytes
    }

    /// The bytes of the key.
    pub fn as_bytes(&self) -> (bytes: &[u8; 32])
        ensures
            bytes@ == self@,
    {
        &self.bytes
    }

    /// Checks a signature.
    pub fn verify(&self, message: &[u8], signature: &Signature) -> (out: Result<(), String>)
        ensures
            match out {
                Ok(_) => ed25519_fault(self@, message@, signature@) is None,
                Err(e) => ed25519_fault(self@, message@, signature@) == Some(e@),
            },
    {
        proof {
            use_type_invariant(self);
        }
        match signature_fault(&self.bytes, message, &signature.bytes) {
            None => Ok(()),
            Some(e) => Err(e),
        }
    }

    /// Checks a signature, and refuses weak keys and weak signatures.
    pub fn verify_strict(&self, message: &[u8], signature: &Signature) -> (out: Result<(), String>)
        ensures
            match out {
                Ok(_) => ed25519_strict_fault(self@, message@, signature@) is None,
                Err(e) => ed25519_strict_fault(self@, message@, signature@) == Some(e@),
            },
    {
        proof {
            use_type_invariant(self);
        }
        match strict_signature_fault(&self.bytes, message, &signature.bytes) {
            None => Ok(()),
            Some(e) => Err(e),
        }
    }
}

impl Signature {
    /// The signature with the given bytes.
    pub fn from_bytes(bytes: &[u8; 64]) -> (signature: Self)
        ensures
            signature@ == bytes@,
    {
        Signature { bytes: *bytes }
    }

    /// The bytes of the signature.
    pub fn to_bytes(&self) -> (bytes: [u8; 64])
        ensures
            bytes@ == self@,
    {
        self.bytes
    }
}

} // verus!
