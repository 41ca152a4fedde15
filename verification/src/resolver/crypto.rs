//! The seam for signature schemes: the data model depends on none.

use crate::resolver::model::{PublicKey, RecordView, SignedRecord};
use vstd::prelude::*;

verus! {

/// Anything that can verify signatures.
pub trait CryptoProvider {
    /// The records whose signature holds under their signer.
    spec fn accepts(&self, r: RecordView) -> bool;

    /// Whether the signature of a record holds under its signer.
    fn verify(&self, record: &SignedRecord) -> (ok: bool)
        ensures
            ok == self.accepts(record@),
    ;

    /// Signs with the private key of a signer, where the provider holds it.
    fn sign(&self, signed_bytes: &[u8], signer: &PublicKey) -> (out: Option<[u8; 64]>);
}

/// A provider that accepts any signature. It authenticates nothing, and
/// serves to run the merge logic without keys.
#[derive(Debug)]
pub struct MockProvider;

impl Default for MockProvider {
    fn default() -> (p: Self) {
        MockProvider
    }
}

impl CryptoProvider for MockProvider {
    open spec fn accepts(&self, r: RecordView) -> bool {
        true
    }

    fn verify(&self, record: &SignedRecord) -> (ok: bool) {
        true
    }

    fn sign(&self, signed_bytes: &[u8], signer: &PublicKey) -> (out: Option<[u8; 64]>)
        ensures
            out matches Some(s) && s@ == Seq::new(64, |i: int| 0u8),
    {
        let out: [u8; 64] = [0; 64];
        assert(out@ =~= Seq::new(64, |i: int| 0u8));
        Some(out)
    }
}

} // verus!
