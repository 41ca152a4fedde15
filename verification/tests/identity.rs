//! Site identities, signed records, and key rotation.

use nexus::identity::rotation::{RotationEntry, RotationLog};
use nexus::identity::{
    identity_from_key_file, key_file_bytes, IdentityError, SignedRecord, SiteIdentity, SIG_V1_TAG,
};

fn set_signature(log: &mut RotationLog, of: &SiteIdentity, signature_hex: String) {
    let site = of.site_id();
    let new_pub_hex = log.entries.get(&site).unwrap().new_pub_hex.clone();
    log.entries.insert(
        site,
        RotationEntry {
            new_pub_hex,
            signature_hex,
        },
    );
}

fn set_target(log: &mut RotationLog, of: &SiteIdentity, new_pub_hex: String) {
    let site = of.site_id();
    let signature_hex = log.entries.get(&site).unwrap().signature_hex.clone();
    log.entries.insert(
        site,
        RotationEntry {
            new_pub_hex,
            signature_hex,
        },
    );
}


#[test]
fn sign_verify_roundtrip() {
    let id = SiteIdentity::generate();
    let sr = id.sign_record("home", "b3:abc123", 9_999_999_999).unwrap();
    id.verify_record(&sr, 1_000_000).unwrap();
}

#[test]
fn rejects_tampered_content() {
    let id = SiteIdentity::generate();
    let mut sr = id.sign_record("home", "b3:abc", 9_999_999_999).unwrap();
    sr.record.content_hash = "b3:evil".into();
    assert!(id.verify_record(&sr, 1_000).is_err());
}

#[test]
fn rejects_expired() {
    let id = SiteIdentity::generate();
    let sr = id.sign_record("home", "b3:abc", 100).unwrap();
    assert!(matches!(
        id.verify_record(&sr, 200),
        Err(IdentityError::Expired(100, 200))
    ));
}

#[test]
fn rejects_wrong_key() {
    let a = SiteIdentity::generate();
    let b = SiteIdentity::generate();
    let sr = a.sign_record("home", "b3:abc", 9_999_999_999).unwrap();
    assert!(b.verify_record(&sr, 1).is_err());
}

#[test]
fn public_only_verifies() {
    let a = SiteIdentity::generate();
    let sr = a.sign_record("home", "b3:abc", 9_999_999_999).unwrap();
    let pub_only = SiteIdentity::from_public_bytes(&a.public_bytes()).unwrap();
    pub_only.verify_record(&sr, 1).unwrap();
}

#[test]
fn site_id_is_hex_64() {
    let id = SiteIdentity::generate();
    let sid = id.site_id();
    assert_eq!(sid.len(), 64);
    assert!(sid.chars().all(|c| c.is_ascii_hexdigit()));
    assert_eq!(sid, sid.to_lowercase());
}


#[test]
fn verifies_valid_three_key_chain() {
    let a = SiteIdentity::generate();
    let b = SiteIdentity::generate();
    let c = SiteIdentity::generate();
    let mut log = RotationLog::default();
    log.rotate(&a, &b).unwrap();
    log.rotate(&b, &c).unwrap();
    let end = {
        let k = log.verify_rotation_chain(&a.verify).unwrap();
        k.to_bytes()
    };
    assert_eq!(end, c.public_bytes());
}

#[test]
fn unrotated_key_is_its_own_chain_end() {
    let a = SiteIdentity::generate();
    let log = RotationLog::default();
    assert_eq!(
        log.verify_rotation_chain(&a.verify).unwrap().to_bytes(),
        a.public_bytes()
    );
}

#[test]
fn rejects_tampered_signature() {
    let mut a = SiteIdentity::generate();
    let b = SiteIdentity::generate();
    let mut log = RotationLog::default();
    log.rotate(&a, &b).unwrap();
    let mut old_hex = log.entries.get(&a.site_id()).unwrap().signature_hex.clone();
    // A signature that starts with a zero byte would be left as it is.
    while old_hex.starts_with("00") {
        a = SiteIdentity::generate();
        log.rotate(&a, &b).unwrap();
        old_hex = log.entries.get(&a.site_id()).unwrap().signature_hex.clone();
    }
    set_signature(&mut log, &a, format!("00{}", &old_hex[2..]));
    assert!(matches!(
        log.verify_rotation_chain(&a.verify),
        Err(IdentityError::BrokenChain(_))
    ));
}

#[test]
fn rejects_tampered_target_key() {
    let a = SiteIdentity::generate();
    let b = SiteIdentity::generate();
    let mut log = RotationLog::default();
    log.rotate(&a, &b).unwrap();
    // Attacker rewrites the advertised target; signature no longer binds.
    set_target(&mut log, &a, SiteIdentity::generate().site_id());
    assert!(matches!(
        log.verify_rotation_chain(&a.verify),
        Err(IdentityError::BrokenChain(_))
    ));
}

#[test]
fn rejects_cycle() {
    let a = SiteIdentity::generate();
    let b = SiteIdentity::generate();
    let mut log = RotationLog::default();
    log.rotate(&a, &b).unwrap();
    log.rotate(&b, &a).unwrap();
    assert!(matches!(
        log.verify_rotation_chain(&a.verify),
        Err(IdentityError::BrokenChain(msg)) if msg.contains("cycle")
    ));
}

#[test]
fn public_only_key_cannot_rotate() {
    let a = SiteIdentity::generate();
    let b = SiteIdentity::generate();
    let pub_only = SiteIdentity::from_public_bytes(&a.public_bytes()).unwrap();
    let mut log = RotationLog::default();
    assert!(log.rotate(&pub_only, &b).is_err());
    assert!(log.entries.is_empty());
}

/// Flip one byte of a lower-hex string's decoded bytes, re-encode.
fn flip_hex_byte(hex_str: &str, byte_idx: usize) -> String {
    let mut raw = hex::decode(hex_str).unwrap();
    let i = byte_idx % raw.len();
    raw[i] ^= 0x01;
    hex::encode(raw)
}

fn now() -> u64 {
    1_700_000_000
}

/// Every one of the 64 signature bytes flipped => verification fails.
#[test]
fn record_signature_byte_flip_battery() {
    let id = SiteIdentity::generate();
    let sr = id.sign_record("home", "b3:abc123", 9_999_999_999).unwrap();
    for i in 0..64 {
        let mut m = sr.clone();
        m.signature_hex = flip_hex_byte(&sr.signature_hex, i);
        assert!(
            id.verify_record(&m, now()).is_err(),
            "sig byte {i} flip accepted"
        );
    }
    // Garbage and wrong-length signature hex are also rejected.
    for bad in [
        "00".repeat(64),
        "zz".repeat(64),
        "abcd".to_string(),
        String::new(),
    ] {
        let mut m = sr.clone();
        m.signature_hex = bad;
        assert!(id.verify_record(&m, now()).is_err());
    }
}

/// Flipping any signed field kills the record; the error variant
/// distinguishes structural (SiteMismatch/Expired) from cryptographic
/// (BadSignature) failures.
#[test]
fn record_field_flip_battery() {
    let id = SiteIdentity::generate();
    let sr = id.sign_record("home", "b3:abc123", 9_999_999_999).unwrap();

    let mut site = sr.clone();
    site.record.site = flip_hex_byte(&sr.record.site, 0);
    assert!(matches!(
        id.verify_record(&site, now()),
        Err(IdentityError::SiteMismatch(_, _))
    ));

    let mut path = sr.clone();
    path.record.path = "h\x00me".to_string();
    assert!(matches!(
        id.verify_record(&path, now()),
        Err(IdentityError::BadSignature(_))
    ));

    let mut hash = sr.clone();
    hash.record.content_hash = "b3:evil".into();
    assert!(matches!(
        id.verify_record(&hash, now()),
        Err(IdentityError::BadSignature(_))
    ));

    let mut expiry = sr.clone();
    expiry.record.expires_at_unix = 9_999_999_998; // different value => sig fails
    assert!(matches!(
        id.verify_record(&expiry, now()),
        Err(IdentityError::BadSignature(_))
    ));

    let mut expired = sr.clone();
    expired.record.expires_at_unix = 100; // past => Expired before sig check
    assert!(matches!(
        id.verify_record(&expired, now()),
        Err(IdentityError::Expired(100, _))
    ));
}

/// Domain separation: v1 signatures are over `SIG_V1_TAG\0 || canonical`,
/// legacy v0 over bare canonical bytes. A signature produced for one
/// message never verifies against the other — a flip anywhere fails under
/// both the combined verifier and the strict per-version paths.
#[test]
fn domain_separation_battery() {
    let id = SiteIdentity::generate();
    for n in 0..10 {
        let path = format!("page-{n}");
        let sr = id
            .sign_record(&path, &format!("b3:hash{n}"), 9_999_999_999)
            .unwrap();
        // The signed message carries the tag: cross-protocol replay of this
        // signature under an identity/rotation context is structurally
        // impossible because the messages differ.
        let v1 = sr.record.canonical_bytes_v1();
        assert!(v1.starts_with(SIG_V1_TAG.as_bytes()));
        assert_eq!(
            v1.len(),
            SIG_V1_TAG.len() + 1 + sr.record.canonical_bytes().len()
        );
        // Legacy v0 signature (bare canonical) still verifies in the
        // combined path, and dies if any field moved.
        let sig = id
            .signing
            .as_ref()
            .unwrap()
            .sign(&sr.record.canonical_bytes());
        let v0 = SignedRecord {
            record: sr.record.clone(),
            signature_hex: hex::encode(sig.to_bytes()),
        };
        id.verify_record(&v0, now()).unwrap();
        let mut moved = v0;
        moved.record.path = format!("page-{n}-moved");
        assert!(id.verify_record(&moved, now()).is_err());
    }
}

/// Rotation battery: any flipped signature byte, tampered target key, or
/// malformed hex breaks the chain loudly.
#[test]
fn rotation_byte_flip_battery() {
    let a = SiteIdentity::generate();
    let b = SiteIdentity::generate();
    let c = SiteIdentity::generate();
    let mut log = RotationLog::default();
    log.rotate(&a, &b).unwrap();
    log.rotate(&b, &c).unwrap();

    // Flip every signature byte of the first hop: all must break the chain.
    let hop = log.entries.get(&a.site_id()).unwrap();
    for i in 0..64 {
        let mut tampered = log.clone();
        set_signature(&mut tampered, &a, flip_hex_byte(&hop.signature_hex, i));
        assert!(
            matches!(
                tampered.verify_rotation_chain(&a.verify),
                Err(IdentityError::BrokenChain(_))
            ),
            "rotation sig byte {i} flip accepted"
        );
    }

    // Tampered target key.
    let mut tampered = log.clone();
    set_target(&mut tampered, &a, SiteIdentity::generate().site_id());
    assert!(matches!(
        tampered.verify_rotation_chain(&a.verify),
        Err(IdentityError::BrokenChain(_))
    ));

    // Malformed target / signature hex.
    let bads = [
        "zz".to_string(),
        "abcd".to_string(),
        String::new(),
        "f".to_string(),
        "0".repeat(63),
    ];
    for bad in &bads {
        let mut tampered = log.clone();
        set_target(&mut tampered, &a, bad.clone());
        assert!(tampered.verify_rotation_chain(&a.verify).is_err());
        let mut tampered = log.clone();
        set_signature(&mut tampered, &a, bad.clone());
        assert!(tampered.verify_rotation_chain(&a.verify).is_err());
    }
}

#[test]
fn save_load_roundtrip() {
    let id = SiteIdentity::generate();
    let bytes = key_file_bytes(&id).unwrap();
    let loaded = identity_from_key_file(true, 0o100600, &bytes).unwrap();
    assert_eq!(loaded.site_id(), id.site_id());
    // The loaded key can sign and verify.
    let sr = loaded.sign_record("home", "b3:abc", 9_999_999_999).unwrap();
    loaded.verify_record(&sr, 1).unwrap();
}

#[test]
fn load_rejects_world_readable_keyfile() {
    assert!(matches!(
        identity_from_key_file(true, 0o100644, &[1u8; 32]),
        Err(IdentityError::InsecureKeyPerms(0o644))
    ));
}

#[test]
fn load_rejects_bad_length() {
    assert!(matches!(
        identity_from_key_file(true, 0o600, b"way too short"),
        Err(IdentityError::KeyFile(_))
    ));
    let public = SiteIdentity::from_public_bytes(&SiteIdentity::generate().public_bytes()).unwrap();
    assert!(key_file_bytes(&public).is_err());
}

#[test]
fn keys_of_other_lengths_are_refused() {
    assert!(matches!(
        SiteIdentity::from_secret_bytes(&[0u8; 31]),
        Err(IdentityError::BadKeyLen(31))
    ));
    assert!(matches!(
        SiteIdentity::from_public_bytes(&[0u8; 33]),
        Err(IdentityError::BadKeyLen(33))
    ));
    // No point of the curve has this coordinate.
    let mut bad = [0u8; 32];
    bad[0] = 2;
    assert!(matches!(
        SiteIdentity::from_public_bytes(&bad),
        Err(IdentityError::BadSignature(_))
    ));
}

#[test]
fn public_key_and_signature_of_a_known_seed() {
    // The second test vector of the signature scheme: seed, public key, and
    // the signature of one byte.
    let seed = hex::decode("4ccd089b28ff96da9db6c346ec114e0f5b8a319f35aba624da8cf6ed4fb8a6fb")
        .unwrap();
    let id = SiteIdentity::from_secret_bytes(&seed).unwrap();
    assert_eq!(
        id.site_id(),
        "3d4017c3e843895a92b70aa74d1b7ebc9c982ccf2ec4968cc0cd55f12af4660c"
    );
    let sig = id.signing.as_ref().unwrap().sign(&[0x72]);
    assert_eq!(
        hex::encode(sig.to_bytes()),
        "92a009a9f0d4cab8720e820b5f642540a2b27b5416503f8fb3762223ebdb69da\
         085ac1e43e15996e458f3613d0f11d8c387b2eaeb4302aeeb00d291612bb0c00"
    );
}
