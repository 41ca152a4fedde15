//! Zone records: their wire form, and the store of what is live.

use nexus::resolver::crypto::{CryptoProvider, MockProvider};
use nexus::resolver::model::{
    hex_decode, hex_encode, Envelope, RecordKind, ResolveError, SignedRecord,
};
use nexus::resolver::store::{LocalStore, StoreError};

fn record(kind: RecordKind, seq: u64, payload: &[u8]) -> SignedRecord {
    SignedRecord {
        zone: [1; 32],
        seq,
        kind,
        payload: payload.to_vec(),
        expires_at: Some(1_000),
        signature: [3; 64],
        signer: [2; 32],
    }
}

fn store() -> LocalStore<MockProvider> {
    let mut s = LocalStore::in_memory(MockProvider);
    s.bootstrap_root_key([1; 32], [2; 32]);
    s
}

#[test]
fn wire_form_reads_back() {
    let e = Envelope {
        version: 1,
        record: record(RecordKind::Service, 7, b"payload"),
    };
    let wire = e.to_wire();
    assert_eq!(wire.len(), 154 + 7);
    assert_eq!(wire[0], 1);
    assert_eq!(&wire[33..41], &7u64.to_le_bytes());
    assert_eq!(wire[41], 2);
    assert_eq!(Envelope::from_wire(&wire).unwrap().record, e.record);
    assert_eq!(Envelope::from_hex(&e.to_hex()).unwrap().record, e.record);
    let mut never = record(RecordKind::Node, 1, b"");
    never.expires_at = None;
    let e = Envelope {
        version: 1,
        record: never,
    };
    assert_eq!(Envelope::from_wire(&e.to_wire()).unwrap().record, e.record);
}

#[test]
fn signed_bytes_are_zone_seq_kind_payload_expiry() {
    let mut r = record(RecordKind::Content, 7, b"payload");
    let mut expected = vec![1u8; 32];
    expected.extend_from_slice(&7u64.to_le_bytes());
    expected.push(3);
    expected.extend_from_slice(b"payload");
    expected.extend_from_slice(&1_000u64.to_le_bytes());
    assert_eq!(r.signed_bytes(), expected);
    // Neither the signature nor the signer is covered.
    r.signature = [8; 64];
    r.signer = [9; 32];
    assert_eq!(r.signed_bytes(), expected);
    // Without an expiry the largest number stands for it.
    r.expires_at = None;
    let at = expected.len() - 8;
    expected[at..].copy_from_slice(&u64::MAX.to_le_bytes());
    assert_eq!(r.signed_bytes(), expected);
}

#[test]
fn high_water_never_falls() {
    let mut s = store();
    assert_eq!(s.high_water([1; 32]), 0);
    s.admit_record(record(RecordKind::Node, 5, b"a"), 10).unwrap();
    assert_eq!(s.high_water([1; 32]), 5);
    // The record expires, and is dropped; the mark stays.
    assert!(s.lookup([1; 32], 1_001).is_empty());
    assert_eq!(s.high_water([1; 32]), 5);
    // An older record may take the empty place, and does not lower the mark.
    let mut older = record(RecordKind::Node, 4, b"b");
    older.expires_at = None;
    s.admit_record(older, 1_001).unwrap();
    assert_eq!(s.lookup([1; 32], 1_001).len(), 1);
    assert_eq!(s.high_water([1; 32]), 5);
    // Whatever is admitted counts, delegations and revocations too.
    s.admit_record(record(RecordKind::Delegation, 8, &[6; 40]), 10).unwrap();
    assert_eq!(s.high_water([1; 32]), 8);
    s.admit_record(record(RecordKind::Revocation, 12, &5u64.to_le_bytes()), 10)
        .unwrap();
    assert_eq!(s.high_water([1; 32]), 12);
    assert!(s.admit_record(record(RecordKind::Node, 5, b"c"), 10).is_err());
    assert_eq!(s.high_water([1; 32]), 12);
    assert_eq!(s.high_water([2; 32]), 0);
}

#[test]
fn wire_form_refuses_what_is_wrong() {
    let wire = Envelope {
        version: 1,
        record: record(RecordKind::Alias, 7, b"payload"),
    }
    .to_wire();
    for cut in 0..wire.len() {
        assert_eq!(
            Envelope::from_wire(&wire[..cut]).unwrap_err(),
            ResolveError::Malformed
        );
    }
    let mut v2 = wire.clone();
    v2[0] = 2;
    assert_eq!(
        Envelope::from_wire(&v2).unwrap_err(),
        ResolveError::UnsupportedVersion(2)
    );
    let mut kind = wire.clone();
    kind[41] = 9;
    assert_eq!(
        Envelope::from_wire(&kind).unwrap_err(),
        ResolveError::UnknownKind(9)
    );
    let mut len = wire.clone();
    len[42..50].copy_from_slice(&u64::MAX.to_le_bytes());
    assert_eq!(
        Envelope::from_wire(&len).unwrap_err(),
        ResolveError::Malformed
    );
    assert_eq!(
        Envelope::from_hex("0g").unwrap_err(),
        ResolveError::Malformed
    );
}

#[test]
fn hex_texts_read_back() {
    assert_eq!(hex_encode(&[0, 15, 255]), "000fff");
    assert_eq!(hex_decode("000fFF").unwrap(), vec![0, 15, 255]);
    assert!(hex_decode("abc").is_err());
    assert!(hex_decode("zz").is_err());
}

#[test]
fn newer_records_replace_older_ones() {
    let mut s = store();
    assert!(s.admit_record(record(RecordKind::Node, 2, b"a"), 10).is_ok());
    assert_eq!(
        s.admit_record(record(RecordKind::Node, 2, b"b"), 10)
            .unwrap_err(),
        ResolveError::StaleSequence
    );
    assert!(s.admit_record(record(RecordKind::Node, 3, b"c"), 10).is_ok());
    let live = s.lookup([1; 32], 10);
    assert_eq!(live.len(), 1);
    assert_eq!(live[0].record.payload, b"c");
    assert_eq!(s.high_water([1; 32]), 3);
    assert_eq!(s.live_records().len(), 1);
    assert!(s.admit_record(record(RecordKind::Alias, 1, b"d"), 10).is_ok());
    assert_eq!(s.live_records().len(), 2);
}

#[test]
fn unknown_signers_and_expired_records_are_refused() {
    let mut s = store();
    let mut foreign = record(RecordKind::Node, 1, b"a");
    foreign.signer = [9; 32];
    assert_eq!(
        s.admit_record(foreign, 10).unwrap_err(),
        ResolveError::BadSignature
    );
    assert_eq!(
        s.validate(&record(RecordKind::Node, 1, b"a"), 1_001)
            .unwrap_err(),
        ResolveError::Revoked
    );
    assert!(s.validate(&record(RecordKind::Node, 1, b"a"), 1_000).is_ok());
    let mut other = LocalStore::in_memory(MockProvider);
    assert_eq!(
        other
            .admit_record(record(RecordKind::Node, 1, b"a"), 10)
            .unwrap_err(),
        ResolveError::BadSignature
    );
}

#[test]
fn revocations_hold_for_good() {
    let mut s = store();
    s.admit_record(record(RecordKind::Content, 4, b"a"), 10).unwrap();
    s.admit_record(
        record(RecordKind::Revocation, 100, &5u64.to_le_bytes()),
        10,
    )
    .unwrap();
    assert!(s.lookup([1; 32], 10).is_empty());
    assert!(s.is_negative([1; 32], 10));
    assert_eq!(
        s.admit_record(record(RecordKind::Content, 5, b"b"), 10)
            .unwrap_err(),
        ResolveError::Revoked
    );
    assert!(s
        .admit_record(record(RecordKind::Content, 6, b"c"), 10)
        .is_ok());
    assert!(!s.is_negative([1; 32], 10));
}

#[test]
fn delegated_keys_may_sign() {
    let mut s = store();
    s.admit_record(record(RecordKind::Delegation, 1, &[7u8; 32]), 10)
        .unwrap();
    let mut by_delegate = record(RecordKind::Node, 1, b"a");
    by_delegate.signer = [7; 32];
    assert!(s.admit_record(by_delegate, 10).is_ok());
}

#[test]
fn expired_records_leave_at_lookup() {
    let mut s = store();
    s.admit_record(record(RecordKind::Node, 1, b"a"), 10).unwrap();
    assert_eq!(s.lookup([1; 32], 1_000).len(), 1);
    assert!(s.lookup([1; 32], 1_001).is_empty());
}

#[test]
fn logs_fill_a_store_again() {
    let mut s = store();
    let records = [
        record(RecordKind::Node, 1, b"a"),
        record(RecordKind::Service, 2, b"b"),
    ];
    let mut lines = Vec::new();
    for r in &records {
        lines.push(LocalStore::<MockProvider>::log_line(r));
        s.admit_record(r.clone(), 10).unwrap();
    }
    let mut again = store();
    again.replay(&lines, 10).unwrap();
    assert_eq!(again.lookup([1; 32], 10), s.lookup([1; 32], 10));
    let bad = vec!["not hex\n".to_string()];
    assert!(matches!(
        store().replay(&bad, 10),
        Err(StoreError::Corrupt(_))
    ));
}

#[test]
fn the_mock_signs_zeros() {
    assert_eq!(MockProvider.sign(b"x", &[0; 32]), Some([0; 64]));
    assert!(MockProvider.verify(&record(RecordKind::Node, 1, b"")));
}
