//! Content-addressed blobs, and packs of them.

use nexus::protocol::split_response;
use nexus::server::{handle_one, SiteStore};
use nexus::storage::{
    id_of, pack_blobs, FsStore, ImportReport, MemStore, StoreError, MAX_BLOB, MAX_PACK,
    PACK_HEADER_LEN, PACK_MAGIC,
};

#[test]
fn mem_put_get_roundtrip() {
    let mut s = MemStore::new();
    let id = s.put(b"hello").unwrap();
    assert!(id.starts_with("b3:"));
    assert_eq!(s.get(&id).unwrap(), b"hello");
}

#[test]
fn dedup_same_bytes() {
    let mut s = MemStore::new();
    let a = s.put(b"same").unwrap();
    let b = s.put(b"same").unwrap();
    assert_eq!(a, b);
    assert_eq!(s.len(), 1);
}

#[test]
fn rejects_missing() {
    let s = MemStore::new();
    assert!(matches!(
        s.get("b3:0000000000000000000000000000000000000000000000000000000000000000"),
        Err(StoreError::NotFound(_))
    ));
}

#[test]
fn verify_catches_tamper() {
    assert!(MemStore::verify(&id_of(b"a"), b"b").is_err());
}

#[test]
fn fs_rejects_traversal_id() {
    let fs = FsStore::new("/tmp/nexus-test-nope");
    assert!(fs.get("b3:../evil", None).is_err());
    assert!(fs.get("nope", None).is_err());
}

#[test]
fn fs_roundtrip() {
    let fs = FsStore::new("/tmp/nexus-cas");
    let (id, shard, rest) = fs.put(b"persistent").unwrap();
    assert_eq!(format!("b3:{shard}{rest}"), id);
    assert_eq!(shard.len(), 2);
    assert_eq!(
        fs.get(&id, Some(b"persistent".to_vec())).unwrap(),
        b"persistent"
    );
    // The second time it is the same place.
    assert_eq!(fs.put(b"persistent").unwrap().0, id);
}

#[test]
fn ids_are_the_hash_of_the_bytes() {
    assert_eq!(
        id_of(b""),
        "b3:af1349b9f5f9a1a6a0404dea36dcc9499bcb25c9adc112b7cc9a93cae41f3262"
    );
}

/// A node of the replication tests: the blobs that it holds.
fn contents(s: &MemStore, id: &str) -> Vec<u8> {
    s.get(id).unwrap().to_vec()
}

fn import_into(s: &mut MemStore, pack: &[u8]) -> Result<ImportReport, StoreError> {
    let (blobs, report) = FsStore::import(pack)?;
    for (id, bytes) in &blobs {
        assert_eq!(&s.put(bytes)?, id);
    }
    Ok(report)
}

fn export_from(s: &MemStore, ids: &[String]) -> Result<Vec<u8>, StoreError> {
    pack_blobs(&ids.iter().map(|id| contents(s, id)).collect())
}

#[test]
fn roundtrip() {
    let mut a = MemStore::new();
    let mut b = MemStore::new();
    let ids = vec![
        a.put(b"hello replication").unwrap(),
        a.put(b"").unwrap(), // empty blob is valid
        a.put(&vec![7u8; 1000]).unwrap(),
    ];
    let pack = export_from(&a, &ids).unwrap();
    assert_eq!(&pack[..7], b"NXPACK1");

    let report = import_into(&mut b, &pack).unwrap();
    assert_eq!(
        report,
        ImportReport {
            blobs: 3,
            total_bytes: 1017
        }
    );
    for id in &ids {
        assert_eq!(b.get(id).unwrap(), a.get(id).unwrap());
    }
    // A second import changes nothing.
    assert_eq!(import_into(&mut b, &pack).unwrap().blobs, 3);
    assert_eq!(b.len(), 3);

    // An empty pack is one, too.
    let empty = export_from(&a, &[]).unwrap();
    assert_eq!(empty.len(), PACK_HEADER_LEN);
    assert_eq!(
        import_into(&mut b, &empty).unwrap(),
        ImportReport {
            blobs: 0,
            total_bytes: 0
        }
    );
}

#[test]
fn tamper_reject() {
    let mut a = MemStore::new();
    let mut b = MemStore::new();
    let id_a = a.put(b"AAAAAAAAAAAAAAAAAAAA").unwrap();
    let id_b = a.put(b"BBBBBBBBBBBBBBBBBBBB").unwrap();
    let pack = export_from(&a, &[id_a.clone(), id_b.clone()]).unwrap();

    // One byte of the first blob, which starts at 11 + 36 = 47.
    let mut evil = pack.clone();
    evil[48] ^= 0xff;
    assert!(matches!(
        import_into(&mut b, &evil),
        Err(StoreError::Corrupt(_))
    ));
    // Nothing was stored by the failed import.
    assert!(matches!(b.get(&id_a), Err(StoreError::NotFound(_))));
    assert!(matches!(b.get(&id_b), Err(StoreError::NotFound(_))));

    // The right pack still imports into the same store.
    assert_eq!(import_into(&mut b, &pack).unwrap().blobs, 2);
    assert_eq!(b.get(&id_a).unwrap(), b"AAAAAAAAAAAAAAAAAAAA");
}

#[test]
fn truncation_reject() {
    let mut a = MemStore::new();
    let id = a.put(b"truncate me please").unwrap();
    let pack = export_from(&a, &[id]).unwrap();

    // Cut into the payload.
    assert!(FsStore::import(&pack[..pack.len() - 5]).is_err());
    // Cut inside the number of blobs.
    assert!(FsStore::import(&pack[..10]).is_err());
    // Header only, count claims entries that are not there.
    assert!(FsStore::import(&pack[..11]).is_err());
    // Bad magic.
    let mut evil = pack.clone();
    evil[0] = b'X';
    assert!(matches!(
        FsStore::import(&evil),
        Err(StoreError::Corrupt(_))
    ));
}

#[test]
fn trailing_garbage_reject() {
    let mut a = MemStore::new();
    let mut b = MemStore::new();
    let id = a.put(b"clean data").unwrap();
    let pack = export_from(&a, &[id.clone()]).unwrap();

    let mut evil = pack.clone();
    evil.extend_from_slice(b"GARBAGE");
    let err = import_into(&mut b, &evil).unwrap_err();
    assert!(matches!(err, StoreError::Corrupt(_)));
    assert!(err.to_string().contains("trailing"));
    assert!(matches!(b.get(&id), Err(StoreError::NotFound(_))));
}

#[test]
fn oversize_reject() {
    // A pack that claims a blob above the most.
    let mut evil: Vec<u8> = Vec::new();
    evil.extend_from_slice(b"NXPACK1");
    evil.extend_from_slice(&1u32.to_le_bytes());
    evil.extend_from_slice(&((MAX_BLOB + 1) as u32).to_le_bytes());
    evil.extend_from_slice(&[0u8; 32]);
    assert!(matches!(
        FsStore::import(&evil),
        Err(StoreError::TooLarge(_))
    ));

    // A pack that is too large as a whole.
    let mut huge = vec![0u8; MAX_PACK + 1];
    huge[..7].copy_from_slice(b"NXPACK1");
    assert!(matches!(
        FsStore::import(&huge),
        Err(StoreError::TooLarge(_))
    ));

    // None is built, either.
    let blobs = vec![vec![0u8; MAX_BLOB]; MAX_PACK / MAX_BLOB + 2];
    assert!(matches!(pack_blobs(&blobs), Err(StoreError::TooLarge(_))));
    assert!(matches!(
        MemStore::new().put(&vec![0u8; MAX_BLOB + 1]),
        Err(StoreError::TooLarge(_))
    ));
}

#[test]
fn traversal_id_battery_never_touches_fs() {
    let fs = FsStore::new("/tmp/nexus-traversal");
    let f = |n: usize| "f".repeat(n);
    let ids = [
        "".to_string(),
        "b3:".to_string(),
        "../secret".to_string(),
        "..\\..\\x".to_string(),
        "b3:../x".to_string(),
        "b3:..".to_string(),
        "b3:.".to_string(),
        "b3:/etc/passwd".to_string(),
        "b3:../../../../etc/passwd".to_string(),
        "b3:.".to_string(),
        format!("b3:{}", f(63)),
        format!("b3:{}", f(65)),
        format!("b3:{}", "g".repeat(64)),
        format!("b3:{}/..", f(62)),
        format!("b3:{}.json", "00".repeat(31)),
        format!("b3:{}..", f(62)),
        "B3:".to_string() + &f(64),
        format!("b3:{}\n", f(64)),
    ];
    for id in &ids {
        // No place in the store, whatever a file holds.
        assert!(fs.path_for(id).is_err(), "id {id:?} has a place");
        assert!(fs.get(id, Some(vec![])).is_err(), "id {id:?} resolved");
    }
    // Uppercase digits are an id, but no blob has it.
    let upper = format!("b3:{}", "F".repeat(64));
    assert!(matches!(
        fs.get(&upper, None),
        Err(StoreError::NotFound(_))
    ));
}

#[test]
fn hash_mismatch_on_read_battery() {
    let fs = FsStore::new("/tmp/nexus-hash-mismatch");
    let payload = b"integrity-battery-payload-0123456789";
    let id = fs.put(payload).unwrap().0;
    assert_eq!(fs.get(&id, Some(payload.to_vec())).unwrap(), payload);

    let mut wrong: Vec<Vec<u8>> = Vec::new();
    for pos in [0usize, payload.len() / 2, payload.len() - 1] {
        let mut raw = payload.to_vec();
        raw[pos] ^= 0x01;
        wrong.push(raw);
    }
    wrong.push(payload[..8].to_vec());
    let mut raw = payload.to_vec();
    raw.extend_from_slice(b"EXTRA");
    wrong.push(raw);
    wrong.push(vec![0x41; payload.len()]);
    for raw in wrong {
        assert!(matches!(
            fs.get(&id, Some(raw)),
            Err(StoreError::Corrupt(_))
        ));
    }
    // The id of another blob still gives exactly its own bytes.
    let id2 = fs.put(b"other-blob").unwrap().0;
    assert_ne!(id2, id);
    assert_eq!(fs.get(&id2, Some(b"other-blob".to_vec())).unwrap(), b"other-blob");
}

#[test]
fn nxpack1_header_battery() {
    let magic = PACK_MAGIC.as_slice();
    // Wrong or missing magic.
    assert!(matches!(FsStore::import(b""), Err(StoreError::Corrupt(_))));
    assert!(matches!(
        FsStore::import(b"NXPACK2\x00\x00\x00\x01"),
        Err(StoreError::Corrupt(_))
    ));
    // Magic only: count field truncated.
    assert!(matches!(
        FsStore::import(magic),
        Err(StoreError::Corrupt(_))
    ));
    // Magic and a count of zero: a pack without blobs.
    let mut empty = magic.to_vec();
    empty.extend_from_slice(&0u32.to_le_bytes());
    assert_eq!(FsStore::import(&empty).unwrap().1.blobs, 0);
    // A huge count fails at the first entry that is not there.
    let mut huge = magic.to_vec();
    huge.extend_from_slice(&u32::MAX.to_le_bytes());
    huge.extend_from_slice(&[0u8; 16]);
    assert!(matches!(
        FsStore::import(&huge),
        Err(StoreError::Corrupt(_))
    ));
    // A count of two with one entry.
    let payload = b"hello";
    let mut two = magic.to_vec();
    two.extend_from_slice(&2u32.to_le_bytes());
    two.extend_from_slice(&(payload.len() as u32).to_le_bytes());
    two.extend_from_slice(blake3::hash(payload).as_bytes());
    two.extend_from_slice(payload);
    assert!(matches!(
        FsStore::import(&two),
        Err(StoreError::Corrupt(_))
    ));
    // A blob longer than the pack.
    let mut badlen = magic.to_vec();
    badlen.extend_from_slice(&1u32.to_le_bytes());
    badlen.extend_from_slice(&u32::MAX.to_le_bytes());
    badlen.extend_from_slice(blake3::hash(payload).as_bytes());
    badlen.extend_from_slice(payload);
    assert!(matches!(
        FsStore::import(&badlen),
        Err(StoreError::TooLarge(_))
    ));
}

#[test]
fn symlink_at_blob_path_cannot_exfiltrate() {
    let fs = FsStore::new("/tmp/nexus-symlink");
    // A file at the place of a blob that holds other bytes, however it came
    // there, is never handed out as that blob.
    let id = id_of(b"innocent-looking-blob");
    match fs.get(&id, Some(b"TOPSECRET-NOT-A-NEXUS-BLOB".to_vec())) {
        Err(StoreError::Corrupt(_)) => {}
        other => panic!("expected Corrupt, got {other:?}"),
    }
    // And a stored blob next to it still verifies normally.
    let ok_id = fs.put(b"real-blob").unwrap().0;
    assert_eq!(fs.get(&ok_id, Some(b"real-blob".to_vec())).unwrap(), b"real-blob");
}

#[test]
fn node_a_to_node_b_serves_page() {
    let body = br#"{"metadata":{"schema":1,"site":"example","path":"home","title":"T","revision":1},"components":[{"type":"text","text":"hi"}],"capabilities":[]}"#;
    // Node A stores and packs; node B takes the pack in.
    let mut node_a = MemStore::new();
    let mut node_b = MemStore::new();
    let id = node_a.put(body).unwrap();
    let pack = export_from(&node_a, &[id.clone()]).unwrap();
    assert_eq!(import_into(&mut node_b, &pack).unwrap().blobs, 1);
    assert_eq!(node_b.get(&id).unwrap(), body);

    // Node B serves it.
    let mut site = SiteStore::new();
    let bytes = node_b.get(&id).unwrap().to_vec();
    site.insert("example", "home", bytes.clone(), Ok(bytes));
    let frame = handle_one("NXP/0.1 FETCH example home\n", &site).unwrap();
    let (header, got) = split_response(&frame).unwrap();
    assert_eq!(header.code, 200);
    assert_eq!(got, body);
}
