//! Names, signed endpoint records, and what backends bring.

use std::collections::HashMap;

use nexus::identity::{ResourceRecord, SignedRecord, SiteIdentity};
use nexus::keys::SigningKey;
use nexus::protocol::{encode_response, split_response};
use nexus::resolver::backend::{
    fetch_all, Backend, BackendError, DhtBackend, Exchange, FederatedBackend, GossipBackend, MemoryBackend,
};
use nexus::resolver::resolve::{
    CachingResolver, EndpointRecord, Offer, Payload, RecordStore, Revocation, Transport,
};
use nexus::resolver::{LocalResolver, ResolveError, Resolver, Route};
use nexus::server::{handle_one, SiteStore};


#[test]
fn resolves_known_name() {
    let mut r = LocalResolver::new();
    r.insert("example", Route::local(7843)).unwrap();
    let route = r.resolve("example").unwrap();
    assert_eq!(route.endpoints, vec!["127.0.0.1:7843"]);
}

#[test]
fn unknown_site_errors() {
    let r = LocalResolver::new();
    assert!(matches!(
        r.resolve("nope"),
        Err(ResolveError::UnknownSite(_))
    ));
}

#[test]
fn rejects_invalid_names() {
    let mut r = LocalResolver::new();
    assert!(r.insert("Example", Route::local(1)).is_err());
    assert!(r.resolve("EXAMPLE").is_err());
    assert!(r.resolve("../evil").is_err());
    assert!(r.resolve("").is_err());
}

#[test]
fn rejects_empty_route() {
    let mut r = LocalResolver::new();
    assert!(r
        .insert(
            "example",
            Route {
                endpoints: vec![],
                pinned_site_id: None
            }
        )
        .is_err());
}

#[test]
fn list_names_sorted() {
    let mut r = LocalResolver::new();
    r.insert("beta", Route::local(2)).unwrap();
    r.insert("alpha", Route::local(1)).unwrap();
    assert_eq!(r.list_names(), vec!["alpha", "beta"]);
}

fn test_key(seed: u8) -> SigningKey {
    SigningKey::from_bytes(&[seed; 32])
}

fn now() -> u64 {
    1_700_000_000
}

fn site_of(k: &SigningKey) -> String {
    hex::encode(k.verifying_key().to_bytes())
}

fn flip_hex_byte(hex_str: &str, byte_idx: usize) -> String {
    let mut raw = hex::decode(hex_str).unwrap();
    let i = byte_idx % raw.len();
    raw[i] ^= 0x01;
    hex::encode(raw)
}

fn make_record(signing: &SigningKey, host: &str, port: u16, seq: u64) -> EndpointRecord {
    EndpointRecord::sign(
        signing,
        &site_of(signing),
        Transport::Tcp,
        host,
        port,
        seq,
        now() + 86_400,
    )
}

/// The JSON form of an endpoint record.
fn endpoint_json(r: &EndpointRecord) -> String {
    let mut m = serde_json::Map::new();
    m.insert("site".into(), r.site.clone().into());
    m.insert("transport".into(), r.transport.to_u8().into());
    m.insert("host".into(), r.host.clone().into());
    m.insert("port".into(), r.port.into());
    m.insert("seq".into(), r.seq.into());
    m.insert("expires_at_unix".into(), r.expires_at_unix.into());
    m.insert("signature_hex".into(), r.signature_hex.clone().into());
    serde_json::Value::Object(m).to_string()
}

/// The JSON form of a revocation.
fn revocation_json(r: &Revocation) -> String {
    let mut m = serde_json::Map::new();
    m.insert("site".into(), r.site.clone().into());
    m.insert("max_seq".into(), r.max_seq.into());
    m.insert("expires_at_unix".into(), r.expires_at_unix.into());
    m.insert("signature_hex".into(), r.signature_hex.clone().into());
    serde_json::Value::Object(m).to_string()
}

/// What a text holds: an endpoint record, a revocation, or neither.
fn payload_of(text: &str) -> Payload {
    let v: serde_json::Value = match serde_json::from_str(text) {
        Ok(v) => v,
        Err(_) => return Payload::Other,
    };
    let field = |k: &str| v[k].as_str().map(str::to_owned);
    let number = |k: &str| v[k].as_u64();
    if let (Some(site), Some(host), Some(t), Some(port), Some(seq), Some(exp), Some(sig)) = (
        field("site"),
        field("host"),
        number("transport"),
        number("port"),
        number("seq"),
        number("expires_at_unix"),
        field("signature_hex"),
    ) {
        return Payload::Endpoint(EndpointRecord {
            site,
            transport: Transport::from_u8(t as u8).unwrap(),
            host,
            port: port as u16,
            seq,
            expires_at_unix: exp,
            signature_hex: sig,
        });
    }
    if let (Some(site), Some(max_seq), Some(exp), Some(sig)) = (
        field("site"),
        number("max_seq"),
        number("expires_at_unix"),
        field("signature_hex"),
    ) {
        return Payload::Revocation(Revocation {
            site,
            max_seq,
            expires_at_unix: exp,
            signature_hex: sig,
        });
    }
    Payload::Other
}

fn offers_of(records: Vec<SignedRecord>) -> Vec<Offer> {
    records
        .into_iter()
        .map(|s| Offer {
            payload: payload_of(&s.record.content_hash),
            path: s.record.path,
        })
        .collect()
}

fn envelope(name: &str, site: &str, content: String, expires: u64) -> SignedRecord {
    SignedRecord {
        record: ResourceRecord {
            site: site.to_string(),
            path: format!("@{name}"),
            content_hash: content,
            expires_at_unix: expires,
        },
        signature_hex: String::new(),
    }
}

fn endpoint_envelope(name: &str, rec: &EndpointRecord) -> SignedRecord {
    envelope(name, &rec.site, endpoint_json(rec), now() + 86_400)
}

#[test]
fn endpoint_record_roundtrip() {
    let k = test_key(1);
    let site = hex::encode(k.verifying_key().to_bytes());
    let rec = make_record(&k, "127.0.0.1", 7843, 1);
    rec.verify(&k.verifying_key(), now()).unwrap();
    assert_eq!(rec.site, site);
    assert_eq!(rec.endpoint(), "127.0.0.1:7843");
}

#[test]
fn tampered_endpoint_rejected() {
    let k = test_key(2);
    let mut rec = make_record(&k, "127.0.0.1", 7843, 1);
    rec.port = 9999;
    assert!(matches!(
        rec.verify(&k.verifying_key(), now()),
        Err(ResolveError::BadSignature(_))
    ));
}

#[test]
fn expired_endpoint_rejected() {
    let k = test_key(3);
    let rec = EndpointRecord::sign(
        &k,
        &hex::encode(k.verifying_key().to_bytes()),
        Transport::Tcp,
        "127.0.0.1",
        7843,
        1,
        now() - 10,
    );
    assert!(matches!(
        rec.verify(&k.verifying_key(), now()),
        Err(ResolveError::Expired(_, _))
    ));
}

#[test]
fn wrong_site_rejected() {
    let a = test_key(4);
    let b = test_key(5);
    let rec = make_record(&a, "127.0.0.1", 7843, 1);
    // Verify with B's key: site mismatch must fail.
    assert!(rec.verify(&b.verifying_key(), now()).is_err());
    assert!(matches!(
        rec.verify(&b.verifying_key(), now()),
        Err(ResolveError::BadSignature(_))
    ));
}

#[test]
fn unanchored_records_discarded() {
    let k = test_key(6);
    let mut store = RecordStore::new();
    assert!(!store.admit_record("nobody", make_record(&k, "127.0.0.1", 1, 1), now()));
    assert!(store.route("nobody", now()).is_none());
}

#[test]
fn anchored_admit_and_route() {
    let k = test_key(7);
    let mut store = RecordStore::new();
    store.trust("alice", k.verifying_key());
    assert!(store.admit_record("alice", make_record(&k, "10.0.0.1", 7843, 1), now()));
    let route = store.route("alice", now()).unwrap();
    assert_eq!(route.endpoints, vec!["10.0.0.1:7843"]);
    assert_eq!(
        route.pinned_site_id.as_deref(),
        Some(hex::encode(k.verifying_key().to_bytes()).as_str())
    );
}

#[test]
fn wrong_key_cannot_publish_under_trusted_name() {
    let owner = test_key(8);
    let attacker = test_key(9);
    let mut store = RecordStore::new();
    store.trust("alice", owner.verifying_key());
    // Attacker's record signed by attacker's key: fails site match.
    assert!(!store.admit_record("alice", make_record(&attacker, "evil", 666, 1), now()));
    assert!(store.route("alice", now()).is_none());
}

#[test]
fn caching_resolver_fetches_from_backend_then_warms_table() {
    let site_key = test_key(10);
    let site = hex::encode(site_key.verifying_key().to_bytes());

    // Backend holds a signed endpoint record under path "@alice".
    let rec = make_record(&site_key, "10.9.9.9", 7843, 1);
    let signed = envelope("alice", &site, endpoint_json(&rec), now() + 86_400);
    let mut backend = MemoryBackend::new();
    backend.advertise(&signed).unwrap();

    let table = LocalResolver::new();
    let mut store = RecordStore::new();
    store.trust("alice", site_key.verifying_key());
    let mut resolver = CachingResolver::new(table, store);

    // Cold: fetched from the backend, verified, routed.
    let route = resolver
        .resolve("alice", offers_of(backend.fetch("alice")), true, now(), 0)
        .unwrap();
    assert_eq!(route.endpoints, vec!["10.9.9.9:7843"]);
    assert_eq!(route.pinned_site_id.as_deref(), Some(site.as_str()));

    // Warm: second resolve survives without the backend.
    let route2 = resolver.resolve("alice", vec![], true, now(), 0).unwrap();
    assert_eq!(route2, route);
    assert!(resolver.list_names().contains(&"alice".to_string()));
}

#[test]
fn backends_are_asked_in_their_order() {
    let key = test_key(10);
    let site = hex::encode(key.verifying_key().to_bytes());
    let advert = |name: &str, host: &str, seq: u64| {
        let rec = make_record(&key, host, 7843, seq);
        envelope(name, &site, endpoint_json(&rec), now() + 86_400)
    };
    let mut backends = vec![
        MemoryBackend::new(),
        MemoryBackend::new(),
        MemoryBackend::new(),
    ];
    backends[0].advertise(&advert("bob", "10.0.0.1", 1)).unwrap();
    backends[1].advertise(&advert("alice", "10.0.0.2", 1)).unwrap();
    backends[2].advertise(&advert("alice", "10.0.0.3", 2)).unwrap();
    let records = fetch_all(&backends, "alice");
    assert_eq!(
        records,
        vec![advert("alice", "10.0.0.2", 1), advert("alice", "10.0.0.3", 2)]
    );
    assert!(fetch_all(&backends, "carol").is_empty());
    assert!(fetch_all::<MemoryBackend>(&vec![], "alice").is_empty());

    // The first backend that opens a route decides.
    let mut store = RecordStore::new();
    store.trust("alice", key.verifying_key());
    let mut resolver = CachingResolver::new(LocalResolver::new(), store);
    let route = resolver
        .resolve("alice", offers_of(records), true, now(), 0)
        .unwrap();
    assert_eq!(route.endpoints, vec!["10.0.0.2:7843"]);
}

#[test]
fn unknown_name_not_found() {
    let mut resolver = CachingResolver::new(LocalResolver::new(), RecordStore::new());
    assert!(matches!(
        resolver.resolve("nope", vec![], true, now(), 0),
        Err(ResolveError::UnknownSite(_))
    ));
}

/// Every one of the 64 endpoint-signature bytes flipped => verify fails.
#[test]
fn endpoint_signature_byte_flip_battery() {
    let k = test_key(1);
    let rec = make_record(&k, "127.0.0.1", 7843, 1);
    rec.verify(&k.verifying_key(), now()).unwrap();
    for i in 0..64 {
        let mut m = rec.clone();
        m.signature_hex = flip_hex_byte(&rec.signature_hex, i);
        assert!(
            matches!(
                m.verify(&k.verifying_key(), now()),
                Err(ResolveError::BadSignature(_))
            ),
            "endpoint sig byte {i} flip accepted"
        );
    }
    for bad in ["zz".repeat(64), String::new(), "abcd".to_string()] {
        let mut m = rec.clone();
        m.signature_hex = bad;
        assert!(m.verify(&k.verifying_key(), now()).is_err());
    }
}

/// Flip any signed endpoint field: host, port, seq, expiry, site.
#[test]
fn endpoint_field_flip_battery() {
    let k = test_key(2);
    let mut by_host = make_record(&k, "127.0.0.1", 7843, 1);
    by_host.host = "127.0.0.2".into();
    assert!(by_host.verify(&k.verifying_key(), now()).is_err());

    let mut by_port = make_record(&k, "127.0.0.1", 7843, 1);
    by_port.port += 1;
    assert!(by_port.verify(&k.verifying_key(), now()).is_err());

    let mut by_seq = make_record(&k, "127.0.0.1", 7843, 1);
    by_seq.seq += 1;
    assert!(by_seq.verify(&k.verifying_key(), now()).is_err());

    let mut by_expiry = make_record(&k, "127.0.0.1", 7843, 1);
    by_expiry.expires_at_unix = now() + 100;
    assert!(by_expiry.verify(&k.verifying_key(), now()).is_err());

    let mut by_site = make_record(&k, "127.0.0.1", 7843, 1);
    by_site.site = flip_hex_byte(&by_site.site, 0);
    assert!(matches!(
        by_site.verify(&k.verifying_key(), now()),
        Err(ResolveError::BadSignature(_))
    ));
}

/// Revocation: valid verify, then every flipped field / sig byte fails.
#[test]
fn revocation_byte_flip_battery() {
    let k = test_key(3);
    let site = hex::encode(k.verifying_key().to_bytes());
    let r = Revocation::sign(&k, &site, 42, now() + 86_400);
    r.verify(&k.verifying_key(), now()).unwrap();
    for i in 0..64 {
        let mut m = r.clone();
        m.signature_hex = flip_hex_byte(&r.signature_hex, i);
        assert!(
            m.verify(&k.verifying_key(), now()).is_err(),
            "revoke byte {i}"
        );
    }
    for (field, mutated) in [
        ("site", {
            let mut m = r.clone();
            m.site = flip_hex_byte(&r.site, 0);
            m
        }),
        ("max_seq", {
            let mut m = r.clone();
            m.max_seq += 1;
            m
        }),
        ("expires", {
            let mut m = r.clone();
            m.expires_at_unix = now() + 1;
            m
        }),
    ] {
        assert!(
            mutated.verify(&k.verifying_key(), now()).is_err(),
            "revocation {field} flip accepted"
        );
    }
    // The wrong signer can never revoke the target's records.
    let attacker = test_key(4);
    assert!(r.verify(&attacker.verifying_key(), now()).is_err());
    // Expired revocation is rejected outright.
    let expired = Revocation::sign(&k, &site, 42, now() - 10);
    assert!(matches!(
        expired.verify(&k.verifying_key(), now()),
        Err(ResolveError::Expired(_, _))
    ));
}


#[test]
fn expiration_and_stale_seq_battery() {
    let k = test_key(5);
    let mut s = RecordStore::new();
    s.trust("alice", k.verifying_key());

    // Live seq 1 admitted and routed.
    assert!(s.admit_record("alice", make_record(&k, "10.0.0.1", 1, 1), now()));
    assert_eq!(s.route("alice", now()).unwrap().endpoints, vec!["10.0.0.1:1"]);

    // Same-seq and lower-seq replays are stale: rejected.
    assert!(!s.admit_record("alice", make_record(&k, "10.0.0.9", 9, 1), now()));
    assert!(!s.admit_record("alice", make_record(&k, "10.0.0.9", 9, 0), now()));
    assert_eq!(s.route("alice", now()).unwrap().endpoints, vec!["10.0.0.1:1"]);

    // The clock passes the expiry: no route, until a fresh record comes.
    let later = now() + 100_000;
    assert!(s.route("alice", later).is_none());

    let fresh = EndpointRecord::sign(
        &k,
        &hex::encode(k.verifying_key().to_bytes()),
        Transport::Tcp,
        "10.0.0.2",
        2,
        2,
        now() + 300_000,
    );
    assert!(s.admit_record("alice", fresh, later));
    assert_eq!(s.route("alice", later).unwrap().endpoints, vec!["10.0.0.2:2"]);

    // Far future: everything expired, nothing routed.
    assert!(s.route("alice", now() + 400_000).is_none());
}

#[test]
fn tombstone_battery() {
    let k = test_key(6);
    let site = hex::encode(k.verifying_key().to_bytes());

    let mut s = RecordStore::new();
    s.trust("alice", k.verifying_key());
    assert!(s.admit_record("alice", make_record(&k, "10.0.0.1", 1, 3), now()));

    // Revocation with max_seq = 5: seq 3 suppressed, seq 6 allowed.
    assert!(s.revoke("alice", Revocation::sign(&k, &site, 5, now() + 86_400), now()));
    assert!(s.route("alice", now()).is_none());
    assert!(!s.admit_record("alice", make_record(&k, "10.0.0.4", 4, 4), now()));
    assert!(!s.admit_record("alice", make_record(&k, "10.0.0.5", 5, 5), now()));
    assert!(s.admit_record("alice", make_record(&k, "10.0.0.6", 6, 6), now()));
    assert_eq!(s.route("alice", now()).unwrap().endpoints, vec!["10.0.0.6:6"]);

    // Expired revocation: rejected, no tombstone installed (seq 6 survives).
    let expired_rev = Revocation::sign(&k, &site, 99, now() - 10);
    assert!(!s.revoke("alice", expired_rev, now()));
    assert_eq!(s.route("alice", now()).unwrap().endpoints, vec!["10.0.0.6:6"]);

    // Foreign-key revocation: rejected.
    let attacker = test_key(7);
    let forged = Revocation::sign(&attacker, &site, 99, now() + 86_400);
    assert!(!s.revoke("alice", forged, now()));

    // Untrusted name: nothing to revoke.
    assert!(!s.revoke(
        "nobody",
        Revocation::sign(&k, &site, 99, now() + 86_400),
        now()
    ));
}

#[test]
fn poisoned_backend_battery() {
    let k = test_key(8);
    let site = hex::encode(k.verifying_key().to_bytes());

    let mut backend = MemoryBackend::new();
    // 1. Garbage payload.
    backend
        .advertise(&envelope("alice", &site, "not json at all".into(), now() + 86_400))
        .unwrap();
    // 2. Structurally valid endpoint record that is already expired.
    let mut expired = make_record(&k, "10.0.0.1", 1, 1);
    expired.expires_at_unix = now() - 10;
    backend
        .advertise(&envelope("alice", &site, endpoint_json(&expired), now() + 86_400))
        .unwrap();
    // 3. Valid signature but seq 0: never current.
    let stale = EndpointRecord::sign(&k, &site, Transport::Tcp, "10.0.0.2", 2, 0, now() + 86_400);
    backend
        .advertise(&envelope("alice", &site, endpoint_json(&stale), now() + 86_400))
        .unwrap();
    // 4. Foreign-key record: signed by a key the name does not trust.
    let attacker = test_key(9);
    backend
        .advertise(&envelope(
            "alice",
            &site,
            endpoint_json(&make_record(&attacker, "evil", 666, 1)),
            now() + 86_400,
        ))
        .unwrap();
    // 5. Revocation envelope with no prior records: tombstone is installed.
    let rev = Revocation::sign(&k, &site, 99, now() + 86_400);
    backend
        .advertise(&envelope("alice", &site, revocation_json(&rev), now() + 86_400))
        .unwrap();

    let mut r = CachingResolver::new(LocalResolver::new(), RecordStore::new());
    r.trust("alice", k.verifying_key());
    // Nothing poisonous resolves; the tombstone suppresses the rest.
    assert!(matches!(
        r.resolve("alice", offers_of(backend.fetch("alice")), true, now(), 0),
        Err(ResolveError::UnknownSite(_))
    ));
    // A genuinely valid record above the tombstone still resolves.
    assert!(!r.admit_record("alice", make_record(&k, "10.0.0.7", 7, 99), now()));
    assert!(r.admit_record("alice", make_record(&k, "10.0.0.7", 7, 100), now()));
    assert_eq!(
        r.resolve("alice", offers_of(backend.fetch("alice")), true, now(), 0)
            .unwrap()
            .endpoints,
        vec!["10.0.0.7:7"]
    );
    assert!(r
        .resolve("alice", offers_of(backend.fetch("alice")), true, now(), 0)
        .is_ok());
}

#[test]
fn warm_table_serves_expired_route_documented() {
    let k = test_key(10);
    let site = hex::encode(k.verifying_key().to_bytes());

    let mut backend = MemoryBackend::new();
    let valid = make_record(&k, "10.0.0.1", 1, 1);
    backend
        .advertise(&envelope("alice", &site, endpoint_json(&valid), now() + 86_400))
        .unwrap();

    let mut r = CachingResolver::new(LocalResolver::new(), RecordStore::new());
    r.trust("alice", k.verifying_key());
    // Cold path warms the table.
    assert!(r
        .resolve("alice", offers_of(backend.fetch("alice")), true, now(), 0)
        .is_ok());

    // The clock passes the record expiry: the warm table still answers.
    assert!(
        r.resolve("alice", vec![], true, now() + 200_000, 200_000_000).is_ok(),
        "warm table should still serve"
    );

    // Fresh resolver, no warm table, nothing admitted: never resolves.
    let mut r2 = CachingResolver::new(LocalResolver::new(), RecordStore::new());
    r2.trust("alice", k.verifying_key());
    assert!(matches!(
        r2.resolve("alice", vec![], true, now() + 200_000, 200_000_000),
        Err(ResolveError::UnknownSite(_))
    ));
}

/// What a resolver server says of one name.
enum Serve {
    Records(Vec<SignedRecord>),
    Status(u16, Option<Vec<SignedRecord>>),
}

/// A resolver server; nothing where it does not answer.
type Server = Option<HashMap<String, Serve>>;

fn serve_records(name: &str, rec: &EndpointRecord) -> (String, Serve) {
    (
        name.to_string(),
        Serve::Records(vec![endpoint_envelope(name, rec)]),
    )
}

/// One request to each server.
fn exchanges(servers: &[Server], line: &str) -> Vec<Exchange> {
    let name = line.split(' ').nth(2).unwrap();
    assert_eq!(line, format!("NXP/0.1 RECORDS {name} @{name}\n"));
    servers
        .iter()
        .map(|s| match s {
            None => Exchange::Failed("connection refused".into()),
            Some(m) => match m.get(name) {
                Some(Serve::Records(r)) => Exchange::Answered(200, Some(r.clone())),
                Some(Serve::Status(code, r)) => Exchange::Answered(*code, r.clone()),
                None => Exchange::Answered(404, None),
            },
        })
        .collect()
}

fn fetch(backend: &mut FederatedBackend, servers: &[Server], name: &str) -> Vec<SignedRecord> {
    match backend.query_line(name) {
        Some(line) => backend.fetch(exchanges(servers, &line)),
        None => vec![],
    }
}

/// A resolver with one federated backend.
struct Federated {
    resolver: CachingResolver,
    backend: FederatedBackend,
    servers: Vec<Server>,
}

impl Federated {
    fn resolve_at(&mut self, name: &str, clock: u64) -> Result<Route, ResolveError> {
        if let Some(answer) = self.resolver.answer_at_once(name, clock) {
            return answer;
        }
        let failures = self.backend.stats().failures;
        let records = fetch(&mut self.backend, &self.servers, name);
        let authoritative = self.backend.stats().failures == failures;
        self.resolver
            .resolve(name, offers_of(records), authoritative, now(), clock)
    }

    fn resolve(&mut self, name: &str) -> Result<Route, ResolveError> {
        self.resolve_at(name, 0)
    }

    fn assert_unknown(&mut self, name: &str) {
        assert!(matches!(
            self.resolve(name),
            Err(ResolveError::UnknownSite(_))
        ));
    }
}

fn trust_and_resolve(name: &str, key: &SigningKey, servers: Vec<Server>) -> Federated {
    let mut store = RecordStore::new();
    store.trust(name, key.verifying_key());
    Federated {
        resolver: CachingResolver::new(LocalResolver::new(), store),
        backend: FederatedBackend::new(vec!["127.0.0.1:1".into(); servers.len()]),
        servers,
    }
}

#[test]
fn federated_cold_fetch_verifies_and_warms_table() {
    let site_key = test_key(1);
    let site = hex::encode(site_key.verifying_key().to_bytes());
    let rec = make_record(&site_key, "10.9.9.9", 7843, 1);
    let server = Some(HashMap::from([serve_records("alice", &rec)]));
    let mut resolver = trust_and_resolve("alice", &site_key, vec![server]);

    // Cold: fetched from the server, verified, routed.
    let route = resolver.resolve("alice").unwrap();
    assert_eq!(route.endpoints, vec!["10.9.9.9:7843"]);
    assert_eq!(route.pinned_site_id.as_deref(), Some(site.as_str()));
    // Warm: second resolve survives without touching the backend again.
    assert_eq!(resolver.resolve("alice").unwrap(), route);
    assert!(resolver.resolver.list_names().contains(&"alice".to_string()));

    let stats = resolver.backend.stats();
    assert_eq!((stats.requests, stats.records, stats.failures), (1, 1, 0));
}

#[test]
fn federated_poisoned_server_battery() {
    let k = test_key(2);
    let site = hex::encode(k.verifying_key().to_bytes());
    let mut expired = make_record(&k, "10.0.0.1", 1, 1);
    expired.expires_at_unix = now() - 10;
    let stale = EndpointRecord::sign(&k, &site, Transport::Tcp, "10.0.0.2", 2, 0, now() + 86_400);
    let attacker = test_key(3);
    let rev_json = revocation_json(&Revocation::sign(&k, &site, 99, now() + 86_400));

    let server = Some(HashMap::from([(
        "alice".to_string(),
        Serve::Records(vec![
            envelope("alice", &site, "not json at all".into(), now() + 86_400),
            endpoint_envelope("alice", &expired),
            endpoint_envelope("alice", &stale),
            endpoint_envelope("alice", &make_record(&attacker, "evil", 666, 1)),
            envelope("alice", &site, rev_json, now() + 86_400),
        ]),
    )]));
    let mut r = trust_and_resolve("alice", &k, vec![server]);
    // Nothing poisonous resolves; the tombstone suppresses the rest.
    r.assert_unknown("alice");
    // A genuinely valid record above the tombstone still resolves.
    assert!(r
        .resolver
        .admit_record("alice", make_record(&k, "10.0.0.7", 7, 100), now()));
    assert_eq!(r.resolve("alice").unwrap().endpoints, vec!["10.0.0.7:7"]);
}

#[test]
fn forged_and_foreign_key_records_never_admit() {
    let owner = test_key(4);
    let attacker = test_key(5);
    let forged = endpoint_envelope("alice", &make_record(&attacker, "evil", 666, 1));
    let server = || {
        Some(HashMap::from([(
            "alice".to_string(),
            Serve::Records(vec![forged.clone()]),
        )]))
    };

    // The forged envelope comes back untouched...
    let mut backend = FederatedBackend::new(vec!["127.0.0.1:1".into()]);
    assert_eq!(
        fetch(&mut backend, &[server()], "alice"),
        vec![forged.clone()]
    );
    // ...but nothing is admitted: site mismatch vs the trust anchor.
    let mut r = trust_and_resolve("alice", &owner, vec![server()]);
    r.assert_unknown("alice");
}

#[test]
fn expired_records_never_admit() {
    let k = test_key(6);
    let mut rec = make_record(&k, "10.0.0.1", 1, 1);
    rec.expires_at_unix = now() - 10;
    let server = Some(HashMap::from([serve_records("alice", &rec)]));
    let mut r = trust_and_resolve("alice", &k, vec![server]);
    r.assert_unknown("alice");
}

#[test]
fn stale_replay_rejected_newest_wins() {
    let k = test_key(7);
    let site = hex::encode(k.verifying_key().to_bytes());
    let server = Some(HashMap::from([(
        "alice".to_string(),
        Serve::Records(vec![
            endpoint_envelope("alice", &make_record(&k, "10.0.0.9", 9, 1)), // replay of seq 1
            endpoint_envelope("alice", &make_record(&k, "10.0.0.2", 2, 2)),
        ]),
    )]));
    let mut r = trust_and_resolve("alice", &k, vec![server]);
    // Seed the store's high-water mark offline (seq 1); table stays cold.
    assert!(r
        .resolver
        .admit_record("alice", make_record(&k, "10.0.0.1", 1, 1), now()));
    let route = r.resolve("alice").unwrap();
    // The replay was dropped by admission; seq 2 wins and pins.
    assert_eq!(route.endpoints, vec!["10.0.0.2:2"]);
    assert_eq!(route.pinned_site_id.as_deref(), Some(site.as_str()));
    // The backend delivered both; the core admitted only the advancing one.
    let stats = r.backend.stats();
    assert_eq!((stats.requests, stats.records, stats.failures), (1, 2, 0));
}

#[test]
fn wrong_path_envelopes_skipped() {
    let k = test_key(8);
    let rec = make_record(&k, "10.0.0.1", 1, 1);
    // The envelope stands under @mallory: only "@alice" is accepted here.
    let server = Some(HashMap::from([(
        "alice".to_string(),
        Serve::Records(vec![endpoint_envelope("mallory", &rec)]),
    )]));
    let mut r = trust_and_resolve("alice", &k, vec![server]);
    r.assert_unknown("alice");
    let server = Some(HashMap::from([serve_records("mallory", &rec)]));
    let mut r = trust_and_resolve("alice", &k, vec![server]);
    r.assert_unknown("alice");
}

#[test]
fn garbage_and_error_responses_are_transport_failures() {
    let k = test_key(9);
    let server = || {
        Some(HashMap::from([
            ("alice".to_string(), Serve::Status(200, None)),
            ("bob".to_string(), Serve::Status(500, None)),
        ]))
    };
    let mut backend = FederatedBackend::new(vec!["127.0.0.1:1".into()]);
    assert!(fetch(&mut backend, &[server()], "alice").is_empty());
    assert!(fetch(&mut backend, &[server()], "bob").is_empty());
    let stats = backend.stats();
    assert_eq!((stats.requests, stats.records, stats.failures), (2, 0, 2));

    let mut r = trust_and_resolve("alice", &k, vec![server()]);
    r.assert_unknown("alice");
}

#[test]
fn unreachable_and_authoritative_empty() {
    // Nobody listens: transport failure, empty fetch.
    let mut backend = FederatedBackend::new(vec!["127.0.0.1:1".into()]);
    assert!(fetch(&mut backend, &[None], "alice").is_empty());
    assert_eq!(backend.stats().failures, 1);

    // Authoritative 404: empty, but not a failure.
    let mut backend = FederatedBackend::new(vec!["127.0.0.1:1".into()]);
    assert!(fetch(&mut backend, &[Some(HashMap::new())], "nobody").is_empty());
    assert_eq!(
        (backend.stats().failures, backend.stats().last_code),
        (0, 404)
    );

    let k = test_key(10);
    let mut r = trust_and_resolve("nobody", &k, vec![Some(HashMap::new())]);
    r.assert_unknown("nobody");
}

#[test]
fn multi_endpoint_failover_and_aggregation() {
    let k = test_key(11);
    let site = hex::encode(k.verifying_key().to_bytes());
    let attacker = test_key(12);
    let bad = Some(HashMap::from([serve_records(
        "alice",
        &make_record(&attacker, "evil", 666, 1),
    )]));
    let good = Some(HashMap::from([serve_records(
        "alice",
        &make_record(&k, "10.0.0.5", 5, 5),
    )]));

    let mut r = trust_and_resolve("alice", &k, vec![None, bad, good]);
    // Unreachable + poisoned endpoints cannot veto the valid answer.
    let route = r.resolve("alice").unwrap();
    assert_eq!(route.endpoints, vec!["10.0.0.5:5"]);
    assert_eq!(route.pinned_site_id.as_deref(), Some(site.as_str()));
    let stats = r.backend.stats();
    assert_eq!((stats.requests, stats.records, stats.failures), (3, 2, 1));
}

#[test]
fn invalid_names_never_hit_the_wire() {
    let mut backend = FederatedBackend::new(vec!["127.0.0.1:1".into()]);
    assert!(fetch(&mut backend, &[None], "").is_empty());
    assert!(fetch(&mut backend, &[None], "UPPER").is_empty());
    assert_eq!(backend.stats().requests, 0);
    let mut r = trust_and_resolve("u p", &test_key(13), vec![None]);
    assert!(matches!(
        r.resolve("u p"),
        Err(ResolveError::InvalidName(_))
    ));
    assert_eq!(r.backend.stats().requests, 0);
}

#[test]
fn authoritative_empty_caches_negative_until_ttl() {
    let k = test_key(20);
    let mut r = trust_and_resolve("nobody", &k, vec![Some(HashMap::new())]);
    r.resolver = r.resolver.with_negative_ttl(80);
    // First miss hits the wire; second is served from the negative cache.
    r.assert_unknown("nobody");
    r.assert_unknown("nobody");
    assert_eq!(r.backend.stats().requests, 1);
    // After the term the backend is consulted again.
    assert!(r.resolve_at("nobody", 79).is_err());
    assert_eq!(r.backend.stats().requests, 1);
    assert!(r.resolve_at("nobody", 150).is_err());
    assert_eq!(r.backend.stats().requests, 2);
}

#[test]
fn transport_failure_never_caches_negative() {
    let k = test_key(21);
    let mut r = trust_and_resolve("nobody", &k, vec![None]);
    r.resolver = r.resolver.with_negative_ttl(3_600_000);
    // Failures are not knowledge: every resolve retries the wire.
    r.assert_unknown("nobody");
    r.assert_unknown("nobody");
    let stats = r.backend.stats();
    assert_eq!((stats.requests, stats.failures), (2, 2));
}

#[test]
fn admitted_record_clears_negative() {
    let k = test_key(22);
    let mut r = trust_and_resolve("nobody", &k, vec![Some(HashMap::new())]);
    r.assert_unknown("nobody");
    assert_eq!(r.backend.stats().requests, 1);
    // An admitted record clears the negative: the next resolve consults the
    // backend again and then serves the record from the store.
    assert!(r
        .resolver
        .admit_record("nobody", make_record(&k, "10.0.0.9", 9, 1), now()));
    let route = r.resolve("nobody").unwrap();
    assert_eq!(route.endpoints, vec!["10.0.0.9:9"]);
    assert_eq!(r.backend.stats().requests, 2);
}

/// The chain that a name owner publishes: an endpoint record inside a signed
/// envelope.
fn alice_chain(key: &SigningKey) -> SignedRecord {
    let site = hex::encode(key.verifying_key().to_bytes());
    let endpoint = EndpointRecord::sign(
        key,
        &site,
        Transport::Tcp,
        "127.0.0.1",
        9999,
        1,
        9_999_999_999,
    );
    let identity = SiteIdentity::from_secret_bytes(&key.to_bytes()).unwrap();
    identity
        .sign_record("@alice", &endpoint_json(&endpoint), 9_999_999_999)
        .unwrap()
}

/// The JSON array of signed records, and back.
fn chain_json(records: &[SignedRecord]) -> Vec<u8> {
    let list: Vec<serde_json::Value> = records
        .iter()
        .map(|s| {
            let mut r = serde_json::Map::new();
            r.insert("site".into(), s.record.site.clone().into());
            r.insert("path".into(), s.record.path.clone().into());
            r.insert("content_hash".into(), s.record.content_hash.clone().into());
            r.insert("expires_at_unix".into(), s.record.expires_at_unix.into());
            let mut m = serde_json::Map::new();
            m.insert("record".into(), r.into());
            m.insert("signature_hex".into(), s.signature_hex.clone().into());
            m.into()
        })
        .collect();
    serde_json::to_vec(&list).unwrap()
}

fn chain_of_json(bytes: &[u8]) -> Option<Vec<SignedRecord>> {
    let list: Vec<serde_json::Value> = serde_json::from_slice(bytes).ok()?;
    list.iter()
        .map(|v| {
            Some(SignedRecord {
                record: ResourceRecord {
                    site: v["record"]["site"].as_str()?.into(),
                    path: v["record"]["path"].as_str()?.into(),
                    content_hash: v["record"]["content_hash"].as_str()?.into(),
                    expires_at_unix: v["record"]["expires_at_unix"].as_u64()?,
                },
                signature_hex: v["signature_hex"].as_str()?.into(),
            })
        })
        .collect()
}

/// Resolves `alice` over a server that holds the chain.
fn over_stock_server(chain: &SignedRecord, anchor: &SigningKey) -> Result<Route, ResolveError> {
    let mut site = SiteStore::new();
    site.insert_endpoint_records("alice", chain_json(&[chain.clone()]));
    let mut backend = FederatedBackend::new(vec!["127.0.0.1:1".into()]);
    let line = backend.query_line("alice").unwrap();
    let frame = handle_one(&line, &site).unwrap();
    let (header, body) = split_response(&frame).unwrap();
    let records = backend.fetch(vec![Exchange::Answered(header.code, chain_of_json(body))]);
    let mut store = RecordStore::new();
    store.trust("alice", anchor.verifying_key());
    CachingResolver::new(LocalResolver::new(), store).resolve(
        "alice",
        offers_of(records),
        true,
        now(),
        0,
    )
}

#[test]
fn stock_server_answers_federated_backend() {
    let key = test_key(71);
    let route = over_stock_server(&alice_chain(&key), &key).unwrap();
    assert_eq!(route.endpoints, vec!["127.0.0.1:9999"]);
    assert_eq!(
        route.pinned_site_id.as_deref(),
        Some(hex::encode(key.verifying_key().to_bytes()).as_str())
    );
}

#[test]
fn stock_server_forged_chain_never_admits() {
    // A chain for alice that the wrong key signed: nothing is admitted.
    let owner = test_key(72);
    let attacker = test_key(73);
    assert!(over_stock_server(&alice_chain(&attacker), &owner).is_err());
}

#[test]
fn other_backends_hold_nothing() {
    let k = test_key(30);
    let signed = endpoint_envelope("alice", &make_record(&k, "10.0.0.1", 1, 1));
    let mut gossip = GossipBackend { peers: vec![] };
    let mut dht = DhtBackend::new(vec!["10.0.0.1:1".into()]);
    let _: Result<(), BackendError> = gossip.advertise(&signed);
    let _ = dht.advertise(&signed);
    assert!(gossip.fetch("alice").is_empty());
    assert!(dht.fetch("alice").is_empty());
    let mut memory = MemoryBackend::new();
    assert!(memory.is_empty());
    memory.advertise(&signed).unwrap();
    assert_eq!(memory.len(), 1);
    assert_eq!(memory.fetch("alice"), vec![signed]);
    assert!(memory.fetch("bob").is_empty());
}

#[test]
fn responses_of_the_wire_are_what_was_encoded() {
    let frame = encode_response(200, b"[]").unwrap();
    let (h, body) = split_response(&frame).unwrap();
    assert_eq!((h.code, body), (200, &b"[]"[..]));
    assert_eq!(chain_of_json(body), Some(vec![]));
}
