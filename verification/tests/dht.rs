//! Routing tables, lookups, and a simulated network under attack.

use nexus::dht::{
    bucket_index, lookup, value_key, xordist, Network, Rng, RoutingTable, VerifyBoundary, K,
    MAX_ROUNDS,
};

fn now() -> u64 {
    1_700_000_000
}


#[test]
fn bucket_index_and_lru_bucket() {
    let own = 0x8000_0000_0000_0000u64;
    assert_eq!(bucket_index(own, own), None);
    assert_eq!(bucket_index(own, own | 1), Some(0));
    assert_eq!(bucket_index(own, 1), Some(63));
    assert!(xordist(own, own | 1) < xordist(own, 1));

    let mut t = RoutingTable::new(0);
    let base = 1u64 << 59; // ids in one distance window → one bucket
    for i in 0..K + 2 { t.insert(base + i as u64); }
    let b = &mut t.buckets[59];
    assert_eq!(b.len(), K);
    assert!(!b.contains(&base));                 // LRU evicted (0 was first)
    assert!(b.contains(&(base + K as u64 + 1))); // newest present
    t.insert(base + 3);                          // refresh existing entry
    assert_eq!(t.buckets[59].last(), Some(&(base + 3)));
    assert_eq!(t.buckets[59].len(), K);
}
#[test]
fn closest_sorted_and_limited() {
    let mut t = RoutingTable::new(42);
    for i in 1..=30 { t.insert(i); }
    let c = t.closest(42, 5);
    assert_eq!(c.len(), 5);
    assert!(c.windows(2).all(|w| xordist(42, w[0]) <= xordist(42, w[1])));
}
#[test]
fn lookup_converges_small_net() {
    let mut rng = Rng::new(7);
    let net = Network::build(&mut rng, 50, 0, false, K).unwrap();
    let lk = lookup(&net, net.nodes[49].id, net.key);
    assert!(lk.rounds <= MAX_ROUNDS);
    assert_eq!(lk.requests, lk.responses); // no churn → every request answered
    assert_eq!(lk.contacted.len(), lk.responses.min(K));
}


#[test]
fn forged_records_die_at_verification_boundary() {
    let b = VerifyBoundary::new();
    let mut store = b.fresh_store();
    assert!(store.admit_record("alice", b.record.clone(), now()));   // honest → admitted
    assert!(!store.admit_record("alice", b.forged.clone(), now()));  // forged → refused
    let route = store.route("alice", now()).expect("route");
    assert_eq!(route.endpoints, vec!["10.0.0.1:7443"]);
    assert!(!route.endpoints.contains(&"6.6.6.6:6666".to_string()));
}
#[test]
fn healthy_network_resolves_verified_record() {
    let mut rng = Rng::new(1);
    let net = Network::build(&mut rng, 100, 0, false, K).unwrap();
    for _ in 0..10 {
        let o = net.resolve(99, now());
        assert_eq!(o.verified, 1, "healthy lookup must find the record");
        assert_eq!(o.forged, 0);
    }
}
#[test]
fn sybil_forgery_never_admits_even_under_eclipse() {
    let mut rng = Rng::new(2);
    // random-id sybil: forgeries rejected (availability kept)
    let net = Network::build(&mut rng, 100, 25, false, K).unwrap();
    assert_eq!(net.resolve(99, now()).forged, 0);
    // targeted sybil: eclipse kills availability, forgeries still rejected
    let net = Network::build(&mut rng, 100, 50, true, K).unwrap();
    let routed: usize = (0..20).map(|_| net.resolve(99, now()).verified).sum();
    let forged: usize = (0..20).map(|_| net.resolve(99, now()).forged).sum();
    assert_eq!(routed, 0, "targeted sybil eclipses honest replicas");
    assert_eq!(forged, 0, "…and never admits a forged record");
}

#[test]
fn random_numbers_are_reproducible() {
    let mut a = Rng::new(1);
    let mut b = Rng::new(1);
    let x = a.next();
    assert_eq!(x, b.next());
    assert_ne!(x, a.next());
    // One step from the first state, written out.
    let s = 0x9E37_79B9_7F4A_7C15u64;
    let s = s ^ (s << 13);
    let s = s ^ (s >> 7);
    assert_eq!(x, s ^ (s << 17));
    assert!(a.pick(10) < 10);
}

#[test]
fn value_keys_start_the_hash() {
    let h = blake3::hash(b"alice\0endpoint");
    let mut first = [0u8; 8];
    first.copy_from_slice(&h.as_bytes()[..8]);
    assert_eq!(value_key("alice", "endpoint"), u64::from_le_bytes(first));
    assert_ne!(value_key("alice", "endpoint"), value_key("alice", "content"));
}

#[test]
fn offline_nodes_do_not_answer() {
    let mut rng = Rng::new(3);
    let mut net = Network::build(&mut rng, 60, 0, false, K).unwrap();
    assert!(net.apply_churn(&mut rng, 30, 59));
    assert_eq!(net.nodes.iter().filter(|n| n.offline).count(), 30);
    assert!(!net.nodes[59].offline);
    let o = net.resolve(59, now());
    assert!(o.lookup.responses <= o.lookup.requests);
    assert_eq!(
        o.lookup.find_node_messages(),
        o.lookup.requests + o.lookup.responses
    );
    assert_eq!(o.fetches, 2 * o.lookup.contacted.len());
    assert_eq!(o.forged, 0);
}

#[test]
fn the_record_expires_in_the_simulation_too() {
    let mut rng = Rng::new(1);
    let net = Network::build(&mut rng, 100, 0, false, K).unwrap();
    assert_eq!(net.resolve(99, 4_000_000_000).verified, 0);
}
