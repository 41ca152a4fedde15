//! A simulated network over the routing core. Every record that a lookup
//! brings passes the verification of the resolver's record store.

use crate::bytes::{le_number, le_value};
use crate::dht::kademlia::{
    after_seen, all_ids, all_known, bucket_of, buckets_view, by_distance, first_ids, found,
    law_all_ids_are_those_of_the_buckets, law_buckets_go_by_the_highest_difference,
    lemma_by_distance, lemma_top_bit, lemma_touched_sound, lookup, sorted_by_distance,
    sound_bucket, touched, KademliaNet, Lookup, RoutingTable, K,
};
use crate::digest::{blake3_digest, blake3_hash};
use crate::hex_text::{encode_hex, hex_chars, law_hex_is_injective};
use crate::keys::{ed25519_public, SigningKey};
use crate::resolver::resolve::{
    admissible, empty_store, endpoint_fault, number_of, signed_endpoint, with_record,
    EndpointRecord, EndpointView, RecordStore, StoreView, Transport,
};
use vstd::prelude::*;
use vstd::string::*;
use vstd::utf8::*;

verus! {

/// Most random numbers that one search draws before it gives up.
pub const DRAWS: u64 = 0xffff_ffff_ffff_ffff;

/// The state of the random numbers for a seed.
pub open spec fn seeded(seed: u64) -> u64 {
    ((seed * 0x9E37_79B9_7F4A_7C15) % 0x1_0000_0000_0000_0000) as u64 | 1
}

/// The state after a state, which is also the number that is drawn.
pub open spec fn drawn_after(x: u64) -> u64 {
    let a = x ^ (x << 13);
    let b = a ^ (a >> 7);
    b ^ (b << 17)
}

/// Reproducible random numbers, by shifts and exclusive or.
#[derive(Debug)]
pub struct Rng(pub u64);

impl Rng {
    /// The numbers of a seed.
    pub fn new(seed: u64) -> (r: Self)
        ensures
            r.0 == seeded(seed),
            r.0 != 0,
    {
        let x = seed.wrapping_mul(0x9E37_79B9_7F4A_7C15);
        assert(x | 1 != 0) by (bit_vector);
        Rng(x | 1)
    }

    /// The next number.
    pub fn next(&mut self) -> (x: u64)
        ensures
            x == drawn_after(old(self).0),
            final(self).0 == x,
    {
        let mut x: u64 = self.0;
        x = x ^ (x << 13);
        x = x ^ (x >> 7);
        x = x ^ (x << 17);
        self.0 = x;
        x
    }

    /// The next number below `n`.
    pub fn pick(&mut self, n: usize) -> (x: usize)
        requires
            n > 0,
        ensures
            x == drawn_after(old(self).0) % (n as u64),
            final(self).0 == drawn_after(old(self).0),
            x < n,
    {
        let x = self.next() % (n as u64);
        x as usize
    }
}

/// The numbers never run dry: a state other than zero is followed by one
/// other than zero, and different states by different ones.
pub proof fn law_random_states_do_not_die(x: u64, y: u64)
    ensures
        x != 0 ==> drawn_after(x) != 0,
        drawn_after(x) == drawn_after(y) ==> x == y,
{
    let (a, b) = (x ^ (x << 13), y ^ (y << 13));
    let (c, d) = (a ^ (a >> 7), b ^ (b >> 7));
    assert(x ^ (x << 13) == y ^ (y << 13) ==> x == y) by (bit_vector);
    assert(a ^ (a >> 7) == b ^ (b >> 7) ==> a == b) by (bit_vector);
    assert(c ^ (c << 17) == d ^ (d << 17) ==> c == d) by (bit_vector);
    assert(x != 0 ==> x ^ (x << 13) != 0) by (bit_vector);
    assert(a != 0 ==> a ^ (a >> 7) != 0) by (bit_vector);
    assert(c != 0 ==> c ^ (c << 17) != 0) by (bit_vector);
}

/// The key of a value: the first eight bytes, lowest first, of the hash of
/// the name, a zero byte and the kind.
pub open spec fn value_id(name: Seq<char>, kind: Seq<char>) -> nat {
    le_value(blake3_hash(encode_utf8(name) + seq![0u8] + encode_utf8(kind))@.take(8))
}

/// The key of a value.
pub fn value_key(name: &str, kind: &str) -> (key: u64)
    ensures
        key == value_id(name@, kind@),
{
    let mut form: Vec<u8> = Vec::new();
    form.extend_from_slice(name.as_bytes());
    form.push(0);
    form.extend_from_slice(kind.as_bytes());
    assert(form@ =~= encode_utf8(name@) + seq![0u8] + encode_utf8(kind@));
    let hash = blake3_digest(form.as_slice());
    let head = vstd::slice::slice_subrange(hash.as_slice(), 0, 8);
    assert(head@ =~= hash@.take(8));
    le_number(head)
}

/// One node of the network.
#[derive(Debug, Clone)]
pub struct Node {
    pub id: u64,
    pub table: RoutingTable,
    pub malicious: bool,
    pub offline: bool,
    /// Holds a replica of the record, and serves it where it is honest.
    pub holder: bool,
}

/// The mathematical value of a [`Node`].
pub struct NodeView {
    pub id: u64,
    pub buckets: Seq<Seq<u64>>,
    pub malicious: bool,
    pub offline: bool,
    pub holder: bool,
}

impl View for Node {
    type V = NodeView;

    open spec fn view(&self) -> NodeView {
        NodeView {
            id: self.id,
            buckets: buckets_view(self.table.buckets@),
            malicious: self.malicious,
            offline: self.offline,
            holder: self.holder,
        }
    }
}

/// The values of nodes.
pub open spec fn nodes_view(nodes: Seq<Node>) -> Seq<NodeView> {
    Seq::new(nodes.len(), |i: int| nodes[i]@)
}

/// The record of the simulated name as a seed signs it: for the site of the
/// seed's own key.
pub open spec fn alice_record(seed: Seq<u8>, host: Seq<char>, port: u16) -> EndpointView {
    signed_endpoint(
        seed,
        EndpointView {
            site: hex_chars(ed25519_public(seed)),
            transport: Transport::Tcp,
            host,
            port,
            seq: 1,
            expires_at_unix: 4_000_000_000,
            signature_hex: Seq::empty(),
        },
    )
}

/// A record store in which the simulated name is anchored, and which holds
/// nothing.
pub open spec fn anchored_store(key: Seq<u8>) -> StoreView {
    StoreView { anchors: Map::<Seq<char>, Seq<u8>>::empty().insert("alice"@, key), ..empty_store() }
}

/// The verification that every record has to pass: the name is anchored to
/// the honest key alone.
pub struct VerifyBoundary {
    pub honest: SigningKey,
    /// The record that the honest key signed.
    pub record: EndpointRecord,
    /// The record that the attacker signed for the same name.
    pub forged: EndpointRecord,
}

impl Default for VerifyBoundary {
    fn default() -> (b: Self)
        ensures
            b.sound(),
    {
        Self::new()
    }
}

impl VerifyBoundary {
    /// The keys and the two records are the fixed ones of the simulation.
    pub open spec fn sound(self) -> bool {
        &&& self.honest@ == Seq::new(32, |i: int| 7u8)
        &&& self.record@ == alice_record(Seq::new(32, |i: int| 7u8), "10.0.0.1"@, 7443)
        &&& self.forged@ == alice_record(Seq::new(32, |i: int| 9u8), "6.6.6.6"@, 6666)
    }

    /// The honest key, and what it and the attacker sign.
    pub fn new() -> (b: Self)
        ensures
            b.sound(),
    {
        let honest_seed: [u8; 32] = [7; 32];
        let attacker_seed: [u8; 32] = [9; 32];
        assert(honest_seed@ =~= Seq::new(32, |i: int| 7u8));
        assert(attacker_seed@ =~= Seq::new(32, |i: int| 9u8));
        let honest = SigningKey::from_bytes(&honest_seed);
        let attacker = SigningKey::from_bytes(&attacker_seed);
        let honest_site = encode_hex(honest.verifying_key().to_bytes().as_slice());
        let attacker_site = encode_hex(attacker.verifying_key().to_bytes().as_slice());
        let expiry: u64 = 4_000_000_000;
        let record = EndpointRecord::sign(
            &honest,
            honest_site.as_str(),
            Transport::Tcp,
            "10.0.0.1",
            7443,
            1,
            expiry,
        );
        let forged = EndpointRecord::sign(
            &attacker,
            attacker_site.as_str(),
            Transport::Tcp,
            "6.6.6.6",
            6666,
            1,
            expiry,
        );
        VerifyBoundary { honest, record, forged }
    }

    /// An empty store that trusts the honest key alone.
    pub fn fresh_store(&self) -> (s: RecordStore)
        ensures
            s@ == anchored_store(ed25519_public(self.honest@)),
    {
        let mut s = RecordStore::new();
        s.trust("alice", self.honest.verifying_key());
        s
    }
}

/// The position of an id among nodes, or their number.
fn node_index(nodes: &Vec<Node>, id: u64) -> (p: usize)
    ensures
        p <= nodes@.len(),
        p < nodes@.len() ==> nodes@[p as int].id == id,
        p < nodes@.len() <==> ids_of(nodes@).contains(id),
{
    let ghost ids = ids_of(nodes@);
    let mut p: usize = 0;
    while p < nodes.len() && nodes[p].id != id
        invariant
            p <= nodes@.len(),
            forall|j: int| 0 <= j < p ==> nodes@[j].id != id,
        decreases nodes@.len() - p,
    {
        p = p + 1;
    }
    proof {
        if p < nodes@.len() {
            assert(ids[p as int] == id);
        } else if ids.contains(id) {
            let k = ids.index_of(id);
            assert(ids[k] == nodes@[k].id);
        }
    }
    p
}

/// The ids of nodes.
pub open spec fn ids_of(nodes: Seq<Node>) -> Seq<u64> {
    Seq::new(nodes.len(), |i: int| nodes[i].id)
}

/// All ids of buckets are among some ids.
pub open spec fn buckets_within(buckets: Seq<Seq<u64>>, ids: Seq<u64>) -> bool {
    forall|b: int, j: int|
        0 <= b < buckets.len() && 0 <= j < buckets[b].len() ==> ids.contains(
            #[trigger] buckets[b][j],
        )
}

/// A simulated network.
pub struct Network {
    pub nodes: Vec<Node>,
    /// The key of the value that is looked up.
    pub key: u64,
    pub boundary: VerifyBoundary,
}

/// Node `i` of a network is in order: its table is its own and knows nodes
/// of the network only.
pub open spec fn node_sound(nodes: Seq<Node>, i: int) -> bool {
    &&& nodes[i].table.wf()
    &&& nodes[i].table.own_id == nodes[i].id
    &&& buckets_within(buckets_view(nodes[i].table.buckets@), ids_of(nodes))
}

impl Network {
    /// No two nodes have one id, and every node is in order.
    pub open spec fn wf(self) -> bool {
        &&& ids_of(self.nodes@).no_duplicates()
        &&& forall|i: int| 0 <= i < self.nodes@.len() ==> #[trigger] node_sound(self.nodes@, i)
        &&& self.boundary.sound()
    }

    /// The position of a node.
    pub open spec fn place(self, id: u64) -> int {
        ids_of(self.nodes@).index_of(id)
    }
}

proof fn lemma_all_ids_within(buckets: Seq<Seq<u64>>, ids: Seq<u64>)
    requires
        buckets_within(buckets, ids),
    ensures
        forall|j: int| 0 <= j < all_ids(buckets).len() ==> ids.contains(#[trigger] all_ids(buckets)[j]),
    decreases buckets.len(),
{
    if buckets.len() > 0 {
        let front = buckets.drop_last();
        assert forall|b: int, j: int| 0 <= b < front.len() && 0 <= j < front[b].len() implies ids.contains(
            #[trigger] front[b][j]) by {
            assert(front[b][j] == buckets[b][j]);
        }
        lemma_all_ids_within(front, ids);
        let n = all_ids(front).len();
        assert forall|j: int| 0 <= j < all_ids(buckets).len() implies ids.contains(
            #[trigger] all_ids(buckets)[j]) by {
            if j < n {
                assert(all_ids(buckets)[j] == all_ids(front)[j]);
            } else {
                assert(all_ids(buckets)[j] == buckets[buckets.len() - 1][j - n]);
            }
        }
    }
}

/// The nearest ids of buckets are ids of the buckets.
proof fn lemma_nearest_within(buckets: Seq<Seq<u64>>, ids: Seq<u64>, target: u64, n: nat)
    requires
        buckets_within(buckets, ids),
    ensures
        ({
            let near = first_ids(by_distance(all_ids(buckets), target), n);
            forall|j: int| 0 <= j < near.len() ==> ids.contains(#[trigger] near[j])
        }),
{
    let all = all_ids(buckets);
    let sorted = by_distance(all, target);
    let near = first_ids(sorted, n);
    lemma_all_ids_within(buckets, ids);
    lemma_by_distance(all, target);
    assert forall|j: int| 0 <= j < near.len() implies ids.contains(#[trigger] near[j]) by {
        assert(near[j] == sorted[j]);
        assert(sorted.contains(sorted[j]));
        assert(all.contains(near[j]));
        let k = all.index_of(near[j]);
        assert(all[k] == near[j]);
    }
}

impl KademliaNet for Network {
    open spec fn knows(&self, node: u64) -> bool {
        self.wf() && ids_of(self.nodes@).contains(node)
    }

    open spec fn nearest(&self, node: u64, target: u64, n: nat) -> Seq<u64> {
        first_ids(
            by_distance(
                all_ids(buckets_view(self.nodes@[self.place(node)].table.buckets@)),
                target,
            ),
            n,
        )
    }

    open spec fn answers(&self, node: u64) -> bool {
        !self.nodes@[self.place(node)].offline
    }

    fn closest(&self, node: u64, target: u64, n: usize) -> (out: Vec<u64>) {
        let p = node_index(&self.nodes, node);
        proof {
            assert(ids_of(self.nodes@)[p as int] == node);
            assert(node_sound(self.nodes@, p as int));
            lemma_nearest_within(
                buckets_view(self.nodes@[p as int].table.buckets@),
                ids_of(self.nodes@),
                target,
                n as nat,
            );
        }
        self.nodes[p].table.closest(target, n)
    }

    fn online(&self, node: u64) -> (yes: bool) {
        let p = node_index(&self.nodes, node);
        assert(ids_of(self.nodes@)[p as int] == node);
        !self.nodes[p].offline
    }
}

/// The record that a node serves.
pub open spec fn served(n: NodeView, b: VerifyBoundary) -> Option<EndpointView> {
    if n.malicious {
        Some(b.forged@)
    } else if n.holder {
        Some(b.record@)
    } else {
        None
    }
}

/// What became of the records of some nodes, taken in turn: the store, and
/// how many honest and how many forged records it admitted.
pub open spec fn gathered(
    net: Network,
    store: StoreView,
    contacted: Seq<u64>,
    now: u64,
) -> (StoreView, nat, nat)
    decreases contacted.len(),
{
    if contacted.len() == 0 {
        (store, 0, 0)
    } else {
        let (before, verified, forged) = gathered(net, store, contacted.drop_last(), now);
        let node = net.nodes@[net.place(contacted.last())]@;
        match served(node, net.boundary) {
            Some(e) if admissible(before, "alice"@, e, now) => (
                with_record(before, "alice"@, e),
                if node.malicious {
                    verified
                } else {
                    verified + 1
                },
                if node.malicious {
                    forged + 1
                } else {
                    forged
                },
            ),
            _ => (before, verified, forged),
        }
    }
}

/// What a resolution came to.
#[derive(Debug, Clone)]
pub struct ResolveOutcome {
    pub lookup: Lookup,
    /// A request and a response for each node that was contacted.
    pub fetches: usize,
    /// Honest records that were admitted.
    pub verified: usize,
    /// Forged records that were admitted.
    pub forged: usize,
}

impl Network {
    /// Resolves the name from scratch: looks its key up, asks the repliers
    /// for the record, and puts each record through the verification.
    pub fn resolve(&self, from: usize, now: u64) -> (out: ResolveOutcome)
        requires
            self.wf(),
            from < self.nodes@.len(),
        ensures
            found(self, self.nodes@[from as int].id, self.key, out.lookup),
            out.fetches == 2 * out.lookup.contacted@.len(),
            ({
                let (_, verified, forged) = gathered(
                    *self,
                    anchored_store(ed25519_public(self.boundary.honest@)),
                    out.lookup.contacted@,
                    now,
                );
                out.verified == verified && out.forged == forged
            }),
    {
        assert(ids_of(self.nodes@)[from as int] == self.nodes@[from as int].id);
        let lk = lookup(self, self.nodes[from].id, self.key);
        let mut store = self.boundary.fresh_store();
        let ghost start = store@;
        let mut verified: usize = 0;
        let mut forged: usize = 0;
        let mut i: usize = 0;
        let ghost all = lk.contacted@;
        assert(all.take(0) =~= Seq::empty());
        while i < lk.contacted.len()
            invariant
                all == lk.contacted@,
                i <= all.len(),
                verified + forged <= i,
                self.wf(),
                all_known(self, all),
                gathered(*self, start, all.take(i as int), now) == (
                    store@,
                    verified as nat,
                    forged as nat,
                ),
            decreases all.len() - i,
        {
            let id = lk.contacted[i];
            proof {
                assert(all.take(i + 1).drop_last() =~= all.take(i as int));
                assert(self.knows(all[i as int]));
            }
            let p = node_index(&self.nodes, id);
            assert(ids_of(self.nodes@)[p as int] == id);
            let node = &self.nodes[p];
            if node.malicious {
                if store.admit_record("alice", self.boundary.forged.clone(), now) {
                    forged = forged + 1;
                }
            } else if node.holder {
                if store.admit_record("alice", self.boundary.record.clone(), now) {
                    verified = verified + 1;
                }
            }
            i = i + 1;
        }
        assert(all.take(i as int) =~= all);
        let fetches = lk.contacted.len() * 2;
        ResolveOutcome { lookup: lk, fetches, verified, forged }
    }
}

/// Some node is honest and holds the record.
pub open spec fn has_honest_holder(net: Network, contacted: Seq<u64>) -> bool {
    exists|i: int|
        0 <= i < contacted.len() && {
            let n = net.nodes@[net.place(#[trigger] contacted[i])];
            !n.malicious && n.holder
        }
}

/// Whatever nodes are contacted, no forged record is ever admitted, as long
/// as the attacker's key is not the honest one. The honest record is
/// admitted once, exactly where it holds and an honest node that has it was
/// contacted.
pub proof fn law_forgeries_are_never_admitted(net: Network, contacted: Seq<u64>, now: u64)
    requires
        net.wf(),
        ed25519_public(Seq::new(32, |i: int| 7u8)) != ed25519_public(Seq::new(32, |i: int| 9u8)),
    ensures
        ({
            let key = ed25519_public(net.boundary.honest@);
            let (_, verified, forged) = gathered(net, anchored_store(key), contacted, now);
            &&& forged == 0
            &&& verified == if endpoint_fault(key, net.boundary.record@, now) is None
                && has_honest_holder(net, contacted) {
                1nat
            } else {
                0nat
            }
        }),
{
    lemma_gathered(net, contacted, now);
}

proof fn lemma_gathered(net: Network, contacted: Seq<u64>, now: u64)
    requires
        net.wf(),
        ed25519_public(Seq::new(32, |i: int| 7u8)) != ed25519_public(Seq::new(32, |i: int| 9u8)),
    ensures
        ({
            let key = ed25519_public(net.boundary.honest@);
            let (store, verified, forged) = gathered(net, anchored_store(key), contacted, now);
            &&& forged == 0
            &&& verified == if endpoint_fault(key, net.boundary.record@, now) is None
                && has_honest_holder(net, contacted) {
                1nat
            } else {
                0nat
            }
            &&& store.anchors == anchored_store(key).anchors
            &&& store.tombstones == anchored_store(key).tombstones
            &&& number_of(store.high_water, "alice"@) == verified
        }),
    decreases contacted.len(),
{
    let key = ed25519_public(net.boundary.honest@);
    let other = ed25519_public(Seq::new(32, |i: int| 9u8));
    if hex_chars(key) == hex_chars(other) {
        law_hex_is_injective(key, other);
    }
    if contacted.len() > 0 {
        let front = contacted.drop_last();
        lemma_gathered(net, front, now);
        let n = net.nodes@[net.place(contacted.last())];
        if !n.malicious && n.holder {
            let last = contacted.len() - 1;
            assert(net.place(contacted[last]) == net.place(contacted.last()));
            assert(has_honest_holder(net, contacted));
        } else if has_honest_holder(net, contacted) {
            let i = choose|i: int|
                0 <= i < contacted.len() && {
                    let n = net.nodes@[net.place(#[trigger] contacted[i])];
                    !n.malicious && n.holder
                };
            assert(front[i] == contacted[i]);
            assert(has_honest_holder(net, front));
        }
        if has_honest_holder(net, front) {
            let i = choose|i: int|
                0 <= i < front.len() && {
                    let n = net.nodes@[net.place(#[trigger] front[i])];
                    !n.malicious && n.holder
                };
            assert(front[i] == contacted[i]);
            assert(has_honest_holder(net, contacted));
        }
    }
}

/// The id that a drawn number stands for: near the key for an attacker that
/// picks its ids.
pub open spec fn id_for(key: u64, close: bool, x: u64) -> u64 {
    if close {
        key ^ ((x % 0x4000_0000 + 1) as u64)
    } else {
        x
    }
}

/// `n` different ids other than zero, drawn one after the other, and the
/// state of the random numbers then; nothing where the draws run out.
pub open spec fn drawn_ids(
    key: u64,
    n: nat,
    close: nat,
    ids: Seq<u64>,
    rng: u64,
    draws: nat,
) -> Option<(Seq<u64>, u64)>
    decreases draws,
{
    if ids.len() >= n {
        Some((ids, rng))
    } else if draws == 0 {
        None
    } else {
        let x = drawn_after(rng);
        let id = id_for(key, ids.len() < close, x);
        let more = if id != 0 && !ids.contains(id) {
            ids.push(id)
        } else {
            ids
        };
        drawn_ids(key, n, close, more, x, (draws - 1) as nat)
    }
}

/// Up to three different nodes of the first `n`, and the state of the random
/// numbers then.
pub open spec fn drawn_seeds(n: usize, seeds: Seq<usize>, rng: u64, draws: nat) -> Option<
    (Seq<usize>, u64),
>
    decreases draws,
{
    if seeds.len() >= 3 || seeds.len() >= n {
        Some((seeds, rng))
    } else if draws == 0 {
        None
    } else {
        let x = drawn_after(rng);
        let s = (x % (n as u64)) as usize;
        let more = if seeds.contains(s) {
            seeds
        } else {
            seeds.push(s)
        };
        drawn_seeds(n, more, x, (draws - 1) as nat)
    }
}

/// Buckets after some ids were seen in turn.
pub open spec fn after_all_seen(own: u64, buckets: Seq<Seq<u64>>, seen: Seq<u64>) -> Seq<Seq<u64>>
    decreases seen.len(),
{
    if seen.len() == 0 {
        buckets
    } else {
        after_seen(own, after_all_seen(own, buckets, seen.drop_last()), seen.last())
    }
}

/// The buckets of the nodes so far and of the one that joins.
pub struct JoinView {
    pub tables: Seq<Seq<Seq<u64>>>,
    pub own: Seq<Seq<u64>>,
}

/// Node `i` meets node `s`: `s` learns of it, and it learns of `s` and of
/// the ids nearest to it that `s` knows.
pub open spec fn met(ids: Seq<u64>, i: int, j: JoinView, s: int) -> JoinView {
    let table = after_seen(ids[s], j.tables[s], ids[i]);
    JoinView {
        tables: j.tables.update(s, table),
        own: after_all_seen(
            ids[i],
            after_seen(ids[i], j.own, ids[s]),
            first_ids(by_distance(all_ids(table), ids[i]), K as nat),
        ),
    }
}

/// Node `i` meets those of the first `n` nodes that are among its seeds.
pub open spec fn met_seeds(
    ids: Seq<u64>,
    i: int,
    seeds: Seq<usize>,
    j: JoinView,
    n: nat,
) -> JoinView
    decreases n,
{
    if n == 0 {
        j
    } else {
        let before = met_seeds(ids, i, seeds, j, (n - 1) as nat);
        if seeds.contains((n - 1) as usize) {
            met(ids, i, before, n - 1)
        } else {
            before
        }
    }
}

/// Buckets without ids.
pub open spec fn no_ids() -> Seq<Seq<u64>> {
    Seq::new(64, |i: int| Seq::<u64>::empty())
}

/// The buckets of the first `n` nodes after they joined in turn, and the
/// state of the random numbers then.
pub open spec fn grown(ids: Seq<u64>, rng: u64, n: nat) -> Option<(Seq<Seq<Seq<u64>>>, u64)>
    decreases n,
{
    if n == 0 {
        Some((Seq::empty(), rng))
    } else {
        match grown(ids, rng, (n - 1) as nat) {
            None => None,
            Some((tables, r)) => {
                match drawn_seeds((n - 1) as usize, Seq::empty(), r, DRAWS as nat) {
                    None => None,
                    Some((seeds, end)) => {
                        let j = met_seeds(
                            ids,
                            n - 1,
                            seeds,
                            JoinView { tables, own: no_ids() },
                            (n - 1) as nat,
                        );
                        Some((j.tables.push(j.own), end))
                    },
                }
            },
        }
    }
}

/// The nodes of a network with these ids and buckets: the first are
/// attackers, and the nodes nearest to the key hold the record.
pub open spec fn settled_nodes(
    key: u64,
    ids: Seq<u64>,
    tables: Seq<Seq<Seq<u64>>>,
    malicious: usize,
    replicate: usize,
) -> Seq<NodeView> {
    Seq::new(
        ids.len(),
        |i: int|
            NodeView {
                id: ids[i],
                buckets: tables[i],
                malicious: i < malicious,
                offline: false,
                holder: first_ids(by_distance(ids, key), replicate as nat).contains(ids[i]),
            },
    )
}

/// The nodes of a network that is built, and the state of the random numbers
/// then; nothing where the draws run out.
pub open spec fn built(
    rng: u64,
    n: usize,
    malicious: usize,
    targeted: bool,
    replicate: usize,
) -> Option<(Seq<NodeView>, u64)> {
    let key = value_id("alice"@, "endpoint"@) as u64;
    let close: nat = if targeted {
        malicious as nat
    } else {
        0
    };
    match drawn_ids(key, n as nat, close, Seq::empty(), rng, DRAWS as nat) {
        None => None,
        Some((ids, r)) => match grown(ids, r, n as nat) {
            None => None,
            Some((tables, end)) => Some(
                (settled_nodes(key, ids, tables, malicious, replicate), end),
            ),
        },
    }
}

/// Whether an id is in a list.
fn holds(ids: &Vec<u64>, id: u64) -> (yes: bool)
    ensures
        yes == ids@.contains(id),
{
    let mut i: usize = 0;
    while i < ids.len()
        invariant
            i <= ids@.len(),
            forall|j: int| 0 <= j < i ==> ids@[j] != id,
        decreases ids@.len() - i,
    {
        if ids[i] == id {
            return true;
        }
        i = i + 1;
    }
    false
}

/// Whether a position is in a list.
fn chosen(seeds: &Vec<usize>, s: usize) -> (yes: bool)
    ensures
        yes == seeds@.contains(s),
{
    let mut i: usize = 0;
    while i < seeds.len()
        invariant
            i <= seeds@.len(),
            forall|j: int| 0 <= j < i ==> seeds@[j] != s,
        decreases seeds@.len() - i,
    {
        if seeds[i] == s {
            return true;
        }
        i = i + 1;
    }
    false
}

/// Draws the ids of a network.
fn draw_ids(rng: &mut Rng, key: u64, n: usize, close: usize) -> (out: Option<Vec<u64>>)
    ensures
        match out {
            Some(ids) => drawn_ids(
                key,
                n as nat,
                close as nat,
                Seq::empty(),
                old(rng).0,
                DRAWS as nat,
            ) == Some((ids@, final(rng).0)) && ids@.len() == n && ids@.no_duplicates(),
            None => drawn_ids(
                key,
                n as nat,
                close as nat,
                Seq::empty(),
                old(rng).0,
                DRAWS as nat,
            ) is None,
        },
{
    let mut ids: Vec<u64> = Vec::new();
    let mut draws: u64 = DRAWS;
    while ids.len() < n
        invariant
            ids@.len() <= n,
            ids@.no_duplicates(),
            drawn_ids(key, n as nat, close as nat, Seq::empty(), old(rng).0, DRAWS as nat)
                == drawn_ids(key, n as nat, close as nat, ids@, rng.0, draws as nat),
        decreases draws,
    {
        if draws == 0 {
            return None;
        }
        draws = draws - 1;
        let x = rng.next();
        let id = if ids.len() < close {
            key ^ (x % 0x4000_0000 + 1)
        } else {
            x
        };
        if id != 0 && !holds(&ids, id) {
            ids.push(id);
        }
    }
    Some(ids)
}

/// Draws the nodes that a joining node queries.
fn draw_seeds(rng: &mut Rng, n: usize) -> (out: Option<Vec<usize>>)
    ensures
        match out {
            Some(seeds) => drawn_seeds(n, Seq::empty(), old(rng).0, DRAWS as nat) == Some(
                (seeds@, final(rng).0),
            ),
            None => drawn_seeds(n, Seq::empty(), old(rng).0, DRAWS as nat) is None,
        },
{
    let mut seeds: Vec<usize> = Vec::new();
    let mut draws: u64 = DRAWS;
    while seeds.len() < 3 && seeds.len() < n
        invariant
            drawn_seeds(n, Seq::empty(), old(rng).0, DRAWS as nat) == drawn_seeds(
                n,
                seeds@,
                rng.0,
                draws as nat,
            ),
        decreases draws,
    {
        if draws == 0 {
            return None;
        }
        draws = draws - 1;
        let s = rng.pick(n);
        if !chosen(&seeds, s) {
            seeds.push(s);
        }
    }
    Some(seeds)
}

proof fn lemma_seen_within(own: u64, buckets: Seq<Seq<u64>>, id: u64, ids: Seq<u64>)
    requires
        buckets_within(buckets, ids),
        ids.contains(id),
        bucket_of(own, id) matches Some(b) ==> b < buckets.len(),
    ensures
        buckets_within(after_seen(own, buckets, id), ids),
        after_seen(own, buckets, id).len() == buckets.len(),
{
    let after = after_seen(own, buckets, id);
    if let Some(c) = bucket_of(own, id) {
        let old_bucket = buckets[c as int];
        let new_bucket = touched(old_bucket, id);
        assert forall|j: int| 0 <= j < new_bucket.len() implies ids.contains(
            #[trigger] new_bucket[j]) by {
            if j < new_bucket.len() - 1 {
                if old_bucket.contains(id) {
                    let p = old_bucket.index_of(id);
                    assert(new_bucket[j] == old_bucket[if j < p { j } else { j + 1 }]);
                    assert(ids.contains(buckets[c as int][if j < p { j } else { j + 1 }]));
                } else if old_bucket.len() >= K {
                    assert(new_bucket[j] == old_bucket[j + 1]);
                    assert(ids.contains(buckets[c as int][j + 1]));
                } else {
                    assert(ids.contains(buckets[c as int][j]));
                }
            }
        }
        assert forall|b: int, j: int| 0 <= b < after.len() && 0 <= j < after[b].len() implies ids.contains(
            #[trigger] after[b][j]) by {
            if b == c {
                assert(after[b] == new_bucket);
            } else {
                assert(after[b] == buckets[b]);
                assert(ids.contains(buckets[b][j]));
            }
        }
    }
}

/// Notes in a table that some ids were seen in turn.
fn note_all(table: &mut RoutingTable, seen: &Vec<u64>, Ghost(ids): Ghost<Seq<u64>>)
    requires
        old(table).wf(),
        buckets_within(buckets_view(old(table).buckets@), ids),
        forall|j: int| 0 <= j < seen@.len() ==> ids.contains(#[trigger] seen@[j]),
    ensures
        final(table).wf(),
        final(table).own_id == old(table).own_id,
        buckets_view(final(table).buckets@) == after_all_seen(
            old(table).own_id,
            buckets_view(old(table).buckets@),
            seen@,
        ),
        buckets_within(buckets_view(final(table).buckets@), ids),
{
    let ghost own = table.own_id;
    let ghost first = buckets_view(table.buckets@);
    let mut i: usize = 0;
    assert(seen@.take(0) =~= Seq::empty());
    while i < seen.len()
        invariant
            i <= seen@.len(),
            table.wf(),
            table.own_id == own,
            buckets_within(buckets_view(table.buckets@), ids),
            forall|j: int| 0 <= j < seen@.len() ==> ids.contains(#[trigger] seen@[j]),
            buckets_view(table.buckets@) == after_all_seen(own, first, seen@.take(i as int)),
        decreases seen@.len() - i,
    {
        proof {
            assert(seen@.take(i + 1).drop_last() =~= seen@.take(i as int));
            lemma_bucket_bound(own, seen@[i as int]);
            lemma_seen_within(own, buckets_view(table.buckets@), seen@[i as int], ids);
        }
        table.insert(seen[i]);
        i = i + 1;
    }
    assert(seen@.take(i as int) =~= seen@);
}

proof fn lemma_bucket_bound(own: u64, id: u64)
    ensures
        bucket_of(own, id) matches Some(b) ==> b < 64,
{
    if own != id {
        assert(own != id ==> own ^ id != 0) by (bit_vector);
        lemma_top_bit(own ^ id);
    }
}

/// The buckets of some nodes.
pub open spec fn tables_of(nodes: Seq<Node>) -> Seq<Seq<Seq<u64>>> {
    Seq::new(nodes.len(), |i: int| buckets_view(nodes[i].table.buckets@))
}

/// Node `i` of those that joined so far: it is honest beyond the first
/// `malicious`, online, without a record, and knows some ids only.
pub open spec fn joined(node: Node, i: int, ids: Seq<u64>, malicious: usize) -> bool {
    &&& node.id == ids[i]
    &&& node.table.wf()
    &&& node.table.own_id == ids[i]
    &&& buckets_within(buckets_view(node.table.buckets@), ids)
    &&& node.malicious == (i < malicious)
    &&& !node.offline
    &&& !node.holder
}

/// Lets node `i` join: it meets its seeds in the order of their positions.
fn join(
    nodes: &mut Vec<Node>,
    node: &mut Node,
    seeds: &Vec<usize>,
    ids: &Vec<u64>,
    malicious: usize,
)
    requires
        old(nodes)@.len() < ids@.len(),
        forall|k: int|
            0 <= k < old(nodes)@.len() ==> joined(#[trigger] old(nodes)@[k], k, ids@, malicious),
        joined(*old(node), old(nodes)@.len() as int, ids@, malicious),
    ensures
        final(nodes)@.len() == old(nodes)@.len(),
        forall|k: int|
            0 <= k < final(nodes)@.len() ==> joined(#[trigger] final(nodes)@[k], k, ids@, malicious),
        joined(*final(node), old(nodes)@.len() as int, ids@, malicious),
        met_seeds(
            ids@,
            old(nodes)@.len() as int,
            seeds@,
            JoinView {
                tables: tables_of(old(nodes)@),
                own: buckets_view(old(node).table.buckets@),
            },
            old(nodes)@.len(),
        ) == (JoinView {
            tables: tables_of(final(nodes)@),
            own: buckets_view(final(node).table.buckets@),
        }),
{
    let ghost i = nodes@.len() as int;
    let ghost first = JoinView {
        tables: tables_of(nodes@),
        own: buckets_view(node.table.buckets@),
    };
    let id = ids[nodes.len()];
    let mut s: usize = 0;
    while s < nodes.len()
        invariant
            nodes@.len() == i,
            s <= i < ids@.len(),
            id == ids@[i],
            forall|k: int| 0 <= k < i ==> joined(#[trigger] nodes@[k], k, ids@, malicious),
            joined(*node, i, ids@, malicious),
            met_seeds(ids@, i, seeds@, first, s as nat) == (JoinView {
                tables: tables_of(nodes@),
                own: buckets_view(node.table.buckets@),
            }),
        decreases i - s,
    {
        if chosen(seeds, s) {
            let ghost before = nodes@;
            let ghost own_before = buckets_view(node.table.buckets@);
            proof {
                assert(joined(nodes@[s as int], s as int, ids@, malicious));
                assert(ids@.contains(ids@[i]));
                assert(ids@.contains(ids@[s as int]));
                lemma_bucket_bound(ids@[s as int], id);
                lemma_seen_within(
                    ids@[s as int],
                    buckets_view(nodes@[s as int].table.buckets@),
                    id,
                    ids@,
                );
                lemma_bucket_bound(id, ids@[s as int]);
                lemma_seen_within(id, own_before, ids@[s as int], ids@);
            }
            let mut table = RoutingTable::new(0);
            std::mem::swap(&mut nodes[s].table, &mut table);
            table.insert(id);
            let near = table.closest(id, K);
            proof {
                lemma_nearest_within(buckets_view(table.buckets@), ids@, id, K as nat);
            }
            std::mem::swap(&mut nodes[s].table, &mut table);
            node.table.insert(ids[s]);
            note_all(&mut node.table, &near, Ghost(ids@));
            proof {
                assert(tables_of(nodes@) =~= tables_of(before).update(
                    s as int,
                    after_seen(ids@[s as int], tables_of(before)[s as int], id),
                ));
                assert forall|k: int| 0 <= k < i implies joined(
                    #[trigger] nodes@[k],
                    k,
                    ids@,
                    malicious,
                ) by {
                    assert(joined(before[k], k, ids@, malicious));
                }
            }
        }
        s = s + 1;
    }
}

/// Whether as many nodes as are left could be taken offline before the draws
/// ran out, the nodes then, and the state of the random numbers.
pub open spec fn churned(
    nodes: Seq<NodeView>,
    rng: u64,
    left: nat,
    except: usize,
    draws: nat,
) -> (bool, Seq<NodeView>, u64)
    decreases draws,
{
    if left == 0 {
        (true, nodes, rng)
    } else if draws == 0 {
        (false, nodes, rng)
    } else {
        let x = drawn_after(rng);
        let i = (x % (nodes.len() as u64)) as usize;
        if i != except && !nodes[i as int].offline {
            churned(
                nodes.update(i as int, NodeView { offline: true, ..nodes[i as int] }),
                x,
                (left - 1) as nat,
                except,
                (draws - 1) as nat,
            )
        } else {
            churned(nodes, x, left, except, (draws - 1) as nat)
        }
    }
}

/// The nodes are the same, but that some are offline now that were not;
/// `except` is none of them.
pub open spec fn only_taken_offline(
    before: Seq<NodeView>,
    after: Seq<NodeView>,
    except: usize,
) -> bool {
    &&& after.len() == before.len()
    &&& forall|i: int|
        0 <= i < before.len() ==> {
            let node = #[trigger] after[i];
            &&& node == NodeView { offline: node.offline, ..before[i] }
            &&& before[i].offline ==> node.offline
            &&& i == except ==> node == before[i]
        }
}

impl Network {
    /// Builds a network of `n` nodes that join in turn, each by querying up
    /// to three earlier ones. The first `malicious` are attackers; where they
    /// are `targeted`, their ids are near the key. The `replicate` nodes
    /// nearest to the key hold the record. Nothing where the random numbers
    /// do not give enough different ids.
    pub fn build(
        rng: &mut Rng,
        n: usize,
        malicious: usize,
        targeted: bool,
        replicate: usize,
    ) -> (out: Option<Self>)
        ensures
            match out {
                Some(net) => {
                    &&& built(old(rng).0, n, malicious, targeted, replicate) == Some(
                        (nodes_view(net.nodes@), final(rng).0),
                    )
                    &&& net.wf()
                    &&& net.nodes@.len() == n
                    &&& net.key == value_id("alice"@, "endpoint"@)
                },
                None => built(old(rng).0, n, malicious, targeted, replicate) is None,
            },
    {
        let key = value_key("alice", "endpoint");
        let close: usize = if targeted {
            malicious
        } else {
            0
        };
        let ids = match draw_ids(rng, key, n, close) {
            Some(ids) => ids,
            None => return None,
        };
        let ghost r = rng.0;
        let mut nodes: Vec<Node> = Vec::new();
        assert(tables_of(nodes@) =~= Seq::empty());
        let mut i: usize = 0;
        while i < n
            invariant
                i <= n,
                ids@.len() == n,
                nodes@.len() == i,
                forall|k: int| 0 <= k < i ==> joined(#[trigger] nodes@[k], k, ids@, malicious),
                grown(ids@, r, i as nat) == Some((tables_of(nodes@), rng.0)),
                grown(ids@, r, n as nat) is None ==> built(
                    old(rng).0,
                    n,
                    malicious,
                    targeted,
                    replicate,
                ) is None,
            decreases n - i,
        {
            let seeds = match draw_seeds(rng, i) {
                Some(seeds) => seeds,
                None => {
                    proof {
                        lemma_grown_fails(ids@, r, (i + 1) as nat, n as nat);
                    }
                    return None;
                },
            };
            let mut node = Node {
                id: ids[i],
                table: RoutingTable::new(ids[i]),
                malicious: i < malicious,
                offline: false,
                holder: false,
            };
            join(&mut nodes, &mut node, &seeds, &ids, malicious);
            let ghost before = nodes@;
            let ghost last = node;
            nodes.push(node);
            proof {
                assert(tables_of(nodes@) =~= tables_of(before).push(
                    buckets_view(last.table.buckets@),
                ));
                assert forall|k: int| 0 <= k < i + 1 implies joined(
                    #[trigger] nodes@[k],
                    k,
                    ids@,
                    malicious,
                ) by {
                    if k < i {
                        assert(joined(before[k], k, ids@, malicious));
                    }
                }
            }
            i = i + 1;
        }
        let ghost tables = tables_of(nodes@);
        let mut nearest = sorted_by_distance(&ids, key);
        if nearest.len() > replicate {
            nearest.truncate(replicate);
        }
        assert(nearest@ =~= first_ids(by_distance(ids@, key), replicate as nat));
        let mut k: usize = 0;
        while k < nodes.len()
            invariant
                k <= nodes@.len(),
                nodes@.len() == n,
                ids@.len() == n,
                tables == tables_of(nodes@),
                nearest@ == first_ids(by_distance(ids@, key), replicate as nat),
                forall|j: int|
                    0 <= j < n ==> {
                        let node = #[trigger] nodes@[j];
                        &&& joined(Node { holder: false, ..node }, j, ids@, malicious)
                        &&& node.holder == (j < k && nearest@.contains(ids@[j]))
                    },
            decreases nodes@.len() - k,
        {
            let ghost before = nodes@;
            if holds(&nearest, ids[k]) {
                nodes[k].holder = true;
            }
            assert(tables =~= tables_of(nodes@));
            assert forall|j: int| 0 <= j < n implies {
                let node = #[trigger] nodes@[j];
                &&& joined(Node { holder: false, ..node }, j, ids@, malicious)
                &&& node.holder == (j < k + 1 && nearest@.contains(ids@[j]))
            } by {
                let earlier = before[j];
                assert(joined(Node { holder: false, ..earlier }, j, ids@, malicious));
            }
            k = k + 1;
        }
        proof {
            assert forall|j: int| 0 <= j < n implies nodes_view(nodes@)[j] == settled_nodes(
                key,
                ids@,
                tables,
                malicious,
                replicate,
            )[j] by {
                let node = nodes@[j];
                assert(joined(Node { holder: false, ..node }, j, ids@, malicious));
            }
            assert(nodes_view(nodes@) =~= settled_nodes(key, ids@, tables, malicious, replicate));
            assert forall|j: int| 0 <= j < n implies ids_of(nodes@)[j] == ids@[j] by {
                let node = nodes@[j];
                assert(joined(Node { holder: false, ..node }, j, ids@, malicious));
            }
            assert(ids_of(nodes@) =~= ids@);
            assert forall|j: int| 0 <= j < n implies #[trigger] node_sound(nodes@, j) by {
                let node = nodes@[j];
                assert(joined(Node { holder: false, ..node }, j, ids@, malicious));
            }
        }
        Some(Network { nodes, key, boundary: VerifyBoundary::new() })
    }

    /// Takes `count` nodes offline that were not; `except` stays as it is.
    /// Fails where the random numbers do not hit enough such nodes; those that
    /// they hit are offline then.
    pub fn apply_churn(&mut self, rng: &mut Rng, count: usize, except: usize) -> (done: bool)
        requires
            old(self).wf(),
            count > 0 ==> old(self).nodes@.len() > 0,
        ensures
            final(self).wf(),
            final(self).key == old(self).key,
            final(self).boundary == old(self).boundary,
            churned(
                nodes_view(old(self).nodes@),
                old(rng).0,
                count as nat,
                except,
                DRAWS as nat,
            ) == (done, nodes_view(final(self).nodes@), final(rng).0),
            only_taken_offline(
                nodes_view(old(self).nodes@),
                nodes_view(final(self).nodes@),
                except,
            ),
    {
        let mut left: usize = count;
        let mut draws: u64 = DRAWS;
        let ghost first = self.nodes@;
        while left > 0
            invariant
                first == old(self).nodes@,
                self.wf(),
                self.key == old(self).key,
                self.boundary == old(self).boundary,
                only_taken_offline(nodes_view(first), nodes_view(self.nodes@), except),
                left > 0 ==> self.nodes@.len() > 0,
                churned(nodes_view(first), old(rng).0, count as nat, except, DRAWS as nat)
                    == churned(nodes_view(self.nodes@), rng.0, left as nat, except, draws as nat),
            decreases draws,
        {
            if draws == 0 {
                return false;
            }
            draws = draws - 1;
            let i = rng.pick(self.nodes.len());
            if i != except && !self.nodes[i].offline {
                let ghost before = self.nodes@;
                self.nodes[i].offline = true;
                left = left - 1;
                proof {
                    assert(nodes_view(self.nodes@) =~= nodes_view(before).update(
                        i as int,
                        NodeView { offline: true, ..nodes_view(before)[i as int] },
                    ));
                    assert(ids_of(self.nodes@) =~= ids_of(before));
                    assert forall|j: int| 0 <= j < self.nodes@.len() implies #[trigger] node_sound(
                        self.nodes@,
                        j,
                    ) by {
                        assert(node_sound(before, j));
                    }
                }
            }
        }
        true
    }
}

proof fn lemma_grown_fails(ids: Seq<u64>, rng: u64, i: nat, n: nat)
    requires
        grown(ids, rng, i) is None,
        i <= n,
    ensures
        grown(ids, rng, n) is None,
    decreases n,
{
    if i < n {
        lemma_grown_fails(ids, rng, i, (n - 1) as nat);
    }
}

/// The ids of a network are as many as asked for, all different and none zero.
pub proof fn law_drawn_ids_are_distinct(
    key: u64,
    n: nat,
    close: nat,
    ids: Seq<u64>,
    rng: u64,
    draws: nat,
)
    requires
        ids.len() <= n,
        ids.no_duplicates(),
        !ids.contains(0),
    ensures
        drawn_ids(key, n, close, ids, rng, draws) matches Some((all, _)) ==> all.len() == n
            && all.no_duplicates() && !all.contains(0) && all.take(ids.len() as int) == ids,
    decreases draws,
{
    if ids.len() >= n {
        assert(ids.take(ids.len() as int) =~= ids);
    } else if draws > 0 {
        let x = drawn_after(rng);
        let id = id_for(key, ids.len() < close, x);
        if id != 0 && !ids.contains(id) {
            let more = ids.push(id);
            assert(more.no_duplicates()) by {
                assert forall|i: int, j: int| 0 <= i < j < more.len() implies more[i]
                    != more[j] by {
                    if j == ids.len() {
                        assert(ids.contains(ids[i]));
                    }
                }
            }
            assert(!more.contains(0)) by {
                if more.contains(0) {
                    let i = more.index_of(0);
                    assert(ids[i] == 0);
                }
            }
            law_drawn_ids_are_distinct(key, n, close, more, x, (draws - 1) as nat);
            if let Some((all, _)) = drawn_ids(key, n, close, ids, rng, draws) {
                assert(all.take(ids.len() as int) =~= all.take(more.len() as int).take(
                    ids.len() as int,
                ));
                assert(more.take(ids.len() as int) =~= ids);
            }
        } else {
            law_drawn_ids_are_distinct(key, n, close, ids, x, (draws - 1) as nat);
        }
    }
}

/// An id that is drawn close to the key differs from it by a number of one to
/// two to the thirtieth; any other is the number that was drawn.
pub proof fn law_close_ids_are_close(key: u64, x: u64)
    ensures
        1 <= (key ^ id_for(key, true, x)) <= 0x4000_0000,
        id_for(key, false, x) == x,
{
    let d = (x % 0x4000_0000 + 1) as u64;
    assert((key ^ (key ^ d)) == d) by (bit_vector);
}

/// Of a built network the first nodes are malicious, none is offline, and the
/// record is held by exactly the nodes nearest to its key, as many as asked.
pub proof fn law_built_networks(
    rng: u64,
    n: usize,
    malicious: usize,
    targeted: bool,
    replicate: usize,
    i: int,
    j: int,
)
    requires
        built(rng, n, malicious, targeted, replicate) is Some,
        0 <= i < n,
        0 <= j < n,
    ensures
        ({
            let (nodes, _) = built(rng, n, malicious, targeted, replicate)->0;
            let key = value_id("alice"@, "endpoint"@) as u64;
            &&& nodes.len() == n
            &&& nodes[i].malicious == (i < malicious)
            &&& !nodes[i].offline
            &&& i != j ==> nodes[i].id != nodes[j].id
            &&& nodes[i].id != 0
            &&& nodes[i].holder && !nodes[j].holder ==> (key ^ nodes[i].id) <= (key ^ nodes[j].id)
            &&& replicate == 0 ==> !nodes[i].holder
            &&& replicate >= n ==> nodes[i].holder
        }),
{
    let key = value_id("alice"@, "endpoint"@) as u64;
    let close: nat = if targeted {
        malicious as nat
    } else {
        0
    };
    let none = Seq::<u64>::empty();
    law_drawn_ids_are_distinct(key, n as nat, close, none, rng, DRAWS as nat);
    let (ids, r) = drawn_ids(key, n as nat, close, none, rng, DRAWS as nat)->0;
    crate::dht::kademlia::lemma_by_distance(ids, key);
    let sorted = by_distance(ids, key);
    let near = first_ids(sorted, replicate as nat);
    assert(ids.contains(ids[i]));
    assert(ids.contains(ids[j]));
    assert(sorted.contains(ids[i]));
    assert(sorted.contains(ids[j]));
    if replicate >= n {
        assert(near == sorted);
    }
    if near.contains(ids[i]) && !near.contains(ids[j]) {
        let a = near.index_of(ids[i]);
        let b = sorted.index_of(ids[j]);
        if b < near.len() {
            assert(near[b] == ids[j]);
        }
        crate::dht::kademlia::law_closest_are_nearest(ids, key, replicate as nat, a, b);
    }
}

/// How many nodes are offline.
pub open spec fn offline_count(nodes: Seq<NodeView>) -> nat {
    nodes.filter(|n: NodeView| n.offline).len()
}

proof fn lemma_offline_update(nodes: Seq<NodeView>, i: int)
    requires
        0 <= i < nodes.len(),
        !nodes[i].offline,
    ensures
        offline_count(nodes.update(i, NodeView { offline: true, ..nodes[i] })) == offline_count(
            nodes,
        ) + 1,
    decreases nodes.len(),
{
    reveal(Seq::filter);
    let after = nodes.update(i, NodeView { offline: true, ..nodes[i] });
    let p = |n: NodeView| n.offline;
    if i < nodes.len() - 1 {
        lemma_offline_update(nodes.drop_last(), i);
        assert(after.drop_last() =~= nodes.drop_last().update(
            i,
            NodeView { offline: true, ..nodes[i] },
        ));
        assert(after.last() == nodes.last());
    } else {
        assert(after.drop_last() =~= nodes.drop_last());
    }
}

/// Churn takes exactly as many nodes offline as asked for, where it succeeds;
/// a node that was offline stays so, the spared one stays as it was, and
/// nothing else of any node changes.
pub proof fn law_churn_takes_as_many_offline(
    nodes: Seq<NodeView>,
    rng: u64,
    left: nat,
    except: usize,
    draws: nat,
    k: int,
)
    requires
        0 < nodes.len() <= u64::MAX,
        0 <= k < nodes.len(),
    ensures
        ({
            let (done, after, _) = churned(nodes, rng, left, except, draws);
            &&& after.len() == nodes.len()
            &&& done ==> offline_count(after) == offline_count(nodes) + left
            &&& !done ==> offline_count(after) < offline_count(nodes) + left
            &&& after[k] == (NodeView { offline: after[k].offline, ..nodes[k] })
            &&& nodes[k].offline ==> after[k].offline
            &&& k == except ==> after[k] == nodes[k]
        }),
    decreases draws,
{
    if left > 0 && draws > 0 {
        let x = drawn_after(rng);
        let i = (x % (nodes.len() as u64)) as usize;
        assert(i < nodes.len());
        if i != except && !nodes[i as int].offline {
            let next = nodes.update(i as int, NodeView { offline: true, ..nodes[i as int] });
            lemma_offline_update(nodes, i as int);
            law_churn_takes_as_many_offline(
                next,
                x,
                (left - 1) as nat,
                except,
                (draws - 1) as nat,
                k,
            );
        } else {
            law_churn_takes_as_many_offline(nodes, x, left, except, (draws - 1) as nat, k);
        }
    }
}

/// A node hands out the forged record where it is malicious, else the honest
/// one where it holds it, else none.
pub proof fn law_what_nodes_hand_out(n: NodeView, b: VerifyBoundary)
    ensures
        n.malicious ==> served(n, b) == Some(b.forged@),
        !n.malicious && n.holder ==> served(n, b) == Some(b.record@),
        !n.malicious && !n.holder ==> served(n, b) is None,
{
}

/// The id of a value is the first eight bytes of the hash of its name and
/// kind, least significant first.
pub proof fn law_value_ids(name: Seq<char>, kind: Seq<char>)
    ensures
        value_id(name, kind) == le_value(
            blake3_hash(encode_utf8(name) + seq![0u8] + encode_utf8(kind))@.take(8),
        ),
{
}

/// The simulated nodes answer with the nearest ids that they know, and not at
/// all when they are offline.
pub proof fn law_simulated_nodes_answer(net: Network, node: u64, target: u64, n: nat, i: int)
    requires
        net.wf(),
        0 <= i < net.nodes@.len(),
        net.nodes@[i].id == node,
    ensures
        net.answers(node) <==> !net.nodes@[i].offline,
        net.nearest(node, target, n) == first_ids(
            by_distance(all_ids(buckets_view(net.nodes@[i].table.buckets@)), target),
            n,
        ),
{
    let ids = ids_of(net.nodes@);
    assert(ids[i] == node);
    assert(ids.contains(node));
    assert(ids[ids.index_of(node)] == node);
}

/// A node joins through three nodes that are there, or through all of them
/// where there are fewer, and through each of them once.
pub proof fn law_nodes_join_through_three(n: usize, seeds: Seq<usize>, rng: u64, draws: nat)
    requires
        seeds.no_duplicates(),
        seeds.len() <= 3 && seeds.len() <= n,
        forall|i: int| 0 <= i < seeds.len() ==> #[trigger] seeds[i] < n,
    ensures
        drawn_seeds(n, seeds, rng, draws) matches Some((all, _)) ==> {
            &&& all.len() == if n < 3 {
                n as nat
            } else {
                3
            }
            &&& all.no_duplicates()
            &&& forall|i: int| 0 <= i < all.len() ==> #[trigger] all[i] < n
            &&& all.take(seeds.len() as int) == seeds
        },
    decreases draws,
{
    if seeds.len() >= 3 || seeds.len() >= n {
        assert(seeds.take(seeds.len() as int) =~= seeds);
    } else if draws > 0 {
        let x = drawn_after(rng);
        let s = (x % (n as u64)) as usize;
        if seeds.contains(s) {
            law_nodes_join_through_three(n, seeds, x, (draws - 1) as nat);
        } else {
            let more = seeds.push(s);
            law_nodes_join_through_three(n, more, x, (draws - 1) as nat);
            if let Some((all, _)) = drawn_seeds(n, more, x, (draws - 1) as nat) {
                assert(all.take(seeds.len() as int) =~= all.take(more.len() as int).take(
                    seeds.len() as int,
                ));
                assert(more.take(seeds.len() as int) =~= seeds);
            }
        }
    }
}

/// What a join through the first `n` nodes leaves in their tables.
proof fn lemma_met_seeds(ids: Seq<u64>, i: int, seeds: Seq<usize>, j: JoinView, n: nat, k: int)
    requires
        n <= j.tables.len() <= usize::MAX,
        0 <= k < j.tables.len(),
    ensures
        met_seeds(ids, i, seeds, j, n).tables.len() == j.tables.len(),
        met_seeds(ids, i, seeds, j, n).tables[k] == if k < n && seeds.contains(k as usize) {
            after_seen(ids[k], j.tables[k], ids[i])
        } else {
            j.tables[k]
        },
    decreases n,
{
    if n > 0 {
        lemma_met_seeds(ids, i, seeds, j, (n - 1) as nat, k);
    }
}

/// Nodes join one by one: each is drawn its seeds, each seed sees it, and the
/// tables of all others stay as they are.
pub proof fn law_nodes_join_one_by_one(ids: Seq<u64>, rng: u64, n: nat, k: int)
    requires
        n < usize::MAX,
        0 <= k < n,
        grown(ids, rng, n + 1) is Some,
    ensures
        grown(ids, rng, n) is Some,
        ({
            let (tables, r) = grown(ids, rng, n)->0;
            let (after, end) = grown(ids, rng, n + 1)->0;
            let drawn = drawn_seeds(n as usize, Seq::empty(), r, 0xffff_ffff_ffff_ffff);
            let (seeds, e) = drawn->0;
            &&& tables.len() == n
            &&& drawn is Some
            &&& end == e
            &&& after.len() == n + 1
            &&& after[k] == if seeds.contains(k as usize) {
                after_seen(ids[k], tables[k], ids[n as int])
            } else {
                tables[k]
            }
        }),
{
    lemma_grown_len(ids, rng, n);
    let (tables, r) = grown(ids, rng, n)->0;
    let (seeds, e) = drawn_seeds(n as usize, Seq::empty(), r, DRAWS as nat)->0;
    lemma_met_seeds(ids, n as int, seeds, JoinView { tables, own: no_ids() }, n, k);
}

/// There is a table for each node that joined.
proof fn lemma_grown_len(ids: Seq<u64>, rng: u64, n: nat)
    requires
        n <= usize::MAX,
    ensures
        grown(ids, rng, n) matches Some((tables, _)) ==> tables.len() == n,
    decreases n,
{
    if n > 0 {
        lemma_grown_len(ids, rng, (n - 1) as nat);
        if let Some((tables, r)) = grown(ids, rng, (n - 1) as nat) {
            if let Some((seeds, _)) = drawn_seeds((n - 1) as usize, Seq::empty(), r, DRAWS as nat) {
                let j = JoinView { tables, own: no_ids() };
                lemma_met_len(ids, n - 1, seeds, j, (n - 1) as nat);
            }
        }
    }
}

/// A join leaves as many tables as there were.
proof fn lemma_met_len(ids: Seq<u64>, i: int, seeds: Seq<usize>, j: JoinView, n: nat)
    requires
        n <= j.tables.len(),
    ensures
        met_seeds(ids, i, seeds, j, n).tables.len() == j.tables.len(),
    decreases n,
{
    if n > 0 {
        lemma_met_len(ids, i, seeds, j, (n - 1) as nat);
    }
}

/// The ids seen last stay: of as many as a bucket holds, none is dropped.
proof fn lemma_seen_stay(own: u64, buckets: Seq<Seq<u64>>, seen: Seq<u64>, b: int)
    requires
        buckets.len() == 64,
        0 <= b < 64,
        forall|c: int| 0 <= c < 64 ==> sound_bucket(own, c as nat, #[trigger] buckets[c]),
        seen.len() <= 20,
    ensures
        ({
            let all = after_all_seen(own, buckets, seen);
            &&& all.len() == 64
            &&& forall|c: int| 0 <= c < 64 ==> sound_bucket(own, c as nat, #[trigger] all[c])
            &&& forall|x: u64|
                seen.contains(x) && bucket_of(own, x) == Some(b as nat)
                    ==> #[trigger] all[b].contains(x)
            &&& forall|p: int, q: int|
                0 <= p < q < all[b].len() && seen.contains(#[trigger] all[b][p]) ==> seen.contains(
                    #[trigger] all[b][q],
                )
        }),
    decreases seen.len(),
{
    if seen.len() > 0 {
        let front = seen.drop_last();
        let id = seen.last();
        lemma_seen_stay(own, buckets, front, b);
        let before = after_all_seen(own, buckets, front);
        let all = after_all_seen(own, buckets, seen);
        assert(seen =~= front.push(id));
        assert forall|x: u64| #[trigger] seen.contains(x) <==> front.contains(x) || x == id by {
            if front.contains(x) {
                let p = front.index_of(x);
                assert(seen[p] == x);
            }
            if seen.contains(x) {
                let p = seen.index_of(x);
                if p < front.len() {
                    assert(front[p] == x);
                }
            }
            assert(seen[seen.len() - 1] == id);
        }
        match bucket_of(own, id) {
            None => {
                assert(all == before);
                assert forall|p: int, q: int|
                    0 <= p < q < all[b].len() && seen.contains(
                        #[trigger] all[b][p],
                    ) implies seen.contains(#[trigger] all[b][q]) by {
                    assert(bucket_of(own, before[b][p]) == Some(b as nat));
                    assert(front.contains(before[b][p]));
                }
            },
            Some(c) => {
                law_buckets_go_by_the_highest_difference(own, id);
                lemma_touched_sound(own, c, before[c as int], id);
                if c != b {
                    assert(all[b] == before[b]);
                    assert forall|p: int, q: int|
                        0 <= p < q < all[b].len() && seen.contains(
                            #[trigger] all[b][p],
                        ) implies seen.contains(#[trigger] all[b][q]) by {
                        assert(bucket_of(own, before[b][p]) == Some(b as nat));
                        assert(front.contains(before[b][p]));
                    }
                } else {
                    lemma_touched_stay(before[b], front, id);
                    assert(all[b] == touched(before[b], id));
                }
            },
        }
    }
}

/// The step of the proof that ids seen last stay, in the bucket that changes.
proof fn lemma_touched_stay(bucket: Seq<u64>, front: Seq<u64>, id: u64)
    requires
        bucket.no_duplicates(),
        bucket.len() <= 20,
        front.len() < 20,
        forall|p: int, q: int|
            0 <= p < q < bucket.len() && front.contains(#[trigger] bucket[p]) ==> front.contains(
                #[trigger] bucket[q],
            ),
    ensures
        ({
            let all = touched(bucket, id);
            &&& forall|x: u64|
                (bucket.contains(x) && front.contains(x)) || x == id ==> #[trigger] all.contains(x)
            &&& forall|p: int, q: int|
                0 <= p < q < all.len() && (front.contains(#[trigger] all[p]) || all[p] == id)
                    ==> front.contains(#[trigger] all[q]) || all[q] == id
        }),
{
    let all = touched(bucket, id);
    assert(all[all.len() - 1] == id);
    if bucket.contains(id) {
        let at = bucket.index_of(id);
        let rest = bucket.remove(at);
        assert forall|x: u64| bucket.contains(x) && x != id implies #[trigger] all.contains(x) by {
            let p = bucket.index_of(x);
            if p < at {
                assert(all[p] == x);
            } else {
                assert(all[p - 1] == x);
            }
        }
    } else if bucket.len() >= 20 {
        if front.contains(bucket[0]) {
            assert forall|q: int| 0 <= q < bucket.len() implies front.contains(
                #[trigger] bucket[q],
            ) by {}
            bucket.unique_seq_to_set();
            front.lemma_cardinality_of_set();
            assert(bucket.to_set().subset_of(front.to_set()));
            vstd::set_lib::lemma_len_subset(bucket.to_set(), front.to_set());
            assert(false);
        }
        assert forall|x: u64| bucket.contains(x) && front.contains(x) implies #[trigger] all.contains(
            x,
        ) by {
            let p = bucket.index_of(x);
            assert(all[p - 1] == x);
        }
    } else {
        assert forall|x: u64| bucket.contains(x) implies #[trigger] all.contains(x) by {
            let p = bucket.index_of(x);
            assert(all[p] == x);
        }
    }
}

/// A node that meets a seed is seen by it, and learns the nearest nodes that
/// the seed then knows; no other table changes, and it learns no other node.
pub proof fn law_meeting_a_seed(ids: Seq<u64>, i: int, j: JoinView, s: int, k: int, x: u64)
    requires
        0 <= s < j.tables.len(),
        0 <= k < j.tables.len(),
        ids[i] != ids[s],
        j.tables[s].len() == 64,
        j.own.len() == 64,
        forall|c: int| 0 <= c < 64 ==> sound_bucket(ids[i], c as nat, #[trigger] j.own[c]),
    ensures
        ({
            let w = met(ids, i, j, s);
            let named = first_ids(by_distance(all_ids(w.tables[s]), ids[i]), 20);
            &&& w.tables.len() == j.tables.len()
            &&& k != s ==> w.tables[k] == j.tables[k]
            &&& w.tables[s] == after_seen(ids[s], j.tables[s], ids[i])
            &&& all_ids(w.tables[s]).contains(ids[i])
            &&& named.contains(x) && x != ids[i] ==> all_ids(w.own).contains(x)
        }),
{
    let w = met(ids, i, j, s);
    let table = w.tables[s];
    law_buckets_go_by_the_highest_difference(ids[s], ids[i]);
    let c = bucket_of(ids[s], ids[i])->0 as int;
    assert(table[c].last() == ids[i]);
    assert(table[c].contains(ids[i]));
    law_all_ids_are_those_of_the_buckets(table, ids[i]);
    let named = first_ids(by_distance(all_ids(table), ids[i]), 20);
    let own = ids[i];
    law_buckets_go_by_the_highest_difference(own, ids[s]);
    let d = bucket_of(own, ids[s])->0;
    lemma_touched_sound(own, d, j.own[d as int], ids[s]);
    let start = after_seen(own, j.own, ids[s]);
    if named.contains(x) && x != own {
        law_buckets_go_by_the_highest_difference(own, x);
        let b = bucket_of(own, x)->0 as int;
        lemma_seen_stay(own, start, named, b);
        assert(w.own[b].contains(x));
        law_all_ids_are_those_of_the_buckets(w.own, x);
    }
}

/// The numbers are drawn by steps that are linear in the bits of the state:
/// what differs before a step differs after it by the same amount whatever
/// the rest of the state is, and a state of one low bit moves to the two
/// places that the shifts give it and to their sum.
pub proof fn law_random_steps_are_linear(x: u64, y: u64, low: u64)
    requires
        low < 64,
    ensures
        drawn_after(x ^ y) == drawn_after(x) ^ drawn_after(y),
        drawn_after(low) == ({
            let a = low ^ ((low * 8192) as u64);
            let b = a ^ ((low * 64) as u64);
            b ^ ((b * 131072) as u64)
        }),
{
    assert({
        let a = x ^ (x << 13);
        let b = a ^ (a >> 7);
        let c = y ^ (y << 13);
        let d = c ^ (c >> 7);
        let e = (x ^ y) ^ ((x ^ y) << 13);
        let f = e ^ (e >> 7);
        f ^ (f << 17) == (b ^ (b << 17)) ^ (d ^ (d << 17))
    }) by (bit_vector);
    assert(low < 64 ==> low << 13 == low * 8192) by (bit_vector);
    assert(low < 64 ==> (low ^ (low << 13)) >> 7 == low * 64) by (bit_vector);
    let b = (low ^ (low << 13)) ^ ((low * 64) as u64);
    assert(low < 64 && b == (low ^ (low << 13)) ^ ((low * 64) as u64) ==> b < 0x10_0000)
        by (bit_vector);
    assert(b < 0x10_0000 ==> b << 17 == b * 131072) by (bit_vector);
}

/// A seed gives an odd state, so that none is empty.
pub proof fn law_seeds_give_odd_states(seed: u64)
    ensures
        seeded(seed) % 2 == 1,
        seeded(seed) == ({
            let m = (seed * 0x9E37_79B9_7F4A_7C15) % 0x1_0000_0000_0000_0000;
            if m % 2 == 1 {
                m
            } else {
                m + 1
            }
        }),
{
    let m = ((seed * 0x9E37_79B9_7F4A_7C15) % 0x1_0000_0000_0000_0000) as u64;
    assert((m | 1) % 2 == 1) by (bit_vector);
    assert(m % 2 == 1 ==> m | 1 == m) by (bit_vector);
    assert(m % 2 == 0 ==> m | 1 == m + 1) by (bit_vector);
}

} // verus!
