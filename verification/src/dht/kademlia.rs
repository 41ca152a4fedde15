//! Kademlia routing core: XOR distance, buckets, iterative lookup.

use vstd::prelude::*;
use vstd::relations::*;

verus! {

/// Bits of an id.
pub const BITS: usize = 64;

/// Most ids of a bucket.
pub const K: usize = 20;

/// Queries of one round.
pub const ALPHA: usize = 3;

/// Most rounds of a lookup.
pub const MAX_ROUNDS: usize = 32;

/// The number of the highest bit that is set; zero for zero.
pub open spec fn top_bit(d: u64) -> nat
    decreases d,
{
    if d < 2 {
        0
    } else {
        1 + top_bit(d / 2)
    }
}

/// The bucket of an id: the highest bit in which it differs from the own id.
pub open spec fn bucket_of(own: u64, other: u64) -> Option<nat> {
    if own == other {
        None
    } else {
        Some(top_bit(own ^ other))
    }
}

/// `2` to the power `n`.
pub open spec fn two_to(n: nat) -> nat
    decreases n,
{
    if n == 0 {
        1
    } else {
        2 * two_to((n - 1) as nat)
    }
}

/// The highest bit that is set says within a factor of two how large a
/// number is.
pub proof fn lemma_top_bit(d: u64)
    requires
        d > 0,
    ensures
        two_to(top_bit(d)) <= d < 2 * two_to(top_bit(d)),
        top_bit(d) < 64,
    decreases d,
{
    if d >= 2 {
        lemma_top_bit(d / 2);
        lemma_two_to_bound(top_bit(d), d);
    }
}

proof fn lemma_two_to_bound(n: nat, d: u64)
    requires
        two_to(n) <= d,
    ensures
        n < 64,
{
    if n >= 64 {
        lemma_two_to_grows(64, n);
        lemma_eight_more(0);
        lemma_eight_more(8);
        lemma_eight_more(16);
        lemma_eight_more(24);
        lemma_eight_more(32);
        lemma_eight_more(40);
        lemma_eight_more(48);
        lemma_eight_more(56);
    }
}

proof fn lemma_eight_more(n: nat)
    ensures
        two_to(n + 8) == 256 * two_to(n),
{
    reveal_with_fuel(two_to, 9);
}

proof fn lemma_two_to_grows(a: nat, b: nat)
    requires
        a <= b,
    ensures
        two_to(a) <= two_to(b),
    decreases b,
{
    if a < b {
        lemma_two_to_grows(a, (b - 1) as nat);
    }
}

/// The XOR distance of two ids.
pub fn xordist(a: u64, b: u64) -> (d: u64)
    ensures
        d == a ^ b,
{
    a ^ b
}

/// The bucket of an id; none for the own id.
pub fn bucket_index(own: u64, other: u64) -> (out: Option<usize>)
    ensures
        match out {
            Some(b) => b < BITS && bucket_of(own, other) == Some(b as nat),
            None => own == other,
        },
{
    let d = own ^ other;
    assert(own ^ other == 0 <==> own == other) by (bit_vector);
    if d == 0 {
        return None;
    }
    let mut left: u64 = d;
    let mut b: usize = 0;
    proof {
        lemma_top_bit(d);
    }
    while left >= 2
        invariant
            top_bit(d) == b + top_bit(left),
            top_bit(d) < 64,
        decreases left,
    {
        left = left / 2;
        b = b + 1;
    }
    Some(b)
}

/// The order of ids by their distance to a target.
pub open spec fn nearer(target: u64) -> spec_fn(u64, u64) -> bool {
    |a: u64, b: u64| (target ^ a) <= (target ^ b)
}

/// Ids in the order of their distance to a target.
pub open spec fn by_distance(ids: Seq<u64>, target: u64) -> Seq<u64> {
    ids.sort_by(nearer(target))
}

/// The first `n` ids, or all.
pub open spec fn first_ids(ids: Seq<u64>, n: nat) -> Seq<u64> {
    if ids.len() <= n {
        ids
    } else {
        ids.take(n as int)
    }
}

/// Different ids have different distances to any target.
pub proof fn lemma_distance_injective(target: u64, a: u64, b: u64)
    ensures
        (target ^ a) == (target ^ b) ==> a == b,
{
    assert((target ^ a) == (target ^ b) ==> a == b) by (bit_vector);
}

proof fn lemma_nearer_total(target: u64)
    ensures
        total_ordering(nearer(target)),
{
    let r = nearer(target);
    assert forall|a: u64, b: u64| #[trigger] r(a, b) && #[trigger] r(b, a) implies a == b by {
        lemma_distance_injective(target, a, b);
    }
}

/// Whether one id is at least as near to a target as another.
fn is_nearer(target: u64, a: u64, b: u64) -> (yes: bool)
    ensures
        yes == nearer(target)(a, b),
{
    (target ^ a) <= (target ^ b)
}

/// Ids in the order of their distance to a target.
pub fn sorted_by_distance(ids: &Vec<u64>, target: u64) -> (out: Vec<u64>)
    ensures
        out@ == by_distance(ids@, target),
{
    let ghost leq = nearer(target);
    let mut out: Vec<u64> = Vec::new();
    let mut i: usize = 0;
    proof {
        lemma_nearer_total(target);
        assert(ids@.take(0) =~= Seq::empty());
    }
    while i < ids.len()
        invariant
            i <= ids@.len(),
            leq == nearer(target),
            total_ordering(leq),
            sorted_by(out@, leq),
            out@.to_multiset() == ids@.take(i as int).to_multiset(),
        decreases ids@.len() - i,
    {
        let id = ids[i];
        let mut p: usize = 0;
        while p < out.len() && is_nearer(target, out[p], id)
            invariant
                p <= out@.len(),
                leq == nearer(target),
                forall|j: int| 0 <= j < p ==> leq(#[trigger] out@[j], id),
            decreases out@.len() - p,
        {
            p = p + 1;
        }
        let ghost before = out@;
        out.insert(p, id);
        proof {
            broadcast use vstd::seq_lib::group_to_multiset_ensures;

            lemma_insert_sorted(before, p as int, id, leq);
            lemma_insert_multiset(before, p as int, id);
            assert(ids@.take(i + 1) =~= ids@.take(i as int).push(id));
        }
        i = i + 1;
    }
    proof {
        assert(ids@.take(i as int) =~= ids@);
        ids@.lemma_sort_by_ensures(leq);
        vstd::seq_lib::lemma_sorted_unique(out@, by_distance(ids@, target), leq);
    }
    out
}

proof fn lemma_insert_sorted(
    s: Seq<u64>,
    p: int,
    id: u64,
    leq: spec_fn(u64, u64) -> bool,
)
    requires
        total_ordering(leq),
        sorted_by(s, leq),
        0 <= p <= s.len(),
        forall|j: int| 0 <= j < p ==> leq(#[trigger] s[j], id),
        p < s.len() ==> !leq(s[p], id),
    ensures
        sorted_by(s.insert(p, id), leq),
{
    let t = s.insert(p, id);
    assert forall|i: int, j: int| 0 <= i < j < t.len() implies #[trigger] leq(t[i], t[j]) by {
        if i < p && j > p {
            assert(leq(s[i], s[j - 1]));
        } else if i < p && j < p {
            assert(leq(s[i], s[j]));
        } else if i > p {
            assert(leq(s[i - 1], s[j - 1]));
        } else if i == p {
            assert(leq(id, s[p]));
            if j - 1 > p {
                assert(leq(s[p], s[j - 1]));
            }
        }
    }
}

proof fn lemma_insert_multiset(s: Seq<u64>, p: int, id: u64)
    requires
        0 <= p <= s.len(),
    ensures
        s.insert(p, id).to_multiset() == s.to_multiset().insert(id),
{
    broadcast use vstd::seq_lib::group_to_multiset_ensures;

    let t = s.insert(p, id);
    assert(t.remove(p) =~= s);
    assert(t.to_multiset().remove(id) =~= s.to_multiset());
    assert(t[p] == id);
    assert(t.contains(id));
    assert(t.to_multiset() =~= t.to_multiset().remove(id).insert(id));
}

/// A routing table: for each distance class the ids seen, least recent
/// first.
#[derive(Debug, Clone)]
pub struct RoutingTable {
    pub own_id: u64,
    pub buckets: Vec<Vec<u64>>,
}

/// The ids of each bucket.
pub open spec fn buckets_view(b: Seq<Vec<u64>>) -> Seq<Seq<u64>> {
    Seq::new(b.len(), |i: int| b[i]@)
}

/// A bucket after an id was seen: the id moves to its end; a full bucket
/// drops the id that was not seen for longest.
pub open spec fn touched(bucket: Seq<u64>, id: u64) -> Seq<u64> {
    if bucket.contains(id) {
        bucket.remove(bucket.index_of(id)).push(id)
    } else if bucket.len() >= K {
        bucket.skip(1).push(id)
    } else {
        bucket.push(id)
    }
}

/// Buckets after an id was seen.
pub open spec fn after_seen(own: u64, buckets: Seq<Seq<u64>>, id: u64) -> Seq<Seq<u64>> {
    match bucket_of(own, id) {
        None => buckets,
        Some(b) => buckets.update(b as int, touched(buckets[b as int], id)),
    }
}

/// All ids of buckets.
pub open spec fn all_ids(buckets: Seq<Seq<u64>>) -> Seq<u64>
    decreases buckets.len(),
{
    if buckets.len() == 0 {
        Seq::empty()
    } else {
        all_ids(buckets.drop_last()) + buckets.last()
    }
}

/// A bucket holds at most [`K`] ids, each once, and only those of its class.
pub open spec fn sound_bucket(own: u64, b: nat, bucket: Seq<u64>) -> bool {
    &&& bucket.len() <= K
    &&& bucket.no_duplicates()
    &&& forall|i: int| 0 <= i < bucket.len() ==> bucket_of(own, #[trigger] bucket[i]) == Some(b)
}

/// Position of an id, or the length without it.
fn position(ids: &Vec<u64>, id: u64) -> (p: usize)
    ensures
        p <= ids@.len(),
        p < ids@.len() <==> ids@.contains(id),
        p < ids@.len() ==> ids@[p as int] == id && forall|j: int| 0 <= j < p ==> ids@[j] != id,
{
    let mut p: usize = 0;
    while p < ids.len() && ids[p] != id
        invariant
            p <= ids@.len(),
            forall|j: int| 0 <= j < p ==> ids@[j] != id,
        decreases ids@.len() - p,
    {
        p = p + 1;
    }
    p
}

pub(crate) proof fn lemma_touched_sound(own: u64, b: nat, bucket: Seq<u64>, id: u64)
    requires
        sound_bucket(own, b, bucket),
        bucket_of(own, id) == Some(b),
    ensures
        sound_bucket(own, b, touched(bucket, id)),
        touched(bucket, id).last() == id,
{
    let t = touched(bucket, id);
    if bucket.contains(id) {
        let p = bucket.index_of(id);
        let rest = bucket.remove(p);
        assert forall|i: int| 0 <= i < rest.len() implies #[trigger] rest[i] != id && bucket_of(
            own,
            rest[i],
        ) == Some(b) by {
            let i0 = if i < p { i } else { i + 1 };
            assert(rest[i] == bucket[i0]);
        }
        assert forall|i: int, j: int| 0 <= i < t.len() && 0 <= j < t.len() && i != j implies t[i]
            != t[j] by {
            let i0 = if i < p { i } else { i + 1 };
            let j0 = if j < p { j } else { j + 1 };
            if i < rest.len() {
                assert(rest[i] == bucket[i0]);
            }
            if j < rest.len() {
                assert(rest[j] == bucket[j0]);
            }
        }
        assert forall|i: int| 0 <= i < t.len() implies bucket_of(own, #[trigger] t[i]) == Some(
            b,
        ) by {
            if i < rest.len() {
                assert(t[i] == rest[i]);
            }
        }
    } else {
        let rest = if bucket.len() >= K { bucket.skip(1) } else { bucket };
        let off: int = if bucket.len() >= K { 1 } else { 0 };
        assert forall|i: int| 0 <= i < rest.len() implies #[trigger] rest[i] == bucket[i + off] by {}
        assert forall|i: int, j: int| 0 <= i < t.len() && 0 <= j < t.len() && i != j implies t[i]
            != t[j] by {
            if i < rest.len() {
                assert(rest[i] == bucket[i + off]);
            }
            if j < rest.len() {
                assert(rest[j] == bucket[j + off]);
            }
        }
        assert forall|i: int| 0 <= i < t.len() implies bucket_of(own, #[trigger] t[i]) == Some(
            b,
        ) by {
            if i < rest.len() {
                assert(rest[i] == bucket[i + off]);
            }
        }
    }
}

impl RoutingTable {
    /// One bucket for each bit, each of them sound.
    pub open spec fn wf(self) -> bool {
        &&& self.buckets@.len() == BITS
        &&& forall|b: int|
            0 <= b < BITS ==> sound_bucket(self.own_id, b as nat, #[trigger] self.buckets@[b]@)
    }

    /// A table without ids.
    pub fn new(own_id: u64) -> (t: Self)
        ensures
            t.wf(),
            t.own_id == own_id,
            buckets_view(t.buckets@) == Seq::new(64, |i: int| Seq::<u64>::empty()),
    {
        let mut buckets: Vec<Vec<u64>> = Vec::new();
        let mut i: usize = 0;
        while i < BITS
            invariant
                i <= BITS,
                buckets@.len() == i,
                forall|j: int| 0 <= j < i ==> #[trigger] buckets@[j]@ == Seq::<u64>::empty(),
            decreases BITS - i,
        {
            buckets.push(Vec::new());
            i = i + 1;
        }
        let t = RoutingTable { own_id, buckets };
        assert(buckets_view(t.buckets@) =~= Seq::new(64, |i: int| Seq::<u64>::empty()));
        t
    }

    /// Notes that an id was seen. The own id is not noted.
    pub fn insert(&mut self, id: u64)
        requires
            old(self).wf(),
        ensures
            final(self).wf(),
            final(self).own_id == old(self).own_id,
            buckets_view(final(self).buckets@) == after_seen(
                old(self).own_id,
                buckets_view(old(self).buckets@),
                id,
            ),
    {
        let b = match bucket_index(self.own_id, id) {
            Some(b) => b,
            None => return,
        };
        let mut bucket: Vec<u64> = Vec::new();
        std::mem::swap(&mut self.buckets[b], &mut bucket);
        let ghost before = bucket@;
        proof {
            lemma_touched_sound(self.own_id, b as nat, before, id);
        }
        let p = position(&bucket, id);
        if p < bucket.len() {
            assert(before.index_of(id) == p);
            bucket.remove(p);
            bucket.push(id);
        } else {
            if bucket.len() >= K {
                bucket.remove(0);
                assert(bucket@ =~= before.skip(1));
            }
            bucket.push(id);
        }
        assert(bucket@ == touched(before, id));
        std::mem::swap(&mut self.buckets[b], &mut bucket);
        proof {
            assert(buckets_view(self.buckets@) =~= buckets_view(old(self).buckets@).update(
                b as int,
                touched(before, id),
            ));
            assert forall|c: int| 0 <= c < BITS implies sound_bucket(
                self.own_id,
                c as nat,
                #[trigger] self.buckets@[c]@,
            ) by {
                if c != b {
                    assert(self.buckets@[c] == old(self).buckets@[c]);
                }
            }
        }
    }

    /// The `n` ids of the table nearest to a target, nearest first.
    pub fn closest(&self, target: u64, n: usize) -> (out: Vec<u64>)
        ensures
            out@ == first_ids(by_distance(all_ids(buckets_view(self.buckets@)), target), n as nat),
    {
        let ghost all = buckets_view(self.buckets@);
        let mut ids: Vec<u64> = Vec::new();
        let mut i: usize = 0;
        assert(all.take(0) =~= Seq::empty());
        while i < self.buckets.len()
            invariant
                i <= self.buckets@.len(),
                all == buckets_view(self.buckets@),
                ids@ == all_ids(all.take(i as int)),
            decreases self.buckets@.len() - i,
        {
            proof {
                assert(all.take(i + 1).drop_last() =~= all.take(i as int));
                assert(all.take(i + 1).last() == self.buckets@[i as int]@);
            }
            ids.extend_from_slice(self.buckets[i].as_slice());
            i = i + 1;
        }
        assert(all.take(i as int) =~= all);
        let mut out = sorted_by_distance(&ids, target);
        if out.len() > n {
            out.truncate(n);
            assert(out@ =~= by_distance(ids@, target).take(n as int));
        }
        out
    }
}

/// What a lookup needs of a network.
pub trait KademliaNet {
    /// The node is one of the network.
    spec fn knows(&self, node: u64) -> bool;

    /// The ids nearest to a target that a node knows.
    spec fn nearest(&self, node: u64, target: u64, n: nat) -> Seq<u64>;

    /// The node answers.
    spec fn answers(&self, node: u64) -> bool;

    /// The `n` ids nearest to a target that a node knows; all of them are of
    /// the network.
    fn closest(&self, node: u64, target: u64, n: usize) -> (out: Vec<u64>)
        requires
            self.knows(node),
        ensures
            out@ == self.nearest(node, target, n as nat),
            forall|i: int| 0 <= i < out@.len() ==> self.knows(#[trigger] out@[i]),
    ;

    /// Whether a node answers.
    fn online(&self, node: u64) -> (yes: bool)
        requires
            self.knows(node),
        ensures
            yes == self.answers(node),
    ;
}

/// What a lookup came to.
#[derive(Debug, Clone)]
pub struct Lookup {
    pub rounds: usize,
    /// Queries sent.
    pub requests: usize,
    /// Replies received.
    pub responses: usize,
    /// Nodes that replied, nearest first.
    pub contacted: Vec<u64>,
}

impl Lookup {
    /// Messages in both directions.
    pub fn find_node_messages(&self) -> (n: usize)
        requires
            self.requests + self.responses <= usize::MAX,
        ensures
            n == self.requests + self.responses,
    {
        self.requests + self.responses
    }
}

/// The state of a lookup.
pub struct LookupState {
    pub known: Seq<u64>,
    pub queried: Seq<u64>,
    pub repliers: Seq<u64>,
    pub requests: nat,
    pub responses: nat,
}

/// Ids with those of a reply that are new, at the end.
pub open spec fn merged(known: Seq<u64>, reply: Seq<u64>) -> Seq<u64>
    decreases reply.len(),
{
    if reply.len() == 0 {
        known
    } else {
        let before = merged(known, reply.drop_last());
        if before.contains(reply.last()) {
            before
        } else {
            before.push(reply.last())
        }
    }
}

/// The ids that were not queried yet, in their order.
pub open spec fn unqueried(known: Seq<u64>, queried: Seq<u64>) -> Seq<u64>
    decreases known.len(),
{
    if known.len() == 0 {
        Seq::empty()
    } else if queried.contains(known.last()) {
        unqueried(known.drop_last(), queried)
    } else {
        unqueried(known.drop_last(), queried).push(known.last())
    }
}

/// The lookup after a node was queried. A silent node never counts as a
/// replier.
pub open spec fn asked<N: KademliaNet>(net: &N, target: u64, s: LookupState, id: u64) -> LookupState {
    let sent = LookupState {
        queried: s.queried.push(id),
        requests: s.requests + 1,
        ..s
    };
    if net.answers(id) {
        LookupState {
            known: merged(s.known, net.nearest(id, target, K as nat)),
            repliers: s.repliers.push(id),
            responses: s.responses + 1,
            ..sent
        }
    } else {
        sent
    }
}

/// The lookup after nodes were queried in turn.
pub open spec fn all_asked<N: KademliaNet>(
    net: &N,
    target: u64,
    s: LookupState,
    batch: Seq<u64>,
) -> LookupState
    decreases batch.len(),
{
    if batch.len() == 0 {
        s
    } else {
        asked(net, target, all_asked(net, target, s, batch.drop_last()), batch.last())
    }
}

/// The lookup after a round: the [`ALPHA`] nearest nodes that were not
/// queried are, and what is known then is put in order.
pub open spec fn after_round<N: KademliaNet>(net: &N, target: u64, s: LookupState) -> LookupState {
    let t = all_asked(
        net,
        target,
        s,
        first_ids(unqueried(s.known, s.queried), ALPHA as nat),
    );
    LookupState { known: by_distance(t.known, target), ..t }
}

/// Nothing is left to ask: the [`K`] nearest known nodes were all queried.
pub open spec fn is_settled(known: Seq<u64>, queried: Seq<u64>) -> bool {
    forall|i: int| 0 <= i < known.len() && i < K ==> queried.contains(#[trigger] known[i])
}

/// The lookup at its end, and its number of rounds.
pub open spec fn run<N: KademliaNet>(net: &N, target: u64, s: LookupState, rounds: nat) -> (
    LookupState,
    nat,
)
    decreases MAX_ROUNDS - rounds,
{
    if rounds >= MAX_ROUNDS {
        (s, rounds)
    } else if is_settled(s.known, s.queried) {
        (s, rounds + 1)
    } else {
        run(net, target, after_round(net, target, s), rounds + 1)
    }
}

/// The state at the start of a lookup.
pub open spec fn start_state<N: KademliaNet>(net: &N, from: u64, target: u64) -> LookupState {
    LookupState {
        known: net.nearest(from, target, K as nat),
        queried: Seq::empty(),
        repliers: Seq::empty(),
        requests: 0,
        responses: 0,
    }
}

/// What a lookup from a node comes to.
pub open spec fn found<N: KademliaNet>(net: &N, from: u64, target: u64, out: Lookup) -> bool {
    let (end, rounds) = run(net, target, start_state(net, from, target), 0);
    &&& out.rounds == rounds
    &&& out.requests == end.requests
    &&& out.responses == end.responses
    &&& out.contacted@ == first_ids(by_distance(end.repliers, target), K as nat)
}

/// Appends the ids of a reply that are new.
fn merge(known: &mut Vec<u64>, reply: &Vec<u64>)
    ensures
        final(known)@ == merged(old(known)@, reply@),
{
    let mut i: usize = 0;
    assert(reply@.take(0) =~= Seq::empty());
    while i < reply.len()
        invariant
            i <= reply@.len(),
            known@ == merged(old(known)@, reply@.take(i as int)),
        decreases reply@.len() - i,
    {
        let id = reply[i];
        proof {
            assert(reply@.take(i + 1).drop_last() =~= reply@.take(i as int));
        }
        if position(known, id) == known.len() {
            known.push(id);
        }
        i = i + 1;
    }
    assert(reply@.take(i as int) =~= reply@);
}

/// The ids that were not queried yet, in their order.
fn pending(known: &Vec<u64>, queried: &Vec<u64>) -> (out: Vec<u64>)
    ensures
        out@ == unqueried(known@, queried@),
{
    let mut out: Vec<u64> = Vec::new();
    let mut i: usize = 0;
    assert(known@.take(0) =~= Seq::empty());
    while i < known.len()
        invariant
            i <= known@.len(),
            out@ == unqueried(known@.take(i as int), queried@),
        decreases known@.len() - i,
    {
        let id = known[i];
        proof {
            assert(known@.take(i + 1).drop_last() =~= known@.take(i as int));
        }
        if position(queried, id) == queried.len() {
            out.push(id);
        }
        i = i + 1;
    }
    assert(known@.take(i as int) =~= known@);
    out
}

/// Whether the nearest known nodes were all queried.
fn settled(known: &Vec<u64>, queried: &Vec<u64>) -> (yes: bool)
    ensures
        yes == is_settled(known@, queried@),
{
    let mut i: usize = 0;
    while i < known.len() && i < K
        invariant
            i <= known@.len(),
            i <= K,
            forall|j: int| 0 <= j < i ==> queried@.contains(#[trigger] known@[j]),
        decreases known@.len() - i,
    {
        if position(queried, known[i]) == queried.len() {
            assert(!queried@.contains(known@[i as int]));
            return false;
        }
        i = i + 1;
    }
    true
}

/// All ids are of the network.
pub open spec fn all_known<N: KademliaNet>(net: &N, ids: Seq<u64>) -> bool {
    forall|i: int| 0 <= i < ids.len() ==> net.knows(#[trigger] ids[i])
}

proof fn lemma_merged_known<N: KademliaNet>(net: &N, known: Seq<u64>, reply: Seq<u64>)
    requires
        all_known(net, known),
        all_known(net, reply),
    ensures
        all_known(net, merged(known, reply)),
    decreases reply.len(),
{
    if reply.len() > 0 {
        assert forall|i: int| 0 <= i < reply.drop_last().len() implies net.knows(
            #[trigger] reply.drop_last()[i],
        ) by {
            assert(reply.drop_last()[i] == reply[i]);
        }
        lemma_merged_known(net, known, reply.drop_last());
        assert(net.knows(reply[reply.len() - 1]));
    }
}

proof fn lemma_unqueried_known<N: KademliaNet>(net: &N, known: Seq<u64>, queried: Seq<u64>)
    requires
        all_known(net, known),
    ensures
        all_known(net, unqueried(known, queried)),
    decreases known.len(),
{
    if known.len() > 0 {
        assert forall|i: int| 0 <= i < known.drop_last().len() implies net.knows(
            #[trigger] known.drop_last()[i],
        ) by {
            assert(known.drop_last()[i] == known[i]);
        }
        lemma_unqueried_known(net, known.drop_last(), queried);
        assert(net.knows(known[known.len() - 1]));
    }
}

/// Putting ids in order keeps them the same ids.
pub proof fn lemma_by_distance(ids: Seq<u64>, target: u64)
    ensures
        by_distance(ids, target).to_multiset() == ids.to_multiset(),
        by_distance(ids, target).len() == ids.len(),
        sorted_by(by_distance(ids, target), nearer(target)),
        forall|id: u64| #[trigger] by_distance(ids, target).contains(id) <==> ids.contains(id),
{
    broadcast use vstd::seq_lib::group_to_multiset_ensures;

    lemma_nearer_total(target);
    ids.lemma_sort_by_ensures(nearer(target));
    let s = by_distance(ids, target);
    assert(s.len() == s.to_multiset().len());
    assert(ids.len() == ids.to_multiset().len());
    assert forall|id: u64| #[trigger] s.contains(id) <==> ids.contains(id) by {
        assert(s.contains(id) <==> s.to_multiset().count(id) > 0);
        assert(ids.contains(id) <==> ids.to_multiset().count(id) > 0);
    }
}

proof fn lemma_by_distance_known<N: KademliaNet>(net: &N, ids: Seq<u64>, target: u64)
    requires
        all_known(net, ids),
    ensures
        all_known(net, by_distance(ids, target)),
{
    lemma_by_distance(ids, target);
    let s = by_distance(ids, target);
    assert forall|i: int| 0 <= i < s.len() implies net.knows(#[trigger] s[i]) by {
        assert(s.contains(s[i]));
        let k = ids.index_of(s[i]);
        assert(ids[k] == s[i]);
    }
}

/// Iterative lookup: rounds of [`ALPHA`] queries until the [`K`] nearest
/// known nodes were all queried. The contacts of repliers become known.
pub fn lookup<N: KademliaNet>(net: &N, from: u64, target: u64) -> (out: Lookup)
    requires
        net.knows(from),
    ensures
        found(net, from, target, out),
        out.rounds <= MAX_ROUNDS,
        out.responses <= out.requests <= ALPHA * MAX_ROUNDS,
        all_known(net, out.contacted@),
{
    let mut known = net.closest(from, target, K);
    let mut queried: Vec<u64> = Vec::new();
    let mut repliers: Vec<u64> = Vec::new();
    let mut rounds: usize = 0;
    let mut requests: usize = 0;
    let mut responses: usize = 0;
    let ghost first = start_state(net, from, target);
    let mut going: bool = true;
    while going && rounds < MAX_ROUNDS
        invariant
            rounds <= MAX_ROUNDS,
            requests <= 3 * rounds,
            responses <= requests,
            all_known(net, known@),
            all_known(net, repliers@),
            going ==> run(net, target, first, 0) == run(
                net,
                target,
                LookupState {
                    known: known@,
                    queried: queried@,
                    repliers: repliers@,
                    requests: requests as nat,
                    responses: responses as nat,
                },
                rounds as nat,
            ),
            !going ==> run(net, target, first, 0) == (
                LookupState {
                    known: known@,
                    queried: queried@,
                    repliers: repliers@,
                    requests: requests as nat,
                    responses: responses as nat,
                },
                rounds as nat,
            ),
        decreases MAX_ROUNDS - rounds,
    {
        let ghost s = LookupState {
            known: known@,
            queried: queried@,
            repliers: repliers@,
            requests: requests as nat,
            responses: responses as nat,
        };
        rounds = rounds + 1;
        if settled(&known, &queried) {
            going = false;
        } else {
            let mut batch = pending(&known, &queried);
            proof {
                lemma_unqueried_known(net, known@, queried@);
            }
            if batch.len() > ALPHA {
                batch.truncate(ALPHA);
            }
            assert(batch@ =~= first_ids(unqueried(s.known, s.queried), ALPHA as nat));
            let mut i: usize = 0;
            assert(batch@.take(0) =~= Seq::empty());
            while i < batch.len()
                invariant
                    i <= batch@.len() <= ALPHA,
                    0 < rounds <= MAX_ROUNDS,
                    requests <= 3 * (rounds - 1) + i,
                    responses <= requests,
                    all_known(net, known@),
                    all_known(net, batch@),
                    all_known(net, repliers@),
                    all_asked(net, target, s, batch@.take(i as int)) == (LookupState {
                        known: known@,
                        queried: queried@,
                        repliers: repliers@,
                        requests: requests as nat,
                        responses: responses as nat,
                    }),
                decreases batch@.len() - i,
            {
                let id = batch[i];
                proof {
                    assert(batch@.take(i + 1).drop_last() =~= batch@.take(i as int));
                    assert(net.knows(batch@[i as int]));
                }
                queried.push(id);
                requests = requests + 1;
                if net.online(id) {
                    responses = responses + 1;
                    repliers.push(id);
                    let reply = net.closest(id, target, K);
                    proof {
                        lemma_merged_known(net, known@, reply@);
                    }
                    merge(&mut known, &reply);
                }
                i = i + 1;
            }
            assert(batch@.take(i as int) =~= batch@);
            proof {
                lemma_by_distance_known(net, known@, target);
            }
            known = sorted_by_distance(&known, target);
        }
    }
    proof {
        lemma_by_distance_known(net, repliers@, target);
    }
    let mut contacted = sorted_by_distance(&repliers, target);
    if contacted.len() > K {
        contacted.truncate(K);
    }
    assert(contacted@ =~= first_ids(by_distance(repliers@, target), K as nat));
    Lookup { rounds, requests, responses, contacted }
}

/// The nearest `n` ids are as many as asked for, where there are as many, in
/// the order of their distance, and no id that is left out is nearer than one
/// of them.
pub proof fn law_closest_are_nearest(ids: Seq<u64>, target: u64, n: nat, i: int, j: int)
    requires
        0 <= i < first_ids(by_distance(ids, target), n).len(),
        i <= j < ids.len(),
    ensures
        ({
            let sorted = by_distance(ids, target);
            let near = first_ids(sorted, n);
            &&& near.len() == if ids.len() <= n {
                ids.len()
            } else {
                n
            }
            &&& near[i] == sorted[i]
            &&& (target ^ near[i]) <= (target ^ sorted[j])
            &&& sorted.to_multiset() == ids.to_multiset()
        }),
{
    lemma_by_distance(ids, target);
    lemma_nearer_total(target);
    let sorted = by_distance(ids, target);
    if i < j {
        assert(nearer(target)(sorted[i], sorted[j]));
    }
}

/// A lookup hears from as many nodes as replies came, and contacts the
/// nearest of them; where every node answers, every query is answered.
pub proof fn law_lookup_counts_its_replies<N: KademliaNet>(net: &N, from: u64, target: u64)
    ensures
        ({
            let (end, rounds) = run(net, target, start_state(net, from, target), 0);
            &&& rounds <= MAX_ROUNDS
            &&& end.repliers.len() == end.responses
            &&& first_ids(by_distance(end.repliers, target), K as nat).len() == if end.responses
                <= K {
                end.responses
            } else {
                K as nat
            }
            &&& (forall|id: u64| net.answers(id)) ==> end.responses == end.requests
        }),
{
    let start = start_state(net, from, target);
    lemma_run_counts(net, target, start, 0);
    let end = run(net, target, start, 0).0;
    lemma_by_distance(end.repliers, target);
}

proof fn lemma_run_counts<N: KademliaNet>(net: &N, target: u64, s: LookupState, rounds: nat)
    requires
        s.repliers.len() == s.responses,
        rounds <= MAX_ROUNDS,
        (forall|id: u64| net.answers(id)) ==> s.responses == s.requests,
    ensures
        ({
            let (end, n) = run(net, target, s, rounds);
            &&& n <= MAX_ROUNDS
            &&& end.repliers.len() == end.responses
            &&& (forall|id: u64| net.answers(id)) ==> end.responses == end.requests
        }),
    decreases MAX_ROUNDS - rounds,
{
    if rounds < MAX_ROUNDS && !is_settled(s.known, s.queried) {
        lemma_asked_counts(
            net,
            target,
            s,
            first_ids(unqueried(s.known, s.queried), ALPHA as nat),
        );
        lemma_run_counts(net, target, after_round(net, target, s), rounds + 1);
    }
}

proof fn lemma_asked_counts<N: KademliaNet>(
    net: &N,
    target: u64,
    s: LookupState,
    batch: Seq<u64>,
)
    requires
        s.repliers.len() == s.responses,
        (forall|id: u64| net.answers(id)) ==> s.responses == s.requests,
    ensures
        ({
            let t = all_asked(net, target, s, batch);
            &&& t.repliers.len() == t.responses
            &&& (forall|id: u64| net.answers(id)) ==> t.responses == t.requests
        }),
    decreases batch.len(),
{
    if batch.len() > 0 {
        lemma_asked_counts(net, target, s, batch.drop_last());
    }
}

/// An id falls into the bucket of the highest bit in which it differs from the
/// owner's, and the owner's own id into none.
pub proof fn law_buckets_go_by_the_highest_difference(own: u64, other: u64)
    ensures
        bucket_of(own, other) is None <==> own == other,
        bucket_of(own, other) matches Some(b) ==> b < 64 && two_to(b) <= (own ^ other) < 2 * two_to(
            b,
        ),
        two_to(0) == 1,
        bucket_of(own, other) matches Some(b) ==> two_to(b + 1) == 2 * two_to(b),
{
    if own != other {
        assert((own ^ other) != 0) by (bit_vector)
            requires
                own != other,
        ;
        lemma_top_bit(own ^ other);
    }
}

/// An id that was seen is the most recent one of its bucket. Others stay, in
/// their order, but for the least recent one of a full bucket that did not
/// know the id.
pub proof fn law_seen_ids_are_most_recent(bucket: Seq<u64>, id: u64, x: u64)
    requires
        bucket.no_duplicates(),
        bucket.len() <= 20,
    ensures
        ({
            let after = touched(bucket, id);
            &&& after.last() == id
            &&& after.len() <= 20
            &&& after.no_duplicates()
            &&& x != id ==> (after.contains(x) <==> bucket.contains(x) && !(bucket.len() == 20
                && !bucket.contains(id) && x == bucket[0]))
            &&& !bucket.contains(id) && bucket.len() < 20 ==> after == bucket.push(id)
            &&& !bucket.contains(id) && bucket.len() == 20 ==> after == bucket.skip(1).push(id)
            &&& bucket.contains(id) ==> after == bucket.remove(bucket.index_of(id)).push(id)
        }),
{
    let after = touched(bucket, id);
    let kept = after.drop_last();
    let gone: int = if bucket.contains(id) {
        bucket.index_of(id)
    } else if bucket.len() >= 20 {
        0
    } else {
        bucket.len() as int
    };
    assert(after.len() == kept.len() + 1);
    assert forall|i: int| 0 <= i < kept.len() implies kept[i] == bucket[if i < gone {
        i
    } else {
        i + 1
    }] by {}
    if after.contains(x) && x != id {
        let i = after.index_of(x);
        assert(kept[i] == x);
        assert(bucket[if i < gone {
            i
        } else {
            i + 1
        }] == x);
    }
    if bucket.contains(x) && x != id {
        let i = bucket.index_of(x);
        if i != gone {
            assert(kept[if i < gone {
                i
            } else {
                i - 1
            }] == x);
            assert(after[if i < gone {
                i
            } else {
                i - 1
            }] == x);
        }
    }
    assert forall|i: int, j: int| 0 <= i < j < after.len() implies after[i] != after[j] by {
        assert(after[i] == kept[i]);
        if j < kept.len() {
            assert(after[j] == kept[j]);
        } else {
            assert(kept[i] != id) by {
                let k = if i < gone {
                    i
                } else {
                    i + 1
                };
                assert(bucket[k] == kept[i]);
                if bucket[k] == id {
                    assert(bucket.contains(id));
                    assert(bucket[gone] == id);
                }
            }
        }
    }
}

/// An id that was seen changes its own bucket and no other; the owner's own id
/// changes nothing.
pub proof fn law_seen_ids_change_their_bucket_only(
    own: u64,
    buckets: Seq<Seq<u64>>,
    id: u64,
    i: int,
)
    requires
        buckets.len() == 64,
        0 <= i < 64,
    ensures
        after_seen(own, buckets, own) == buckets,
        after_seen(own, buckets, id).len() == 64,
        after_seen(own, buckets, id)[i] == if bucket_of(own, id) == Some(i as nat) {
            touched(buckets[i], id)
        } else {
            buckets[i]
        },
{
    law_buckets_go_by_the_highest_difference(own, id);
}

/// The ids of a table are those of its buckets, all of them.
pub proof fn law_all_ids_are_those_of_the_buckets(buckets: Seq<Seq<u64>>, x: u64)
    ensures
        all_ids(buckets).contains(x) <==> exists|b: int|
            0 <= b < buckets.len() && (#[trigger] buckets[b]).contains(x),
    decreases buckets.len(),
{
    if buckets.len() > 0 {
        let front = buckets.drop_last();
        let last = buckets.last();
        law_all_ids_are_those_of_the_buckets(front, x);
        let before = all_ids(front);
        let all = all_ids(buckets);
        assert(buckets[buckets.len() - 1] == last);
        if all.contains(x) {
            let i = all.index_of(x);
            if i < before.len() {
                assert(before[i] == x);
                let b = choose|b: int| 0 <= b < front.len() && (#[trigger] front[b]).contains(x);
                assert(buckets[b] == front[b]);
            } else {
                assert(last[i - before.len()] == x);
            }
        }
        if exists|b: int| 0 <= b < buckets.len() && (#[trigger] buckets[b]).contains(x) {
            let b = choose|b: int| 0 <= b < buckets.len() && (#[trigger] buckets[b]).contains(x);
            if b < front.len() {
                assert(front[b] == buckets[b]);
                assert(all[before.index_of(x)] == x);
            } else {
                assert(all[before.len() + last.index_of(x)] == x);
            }
        }
    }
}

/// What holds of a lookup at any time: each queried id was queried once and
/// was known, those that replied are those that were queried and answer, and
/// all that they know is known.
spec fn in_order<N: KademliaNet>(net: &N, target: u64, start: Seq<u64>, s: LookupState) -> bool {
    &&& s.known.no_duplicates()
    &&& s.queried.no_duplicates()
    &&& s.requests == s.queried.len()
    &&& s.responses == s.repliers.len()
    &&& forall|id: u64| #[trigger]
        s.repliers.contains(id) <==> s.queried.contains(id) && net.answers(id)
    &&& forall|id: u64| #[trigger] s.queried.contains(id) ==> s.known.contains(id)
    &&& forall|id: u64| #[trigger] start.contains(id) ==> s.known.contains(id)
    &&& forall|r: u64, c: u64|
        s.repliers.contains(r) && #[trigger] net.nearest(r, target, 20).contains(c)
            ==> s.known.contains(c)
}

proof fn lemma_merged(known: Seq<u64>, reply: Seq<u64>)
    requires
        known.no_duplicates(),
    ensures
        merged(known, reply).no_duplicates(),
        forall|x: u64| #[trigger]
            merged(known, reply).contains(x) <==> known.contains(x) || reply.contains(x),
    decreases reply.len(),
{
    if reply.len() > 0 {
        let front = reply.drop_last();
        lemma_merged(known, front);
        let before = merged(known, front);
        let all = merged(known, reply);
        assert(reply[reply.len() - 1] == reply.last());
        assert forall|x: u64| #[trigger] all.contains(x) <==> known.contains(x) || reply.contains(
            x,
        ) by {
            if all.contains(x) {
                let i = all.index_of(x);
                if i < before.len() {
                    assert(before[i] == x);
                    if front.contains(x) {
                        assert(reply[front.index_of(x)] == x);
                    }
                }
            }
            if reply.contains(x) {
                let i = reply.index_of(x);
                if i < front.len() {
                    assert(front[i] == x);
                }
            }
            if before.contains(x) {
                assert(all[before.index_of(x)] == x);
            }
            if x == reply.last() && !before.contains(x) {
                assert(all[all.len() - 1] == x);
            }
        }
    } else {
        assert(merged(known, reply) == known);
    }
}

proof fn lemma_unqueried(known: Seq<u64>, queried: Seq<u64>)
    requires
        known.no_duplicates(),
    ensures
        unqueried(known, queried).no_duplicates(),
        forall|x: u64| #[trigger]
            unqueried(known, queried).contains(x) <==> known.contains(x) && !queried.contains(x),
    decreases known.len(),
{
    if known.len() > 0 {
        let front = known.drop_last();
        lemma_unqueried(front, queried);
        let before = unqueried(front, queried);
        let all = unqueried(known, queried);
        assert(known[known.len() - 1] == known.last());
        assert forall|x: u64| #[trigger] all.contains(x) <==> known.contains(x)
            && !queried.contains(x) by {
            if all.contains(x) {
                let i = all.index_of(x);
                if i < before.len() {
                    assert(before[i] == x);
                    assert(before.contains(x));
                    assert(known[front.index_of(x)] == x);
                }
            }
            if known.contains(x) {
                let i = known.index_of(x);
                if i < front.len() {
                    assert(front[i] == x);
                }
            }
            if before.contains(x) {
                assert(all[before.index_of(x)] == x);
            }
            if x == known.last() && !queried.contains(x) {
                assert(all[all.len() - 1] == x);
            }
        }
        if !queried.contains(known.last()) {
            assert(!before.contains(known.last())) by {
                if before.contains(known.last()) {
                    let i = front.index_of(known.last());
                    assert(known[i] == known[known.len() - 1]);
                }
            }
        }
    }
}

proof fn lemma_contains_push(s: Seq<u64>, id: u64, x: u64)
    ensures
        s.push(id).contains(x) <==> s.contains(x) || x == id,
{
    let t = s.push(id);
    assert(t[s.len() as int] == id);
    if s.contains(x) {
        assert(t[s.index_of(x)] == x);
    }
    if t.contains(x) {
        let i = t.index_of(x);
        if i < s.len() {
            assert(s[i] == x);
        }
    }
}

proof fn lemma_asked_in_order<N: KademliaNet>(
    net: &N,
    target: u64,
    start: Seq<u64>,
    s: LookupState,
    id: u64,
)
    requires
        in_order(net, target, start, s),
        s.known.contains(id),
        !s.queried.contains(id),
    ensures
        in_order(net, target, start, asked(net, target, s, id)),
        forall|x: u64| #[trigger]
            asked(net, target, s, id).queried.contains(x) <==> s.queried.contains(x) || x == id,
        forall|x: u64| s.known.contains(x) ==> #[trigger] asked(
            net,
            target,
            s,
            id,
        ).known.contains(x),
{
    let t = asked(net, target, s, id);
    lemma_merged(s.known, net.nearest(id, target, 20));
    assert forall|x: u64| #[trigger] t.queried.contains(x) <==> s.queried.contains(x) || x == id by {
        lemma_contains_push(s.queried, id, x);
    }
    assert forall|x: u64| #[trigger] t.repliers.contains(x) <==> t.queried.contains(x)
        && net.answers(x) by {
        lemma_contains_push(s.repliers, id, x);
        assert(s.repliers.contains(x) <==> s.queried.contains(x) && net.answers(x));
    }
    assert forall|r: u64, c: u64|
        t.repliers.contains(r) && #[trigger] net.nearest(
            r,
            target,
            20,
        ).contains(c) implies t.known.contains(c) by {
        lemma_contains_push(s.repliers, id, r);
        if s.repliers.contains(r) {
            assert(s.known.contains(c));
        }
    }
    assert(t.queried.no_duplicates()) by {
        assert forall|i: int, j: int| 0 <= i < j < t.queried.len() implies t.queried[i]
            != t.queried[j] by {
            if j == s.queried.len() {
                assert(s.queried.contains(s.queried[i]));
            }
        }
    }
}

proof fn lemma_batch_in_order<N: KademliaNet>(
    net: &N,
    target: u64,
    start: Seq<u64>,
    s: LookupState,
    batch: Seq<u64>,
)
    requires
        in_order(net, target, start, s),
        batch.no_duplicates(),
        forall|x: u64| #[trigger]
            batch.contains(x) ==> s.known.contains(x) && !s.queried.contains(x),
    ensures
        in_order(net, target, start, all_asked(net, target, s, batch)),
        forall|x: u64| #[trigger]
            all_asked(net, target, s, batch).queried.contains(x) <==> s.queried.contains(x)
                || batch.contains(x),
        forall|x: u64| s.known.contains(x) ==> #[trigger] all_asked(
            net,
            target,
            s,
            batch,
        ).known.contains(x),
    decreases batch.len(),
{
    if batch.len() > 0 {
        let front = batch.drop_last();
        let last = batch.last();
        assert(batch[batch.len() - 1] == last);
        assert forall|x: u64| #[trigger] front.contains(x) implies s.known.contains(x)
            && !s.queried.contains(x) by {
            assert(batch[front.index_of(x)] == x);
            assert(batch.contains(x));
        }
        lemma_batch_in_order(net, target, start, s, front);
        let t = all_asked(net, target, s, front);
        assert(batch.contains(last));
        assert(!front.contains(last)) by {
            if front.contains(last) {
                let i = front.index_of(last);
                assert(batch[i] == batch[batch.len() - 1]);
            }
        }
        assert(t.known.contains(last));
        assert(!t.queried.contains(last));
        lemma_asked_in_order(net, target, start, t, last);
        let u = all_asked(net, target, s, batch);
        assert(front.push(last) =~= batch);
        assert forall|x: u64| #[trigger] u.queried.contains(x) <==> s.queried.contains(x)
            || batch.contains(x) by {
            lemma_contains_push(front, last, x);
            assert(t.queried.contains(x) <==> s.queried.contains(x) || front.contains(x));
        }
        assert forall|x: u64| s.known.contains(x) implies #[trigger] u.known.contains(x) by {
            assert(t.known.contains(x));
        }
    }
}

proof fn lemma_sorted_holds(ids: Seq<u64>, target: u64)
    requires
        ids.no_duplicates(),
    ensures
        by_distance(ids, target).no_duplicates(),
        forall|x: u64| #[trigger] by_distance(ids, target).contains(x) <==> ids.contains(x),
{
    lemma_by_distance(ids, target);
    let sorted = by_distance(ids, target);
    broadcast use vstd::seq_lib::group_to_multiset_ensures;

    ids.lemma_multiset_has_no_duplicates();
    assert forall|x: u64| #[trigger] sorted.contains(x) <==> ids.contains(x) by {
        assert(sorted.to_multiset().count(x) == ids.to_multiset().count(x));
    }
    assert forall|x: u64| sorted.to_multiset().contains(x) implies #[trigger]
        sorted.to_multiset().count(x) == 1 by {
        assert(ids.to_multiset().contains(x));
    }
    sorted.lemma_multiset_has_no_duplicates_conv();
}

proof fn lemma_round_in_order<N: KademliaNet>(
    net: &N,
    target: u64,
    start: Seq<u64>,
    s: LookupState,
)
    requires
        in_order(net, target, start, s),
    ensures
        in_order(net, target, start, after_round(net, target, s)),
{
    lemma_unqueried(s.known, s.queried);
    let fresh = unqueried(s.known, s.queried);
    let batch = first_ids(fresh, ALPHA as nat);
    assert forall|x: u64| #[trigger] batch.contains(x) implies s.known.contains(x)
        && !s.queried.contains(x) by {
        let i = batch.index_of(x);
        assert(fresh[i] == x);
        assert(fresh.contains(x));
    }
    lemma_batch_in_order(net, target, start, s, batch);
    let t = all_asked(net, target, s, batch);
    lemma_sorted_holds(t.known, target);
}

proof fn lemma_run_in_order<N: KademliaNet>(
    net: &N,
    target: u64,
    start: Seq<u64>,
    s: LookupState,
    rounds: nat,
)
    requires
        in_order(net, target, start, s),
    ensures
        in_order(net, target, start, run(net, target, s, rounds).0),
        rounds < 32 && run(net, target, s, rounds).1 < 32 ==> is_settled(
            run(net, target, s, rounds).0.known,
            run(net, target, s, rounds).0.queried,
        ),
    decreases MAX_ROUNDS - rounds,
{
    if rounds < MAX_ROUNDS && !is_settled(s.known, s.queried) {
        lemma_round_in_order(net, target, start, s);
        lemma_run_in_order(net, target, start, after_round(net, target, s), rounds + 1);
    }
}

/// A lookup queries each id once, only ids that it knows, and hears from
/// exactly those that answer. It knows all that its start knew and all that it
/// was told, and unless it ran out of rounds it stops only when the twenty
/// nearest ids that it knows are all queried.
pub proof fn law_lookup_asks_the_nearest<N: KademliaNet>(net: &N, from: u64, target: u64)
    requires
        net.nearest(from, target, 20).no_duplicates(),
    ensures
        ({
            let (end, rounds) = run(net, target, start_state(net, from, target), 0);
            &&& end.queried.no_duplicates()
            &&& end.requests == end.queried.len()
            &&& end.responses == end.repliers.len()
            &&& forall|id: u64| #[trigger]
                end.repliers.contains(id) <==> end.queried.contains(id) && net.answers(id)
            &&& forall|id: u64| #[trigger] end.queried.contains(id) ==> end.known.contains(id)
            &&& forall|id: u64| #[trigger]
                net.nearest(from, target, 20).contains(id) ==> end.known.contains(id)
            &&& forall|r: u64, c: u64|
                end.repliers.contains(r) && #[trigger] net.nearest(r, target, 20).contains(c)
                    ==> end.known.contains(c)
            &&& rounds < 32 ==> forall|i: int|
                0 <= i < end.known.len() && i < 20 ==> end.queried.contains(#[trigger] end.known[i])
        }),
{
    let s = start_state(net, from, target);
    let start = net.nearest(from, target, 20);
    assert(in_order(net, target, start, s));
    lemma_run_in_order(net, target, start, s, 0);
}

/// Asking a batch notes each of its nodes, in order.
proof fn lemma_all_asked<N: KademliaNet>(net: &N, target: u64, s: LookupState, batch: Seq<u64>)
    ensures
        all_asked(net, target, s, batch).queried == s.queried + batch,
        all_asked(net, target, s, batch).requests == s.requests + batch.len(),
    decreases batch.len(),
{
    if batch.len() > 0 {
        lemma_all_asked(net, target, s, batch.drop_last());
        assert(s.queried + batch =~= (s.queried + batch.drop_last()).push(batch.last()));
    } else {
        assert(s.queried + batch =~= s.queried);
    }
}

/// A round asks the first three known nodes that were not asked before, or
/// as many as there are, and then orders what is known by distance.
pub proof fn law_rounds_ask_three<N: KademliaNet>(net: &N, target: u64, s: LookupState)
    ensures
        ({
            let t = after_round(net, target, s);
            let left = unqueried(s.known, s.queried);
            let n: int = if left.len() < 3 {
                left.len() as int
            } else {
                3
            };
            &&& t.requests == s.requests + n
            &&& t.queried == s.queried + left.take(n)
            &&& forall|i: int, j: int|
                0 <= i <= j < t.known.len() ==> (target ^ #[trigger] t.known[i]) <= (target
                    ^ #[trigger] t.known[j])
        }),
{
    let left = unqueried(s.known, s.queried);
    let batch = first_ids(left, 3);
    lemma_all_asked(net, target, s, batch);
    if left.len() < 3 {
        assert(left.take(left.len() as int) =~= left);
    }
    let known = all_asked(net, target, s, batch).known;
    lemma_by_distance(known, target);
    let t = after_round(net, target, s);
    assert forall|i: int, j: int| 0 <= i <= j < t.known.len() implies (target
        ^ #[trigger] t.known[i]) <= (target ^ #[trigger] t.known[j]) by {
        if i < j {
            assert(nearer(target)(t.known[i], t.known[j]));
        }
    }
}

/// A node that is asked either answers, and then what it names is known too,
/// each id once, or does not, and then nothing is learned.
pub proof fn law_answers_are_learned<N: KademliaNet>(
    net: &N,
    target: u64,
    s: LookupState,
    id: u64,
    x: u64,
)
    requires
        s.known.no_duplicates(),
    ensures
        ({
            let t = asked(net, target, s, id);
            &&& t.queried == s.queried.push(id)
            &&& t.requests == s.requests + 1
            &&& t.known.no_duplicates()
            &&& net.answers(id) ==> t.repliers == s.repliers.push(id) && t.responses == s.responses
                + 1 && (t.known.contains(x) <==> s.known.contains(x) || net.nearest(
                id,
                target,
                20,
            ).contains(x))
            &&& !net.answers(id) ==> t.known == s.known && t.repliers == s.repliers && t.responses
                == s.responses
        }),
{
    lemma_merged_holds(s.known, net.nearest(id, target, 20), x);
}

/// What is known after a reply is what was known and what was named.
proof fn lemma_merged_holds(known: Seq<u64>, reply: Seq<u64>, x: u64)
    requires
        known.no_duplicates(),
    ensures
        merged(known, reply).no_duplicates(),
        merged(known, reply).contains(x) <==> known.contains(x) || reply.contains(x),
    decreases reply.len(),
{
    if reply.len() > 0 {
        let front = reply.drop_last();
        lemma_merged_holds(known, front, x);
        lemma_merged_holds(known, front, reply.last());
        let before = merged(known, front);
        let after = merged(known, reply);
        if before.contains(x) {
            let p = before.index_of(x);
            assert(after[p] == x);
        }
        if reply.contains(x) && x != reply.last() {
            let p = reply.index_of(x);
            assert(front[p] == x);
        }
        if x == reply.last() && !before.contains(x) {
            assert(after.last() == x);
        }
        if after.contains(x) && !before.contains(x) {
            let p = after.index_of(x);
            if p < before.len() {
                assert(before[p] == x);
            }
            assert(x == reply.last());
        }
        if reply.len() > 0 {
            assert(reply.contains(reply.last()));
        }
        if front.contains(x) {
            let p = front.index_of(x);
            assert(reply[p] == x);
        }
    }
}

/// A lookup reports the nearest of the nodes that replied, in the order of
/// their distance: as many as a bucket holds, or all of them.
pub proof fn law_lookups_report_who_replied<N: KademliaNet>(
    net: &N,
    from: u64,
    target: u64,
    out: Lookup,
    x: u64,
)
    requires
        found(net, from, target, out),
        net.nearest(from, target, 20).no_duplicates(),
    ensures
        out.contacted@.len() == if out.responses < 20 {
            out.responses as nat
        } else {
            20
        },
        forall|i: int| 0 <= i < out.contacted@.len() ==> net.answers(#[trigger] out.contacted@[i]),
        forall|i: int, j: int|
            0 <= i <= j < out.contacted@.len() ==> (target ^ #[trigger] out.contacted@[i]) <= (
            target ^ #[trigger] out.contacted@[j]),
        ({
            let (end, _) = run(net, target, start_state(net, from, target), 0);
            end.repliers.contains(x) ==> out.contacted@.contains(x) || forall|i: int|
                0 <= i < out.contacted@.len() ==> (target ^ #[trigger] out.contacted@[i]) <= (
                target ^ x)
        }),
{
    law_lookup_asks_the_nearest(net, from, target);
    law_lookup_counts_its_replies(net, from, target);
    let (end, _) = run(net, target, start_state(net, from, target), 0);
    let sorted = by_distance(end.repliers, target);
    lemma_by_distance(end.repliers, target);
    assert forall|i: int| 0 <= i < out.contacted@.len() implies net.answers(
        #[trigger] out.contacted@[i],
    ) by {
        assert(sorted.contains(sorted[i]));
        assert(end.repliers.contains(sorted[i]));
    }
    assert forall|i: int, j: int| 0 <= i <= j < out.contacted@.len() implies (target
        ^ #[trigger] out.contacted@[i]) <= (target ^ #[trigger] out.contacted@[j]) by {
        if i < j {
            assert(nearer(target)(sorted[i], sorted[j]));
        }
    }
    if end.repliers.contains(x) && !out.contacted@.contains(x) {
        assert(sorted.contains(x));
        let p = sorted.index_of(x);
        assert forall|i: int| 0 <= i < out.contacted@.len() implies (target
            ^ #[trigger] out.contacted@[i]) <= (target ^ x) by {
            if p < out.contacted@.len() {
                assert(out.contacted@[p] == x);
            }
            assert(nearer(target)(sorted[i], sorted[p]));
        }
    }
}

} // verus!
