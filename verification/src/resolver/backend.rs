//! Transports for signed records.
//!
//! A backend moves records between nodes. It never validates, merges or
//! decides; what it returns is verified before anything is done with it.

use crate::identity::{ResourceRecord, SignedRecord, SignedView};
use crate::protocol::{is_valid_site, request_line, valid_site, TargetView, VERSION};
use crate::text::{dec_chars, decimal};
use vstd::prelude::*;
use vstd::string::*;

verus! {

/// Why a backend failed.
#[derive(Debug, Clone, PartialEq, Eq)]
pub enum BackendError {
    /// It could not be reached in time.
    Unreachable(String),
    /// Its answer could not be read.
    Malformed,
    /// It refused.
    Refused(String),
}

/// The mathematical value of a [`BackendError`].
pub enum BackendErrorView {
    Unreachable(Seq<char>),
    Malformed,
    Refused(Seq<char>),
}

impl View for BackendError {
    type V = BackendErrorView;

    open spec fn view(&self) -> BackendErrorView {
        match self {
            BackendError::Unreachable(s) => BackendErrorView::Unreachable(s@),
            BackendError::Malformed => BackendErrorView::Malformed,
            BackendError::Refused(s) => BackendErrorView::Refused(s@),
        }
    }
}

/// The values of signed records.
pub open spec fn signed_views(s: Seq<SignedRecord>) -> Seq<SignedView> {
    Seq::new(s.len(), |i: int| s[i]@)
}

/// A copy of a signed record.
pub fn copy_signed(s: &SignedRecord) -> (out: SignedRecord)
    ensures
        out@ == s@,
{
    SignedRecord {
        record: ResourceRecord {
            site: s.record.site.clone(),
            path: s.record.path.clone(),
            content_hash: s.record.content_hash.clone(),
            expires_at_unix: s.record.expires_at_unix,
        },
        signature_hex: s.signature_hex.clone(),
    }
}

/// A transport for signed records.
pub trait Backend {
    /// The records that the backend holds for a name.
    spec fn held(&self, name: Seq<char>) -> Seq<SignedView>;

    /// Name for logs and policy.
    fn name(&self) -> (out: &'static str);

    /// The records for a name. None is no error.
    fn fetch(&self, name: &str) -> (out: Vec<SignedRecord>)
        ensures
            signed_views(out@) == self.held(name@),
    ;

    /// Gives the backend a valid record to spread.
    fn advertise(&mut self, record: &SignedRecord) -> (out: Result<(), BackendError>);
}

/// The path under which the records of a name stand.
pub open spec fn namespace(name: Seq<char>) -> Seq<char> {
    seq!['@'] + name
}

/// The records with a path, in their order.
pub open spec fn with_path(records: Seq<SignedView>, path: Seq<char>) -> Seq<SignedView>
    decreases records.len(),
{
    if records.len() == 0 {
        Seq::empty()
    } else if records.last().record.path == path {
        with_path(records.drop_last(), path).push(records.last())
    } else {
        with_path(records.drop_last(), path)
    }
}

/// A backend that serves what was advertised to it.
#[derive(Debug)]
pub struct MemoryBackend {
    records: Vec<SignedRecord>,
}

impl View for MemoryBackend {
    type V = Seq<SignedView>;

    /// The records, oldest first.
    closed spec fn view(&self) -> Seq<SignedView> {
        signed_views(self.records@)
    }
}

impl Default for MemoryBackend {
    fn default() -> (b: Self)
        ensures
            b@ == Seq::<SignedView>::empty(),
    {
        Self::new()
    }
}

impl MemoryBackend {
    /// A backend without records.
    pub fn new() -> (b: Self)
        ensures
            b@ == Seq::<SignedView>::empty(),
    {
        let b = MemoryBackend { records: Vec::new() };
        assert(b@ =~= Seq::empty());
        b
    }

    /// Number of records.
    pub fn len(&self) -> (n: usize)
        ensures
            n == self@.len(),
    {
        self.records.len()
    }

    /// Whether there is no record.
    pub fn is_empty(&self) -> (empty: bool)
        ensures
            empty == (self@.len() == 0),
    {
        self.records.len() == 0
    }
}

impl Backend for MemoryBackend {
    closed spec fn held(&self, name: Seq<char>) -> Seq<SignedView> {
        with_path(self@, namespace(name))
    }

    fn name(&self) -> (out: &'static str)
        ensures
            out@ == "memory"@,
    {
        "memory"
    }

    fn fetch(&self, name: &str) -> (out: Vec<SignedRecord>)
        ensures
            signed_views(out@) == with_path(self@, namespace(name@)),
    {
        let mut path = String::new();
        path.push('@');
        path.append(name);
        assert(path@ =~= namespace(name@));
        let ghost all = signed_views(self.records@);
        let mut out: Vec<SignedRecord> = Vec::new();
        let mut i: usize = 0;
        assert(all.take(0) =~= Seq::empty());
        assert(signed_views(out@) =~= Seq::empty());
        while i < self.records.len()
            invariant
                i <= self.records@.len(),
                path@ == namespace(name@),
                all == signed_views(self.records@),
                signed_views(out@) == with_path(all.take(i as int), path@),
            decreases self.records@.len() - i,
        {
            proof {
                assert(all.take(i + 1).drop_last() =~= all.take(i as int));
                assert(all.take(i + 1).last() == self.records@[i as int]@);
            }
            if self.records[i].record.path == path {
                let ghost before = signed_views(out@);
                let copy = copy_signed(&self.records[i]);
                out.push(copy);
                assert(signed_views(out@) =~= before.push(copy@));
            }
            i = i + 1;
        }
        assert(all.take(i as int) =~= all);
        out
    }

    fn advertise(&mut self, record: &SignedRecord) -> (out: Result<(), BackendError>)
        ensures
            out is Ok,
            final(self)@ == old(self)@.push(record@),
    {
        self.records.push(copy_signed(record));
        assert(self@ =~= old(self)@.push(record@));
        Ok(())
    }
}

/// A backend for ambient sync among peers; it exchanges nothing yet.
#[derive(Debug)]
pub struct GossipBackend {
    /// Peers to sync with.
    pub peers: Vec<String>,
}

impl Backend for GossipBackend {
    open spec fn held(&self, name: Seq<char>) -> Seq<SignedView> {
        Seq::empty()
    }

    fn name(&self) -> (out: &'static str)
        ensures
            out@ == "gossip"@,
    {
        "gossip"
    }

    fn fetch(&self, name: &str) -> (out: Vec<SignedRecord>) {
        let out: Vec<SignedRecord> = Vec::new();
        assert(signed_views(out@) =~= Seq::empty());
        out
    }

    fn advertise(&mut self, record: &SignedRecord) -> (out: Result<(), BackendError>)
        ensures
            out is Ok,
            *final(self) == *old(self),
    {
        Ok(())
    }
}

/// A backend for global discovery; it looks nothing up yet.
#[derive(Debug)]
pub struct DhtBackend {
    /// Addresses to start from.
    pub bootstrap: Vec<String>,
}

impl DhtBackend {
    /// A backend that starts from the given addresses.
    pub fn new(bootstrap: Vec<String>) -> (b: Self)
        ensures
            b.bootstrap == bootstrap,
    {
        DhtBackend { bootstrap }
    }
}

impl Backend for DhtBackend {
    open spec fn held(&self, name: Seq<char>) -> Seq<SignedView> {
        Seq::empty()
    }

    fn name(&self) -> (out: &'static str)
        ensures
            out@ == "dht"@,
    {
        "dht"
    }

    fn fetch(&self, name: &str) -> (out: Vec<SignedRecord>) {
        let out: Vec<SignedRecord> = Vec::new();
        assert(signed_views(out@) =~= Seq::empty());
        out
    }

    fn advertise(&mut self, record: &SignedRecord) -> (out: Result<(), BackendError>)
        ensures
            out is Ok,
            *final(self) == *old(self),
    {
        Ok(())
    }
}

/// The records that backends hold for a name, one backend after the other.
pub open spec fn all_held<B: Backend>(backends: Seq<B>, name: Seq<char>) -> Seq<SignedView>
    decreases backends.len(),
{
    if backends.len() == 0 {
        Seq::empty()
    } else {
        all_held(backends.drop_last(), name) + backends.last().held(name)
    }
}

/// Asks backends in their order for the records of a name.
pub fn fetch_all<B: Backend>(backends: &Vec<B>, name: &str) -> (out: Vec<SignedRecord>)
    ensures
        signed_views(out@) == all_held(backends@, name@),
{
    let mut out: Vec<SignedRecord> = Vec::new();
    let mut i: usize = 0;
    assert(backends@.take(0) =~= Seq::empty());
    assert(signed_views(out@) =~= Seq::empty());
    while i < backends.len()
        invariant
            i <= backends@.len(),
            signed_views(out@) == all_held(backends@.take(i as int), name@),
        decreases backends@.len() - i,
    {
        assert(backends@.take(i + 1).drop_last() =~= backends@.take(i as int));
        let mut records = backends[i].fetch(name);
        let ghost before = signed_views(out@);
        let ghost more = signed_views(records@);
        out.append(&mut records);
        assert(signed_views(out@) =~= before + more);
        i = i + 1;
    }
    assert(backends@.take(i as int) =~= backends@);
    out
}

/// Counters of what the wire did; they say nothing of what was admitted.
#[derive(Debug, Clone, Copy, PartialEq, Eq, Structural)]
pub struct BackendStats {
    /// Requests sent.
    pub requests: u64,
    /// Records returned, before any check.
    pub records: u64,
    /// Failed exchanges.
    pub failures: u64,
    /// Status code of the last answer; zero is none.
    pub last_code: u16,
}

impl Default for BackendStats {
    fn default() -> (s: Self)
        ensures
            s == (BackendStats { requests: 0, records: 0, failures: 0, last_code: 0 }),
    {
        BackendStats { requests: 0, records: 0, failures: 0, last_code: 0 }
    }
}

/// What one request to a resolver came to.
#[derive(Debug)]
pub enum Exchange {
    /// The exchange failed on the way.
    Failed(String),
    /// The resolver answered with a status code; the records of the body,
    /// where it could be read.
    Answered(u16, Option<Vec<SignedRecord>>),
}

/// The mathematical value of an [`Exchange`].
pub enum ExchangeView {
    Failed(Seq<char>),
    Answered(u16, Option<Seq<SignedView>>),
}

impl View for Exchange {
    type V = ExchangeView;

    open spec fn view(&self) -> ExchangeView {
        match self {
            Exchange::Failed(s) => ExchangeView::Failed(s@),
            Exchange::Answered(code, records) => ExchangeView::Answered(
                *code,
                match records {
                    Some(r) => Some(signed_views(r@)),
                    None => None,
                },
            ),
        }
    }
}

/// What an exchange means: a code 200 carries records, a code 404 says that
/// there are none, any other code is a refusal.
pub open spec fn meaning(x: ExchangeView) -> Result<(u16, Seq<SignedView>), BackendErrorView> {
    match x {
        ExchangeView::Failed(s) => Err(BackendErrorView::Unreachable(s)),
        ExchangeView::Answered(code, records) => if code == 404 {
            Ok((404u16, Seq::empty()))
        } else if code != 200 {
            Err(BackendErrorView::Refused("server answered "@ + dec_chars(code as nat)))
        } else {
            match records {
                Some(r) => Ok((200u16, r)),
                None => Err(BackendErrorView::Malformed),
            }
        },
    }
}

/// What an exchange means.
pub fn interpret(x: Exchange) -> (out: Result<(u16, Vec<SignedRecord>), BackendError>)
    ensures
        match out {
            Ok(r) => meaning(x@) == Ok::<(u16, Seq<SignedView>), BackendErrorView>(
                (r.0, signed_views(r.1@)),
            ),
            Err(e) => meaning(x@) == Err::<(u16, Seq<SignedView>), BackendErrorView>(e@),
        },
{
    match x {
        Exchange::Failed(s) => Err(BackendError::Unreachable(s)),
        Exchange::Answered(code, records) => {
            if code == 404 {
                let none: Vec<SignedRecord> = Vec::new();
                assert(signed_views(none@) =~= Seq::empty());
                return Ok((404, none));
            }
            if code != 200 {
                return Err(
                    BackendError::Refused(
                        "server answered ".to_owned().concat(decimal(code as u64).as_str()),
                    ),
                );
            }
            match records {
                Some(r) => Ok((200, r)),
                None => Err(BackendError::Malformed),
            }
        },
    }
}

/// The counters after an exchange.
pub open spec fn counted(s: BackendStats, x: ExchangeView) -> BackendStats {
    match meaning(x) {
        Ok(r) => BackendStats {
            requests: (s.requests + 1) as u64,
            records: (s.records + r.1.len()) as u64,
            failures: s.failures,
            last_code: r.0,
        },
        Err(_) => BackendStats {
            requests: (s.requests + 1) as u64,
            failures: (s.failures + 1) as u64,
            ..s
        },
    }
}

/// The counters after exchanges.
pub open spec fn all_counted(s: BackendStats, xs: Seq<ExchangeView>) -> BackendStats
    decreases xs.len(),
{
    if xs.len() == 0 {
        s
    } else {
        counted(all_counted(s, xs.drop_last()), xs.last())
    }
}

/// The records that an exchange brought.
pub open spec fn brought(x: ExchangeView) -> Seq<SignedView> {
    match meaning(x) {
        Ok(r) => r.1,
        Err(_) => Seq::empty(),
    }
}

/// The records that exchanges brought, in their order.
pub open spec fn all_brought(xs: Seq<ExchangeView>) -> Seq<SignedView>
    decreases xs.len(),
{
    if xs.len() == 0 {
        Seq::empty()
    } else {
        all_brought(xs.drop_last()) + brought(xs.last())
    }
}

/// The values of exchanges.
pub open spec fn exchanges_view(xs: Seq<Exchange>) -> Seq<ExchangeView> {
    Seq::new(xs.len(), |i: int| xs[i]@)
}

/// The federated resolver backend: one request to each endpoint, and all
/// their answers together.
#[derive(Debug)]
pub struct FederatedBackend {
    /// Resolver endpoints, asked in order.
    pub endpoints: Vec<String>,
    /// Counters of what the wire did.
    pub stats: BackendStats,
}

impl View for FederatedBackend {
    type V = BackendStats;

    /// The counters.
    open spec fn view(&self) -> BackendStats {
        self.stats
    }
}

impl FederatedBackend {
    /// A backend over resolver endpoints, with nothing counted.
    pub fn new(endpoints: Vec<String>) -> (b: Self)
        ensures
            b.endpoints == endpoints,
            b@ == (BackendStats { requests: 0, records: 0, failures: 0, last_code: 0 }),
    {
        FederatedBackend {
            endpoints,
            stats: BackendStats { requests: 0, records: 0, failures: 0, last_code: 0 },
        }
    }

    /// The counters.
    pub fn stats(&self) -> (s: BackendStats)
        ensures
            s == self@,
    {
        self.stats
    }

    /// Name for logs and policy.
    pub fn name(&self) -> (out: &'static str)
        ensures
            out@ == "federated"@,
    {
        "federated"
    }

    /// The line to send to each endpoint for a name; none for an invalid
    /// name, which never reaches the wire.
    pub fn query_line(&self, name: &str) -> (out: Option<String>)
        ensures
            match out {
                Some(line) => valid_site(name@) && line@ == request_line(
                    "RECORDS"@,
                    TargetView { site: name@, path: namespace(name@) },
                ),
                None => !valid_site(name@),
            },
    {
        if !is_valid_site(name) {
            return None;
        }
        let mut line = VERSION.to_owned();
        line.append(" RECORDS ");
        line.append(name);
        line.append(" @");
        line.append(name);
        line.push('\n');
        proof {
            reveal_strlit(" RECORDS ");
            reveal_strlit("RECORDS");
            reveal_strlit(" @");
            assert(line@ =~= request_line(
                "RECORDS"@,
                TargetView { site: name@, path: namespace(name@) },
            ));
        }
        Some(line)
    }

    /// The records that the exchanges with the endpoints brought, in their
    /// order. A failed exchange is counted and brings nothing.
    pub fn fetch(&mut self, exchanges: Vec<Exchange>) -> (out: Vec<SignedRecord>)
        requires
            old(self)@.requests + exchanges@.len() <= u64::MAX,
            old(self)@.failures + exchanges@.len() <= u64::MAX,
            old(self)@.records + all_brought(exchanges_view(exchanges@)).len() <= u64::MAX,
        ensures
            signed_views(out@) == all_brought(exchanges_view(exchanges@)),
            final(self)@ == all_counted(old(self)@, exchanges_view(exchanges@)),
            final(self).endpoints == old(self).endpoints,
    {
        let ghost all = exchanges_view(exchanges@);
        let ghost start = self@;
        let ghost n = exchanges@.len() as int;
        let mut left: Vec<Exchange> = exchanges;
        let mut out: Vec<SignedRecord> = Vec::new();
        let ghost mut done: int = 0;
        proof {
            assert(all.take(0) =~= Seq::empty());
            assert(all.skip(0) =~= all);
            assert(signed_views(out@) =~= Seq::empty());
        }
        while left.len() > 0
            invariant
                0 <= done <= n,
                n == all.len(),
                exchanges_view(left@) == all.skip(done),
                signed_views(out@) == all_brought(all.take(done)),
                self@ == all_counted(start, all.take(done)),
                self@.requests == start.requests + done,
                self@.failures <= start.failures + done,
                self@.records == start.records + all_brought(all.take(done)).len(),
                start.requests + n <= u64::MAX,
                start.failures + n <= u64::MAX,
                start.records + all_brought(all).len() <= u64::MAX,
                self.endpoints == old(self).endpoints,
            decreases left@.len(),
        {
            proof {
                assert(exchanges_view(left@).len() == left@.len());
                assert(exchanges_view(left@)[0] == left@[0]@);
                assert(all.skip(done)[0] == all[done]);
                assert(all.skip(done).skip(1) =~= all.skip(done + 1));
                assert(all.take(done + 1).drop_last() =~= all.take(done));
                assert(all.take(done + 1).last() == all[done]);
                lemma_brought_prefix(all, done + 1);
            }
            let x = left.remove(0);
            assert(exchanges_view(left@) =~= all.skip(done).skip(1));
            match interpret(x) {
                Ok(r) => {
                    let (code, mut records) = r;
                    self.stats = BackendStats {
                        requests: self.stats.requests + 1,
                        records: self.stats.records + records.len() as u64,
                        failures: self.stats.failures,
                        last_code: code,
                    };
                    let ghost a = signed_views(out@);
                    let ghost b = signed_views(records@);
                    out.append(&mut records);
                    assert(signed_views(out@) =~= a + b);
                },
                Err(_) => {
                    self.stats = BackendStats {
                        requests: self.stats.requests + 1,
                        records: self.stats.records,
                        failures: self.stats.failures + 1,
                        last_code: self.stats.last_code,
                    };
                    assert(all_brought(all.take(done)) + Seq::<SignedView>::empty() =~= all_brought(
                        all.take(done),
                    ));
                },
            }
            proof {
                done = done + 1;
            }
        }
        assert(exchanges_view(left@).len() == 0);
        assert(all.take(done) =~= all);
        out
    }
}

proof fn lemma_brought_prefix(xs: Seq<ExchangeView>, n: int)
    requires
        0 <= n <= xs.len(),
    ensures
        all_brought(xs.take(n)).len() <= all_brought(xs).len(),
    decreases xs.len() - n,
{
    if n == xs.len() {
        assert(xs.take(n) =~= xs);
    } else {
        lemma_brought_prefix(xs, n + 1);
        assert(xs.take(n + 1).drop_last() =~= xs.take(n));
    }
}

/// What was advertised under a name is served under it, and under no other.
pub proof fn law_advertised_records_are_served(
    records: Seq<SignedView>,
    record: SignedView,
    name: Seq<char>,
)
    ensures
        record.record.path == namespace(name) ==> with_path(
            records.push(record),
            namespace(name),
        ) == with_path(records, namespace(name)).push(record),
        record.record.path != namespace(name) ==> with_path(
            records.push(record),
            namespace(name),
        ) == with_path(records, namespace(name)),
{
    assert(records.push(record).drop_last() =~= records);
}

/// Each endpoint is asked once, and each failure counted: requests are
/// answers and failures together.
pub proof fn law_every_exchange_is_counted(s: BackendStats, xs: Seq<ExchangeView>)
    requires
        s.requests + xs.len() <= u64::MAX,
        s.failures + xs.len() <= u64::MAX,
    ensures
        all_counted(s, xs).requests == s.requests + xs.len(),
        s.failures <= all_counted(s, xs).failures <= s.failures + xs.len(),
    decreases xs.len(),
{
    if xs.len() > 0 {
        law_every_exchange_is_counted(s, xs.drop_last());
    }
}

/// What an exchange with a resolver means: records only where it answered 200
/// with some that could be read, none where it answered 404; all else failed.
pub proof fn law_exchanges(x: ExchangeView)
    ensures
        meaning(x) matches Ok(r) ==> match x {
            ExchangeView::Answered(code, records) => r.0 == code && (code == 404 && r.1.len() == 0
                || code == 200 && records == Some(r.1)),
            ExchangeView::Failed(_) => false,
        },
        meaning(x) matches Err(e) ==> match x {
            ExchangeView::Failed(s) => e == BackendErrorView::Unreachable(s),
            ExchangeView::Answered(code, records) => if code == 200 {
                records is None && e is Malformed
            } else {
                code != 404 && e is Refused
            },
        },
{
}

/// What exchanges bring is what each of them brings, in their order, and their
/// counters add up: one request each, one failure for each that failed, and
/// one record for each that came.
pub proof fn law_exchanges_add_up(s: BackendStats, xs: Seq<ExchangeView>, x: ExchangeView)
    requires
        s.requests + xs.len() < u64::MAX,
        s.failures + xs.len() < u64::MAX,
        s.records + all_brought(xs.push(x)).len() <= u64::MAX,
    ensures
        all_brought(Seq::empty()) == Seq::<SignedView>::empty(),
        all_brought(xs.push(x)) == all_brought(xs) + match meaning(x) {
            Ok(r) => r.1,
            Err(_) => Seq::<SignedView>::empty(),
        },
        all_counted(s, Seq::empty()) == s,
        all_counted(s, xs.push(x)).requests == all_counted(s, xs).requests + 1,
        all_counted(s, xs.push(x)).failures == all_counted(s, xs).failures + if meaning(
            x,
        ) is Err {
            1int
        } else {
            0int
        },
        all_counted(s, xs.push(x)).records == s.records + all_brought(xs.push(x)).len(),
        all_counted(s, xs.push(x)).last_code == match meaning(x) {
            Ok(r) => r.0,
            Err(_) => all_counted(s, xs).last_code,
        },
{
    let all = xs.push(x);
    assert(all.drop_last() =~= xs);
    law_every_exchange_is_counted(s, xs);
    lemma_records_counted(s, xs);
}

proof fn lemma_records_counted(s: BackendStats, xs: Seq<ExchangeView>)
    requires
        s.records + all_brought(xs).len() <= u64::MAX,
    ensures
        all_counted(s, xs).records == s.records + all_brought(xs).len(),
    decreases xs.len(),
{
    if xs.len() > 0 {
        lemma_records_counted(s, xs.drop_last());
    }
}

/// A backend serves a record under a name exactly where it holds one with the
/// path of the name.
pub proof fn law_records_are_served_by_path(
    records: Seq<SignedView>,
    name: Seq<char>,
    r: SignedView,
)
    ensures
        with_path(records, namespace(name)).contains(r) <==> records.contains(r) && r.record.path
            == "@"@ + name,
    decreases records.len(),
{
    reveal_strlit("@");
    assert("@"@ =~= seq!['@']);
    if records.len() > 0 {
        let front = records.drop_last();
        law_records_are_served_by_path(front, name, r);
        let before = with_path(front, namespace(name));
        let all = with_path(records, namespace(name));
        assert(records[records.len() - 1] == records.last());
        if records.contains(r) {
            let i = records.index_of(r);
            if i < front.len() {
                assert(front[i] == r);
            }
        }
        if front.contains(r) {
            assert(records[front.index_of(r)] == r);
        }
        if records.last().record.path == namespace(name) {
            assert(all[all.len() - 1] == records.last());
            if before.contains(r) {
                assert(all[before.index_of(r)] == r);
            }
            if all.contains(r) {
                let i = all.index_of(r);
                if i < before.len() {
                    assert(before[i] == r);
                }
            }
        }
    }
}

/// Several backends hold what each of them holds, one after the other.
pub proof fn law_backends_are_asked_in_turn<B: Backend>(
    backends: Seq<B>,
    b: B,
    name: Seq<char>,
)
    ensures
        all_held(Seq::<B>::empty(), name) == Seq::<SignedView>::empty(),
        all_held(backends.push(b), name) == all_held(backends, name) + b.held(name),
{
    assert(backends.push(b).drop_last() =~= backends);
}

/// What a backend answered is told apart by its status: records or none, a
/// refusal that names the status, and an answer that cannot be read.
pub proof fn law_what_answers_mean(code: u16, records: Seq<SignedView>, why: Seq<char>)
    ensures
        meaning(ExchangeView::Answered(200, Some(records))) == Ok::<
            (u16, Seq<SignedView>),
            BackendErrorView,
        >((200u16, records)),
        meaning(ExchangeView::Answered(200, None)) == Err::<
            (u16, Seq<SignedView>),
            BackendErrorView,
        >(BackendErrorView::Malformed),
        meaning(ExchangeView::Answered(404, Some(records))) == Ok::<
            (u16, Seq<SignedView>),
            BackendErrorView,
        >((404u16, Seq::empty())),
        code != 200 && code != 404 ==> meaning(ExchangeView::Answered(code, Some(records)))
            == Err::<(u16, Seq<SignedView>), BackendErrorView>(
            BackendErrorView::Refused("server answered "@ + dec_chars(code as nat)),
        ),
        meaning(ExchangeView::Failed(why)) == Err::<(u16, Seq<SignedView>), BackendErrorView>(
            BackendErrorView::Unreachable(why),
        ),
{
}

} // verus!
