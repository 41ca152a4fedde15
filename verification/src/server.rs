//! The origin server: what it holds, and what it answers.
//!
//! The store holds the pages of sites with the signed records that vouch for
//! them. A connection carries one request line and gets one response.

pub mod load;

use crate::content::texts;
use crate::digest::{content_id, content_id_of};
use crate::hex_text::hex_chars;
use crate::identity::{
    record_fault, signed_with, IdentityErrorView, RecordView, SignedRecord, SignedView,
    SiteIdentity,
};
use crate::json::{holds_texts, json_of_texts, texts_to_json};
use crate::protocol::{
    encode_response, encoded_conditional, encoded_response, is_valid_site,
    law_conditional_round_trip, law_response_round_trip, law_verbs_do_not_cross_parse, outcome,
    parse_conditional_request, parse_list_request, parse_records_request, parsed_conditional,
    parsed_list, parsed_records, parsed_response, valid_site, ConditionalView, HeaderView,
    ProtocolError, ProtocolErrorView, TargetView, MAX_BODY,
};
use crate::resolver::resolve::term_end;
use crate::table::{
    lemma_sorted_is_unique, lemma_text_lt_irreflexive, lemma_text_lt_transitive, strictly_sorted,
    text_lt, PairMap, TextMap,
};
use crate::text::same_text;
use crate::transport::{TransportError, TransportErrorView};
use vstd::prelude::*;
use vstd::slice::slice_to_vec;
use vstd::string::*;
use vstd::utf8::*;

verus! {

/// Most connections at a time, unless set otherwise.
pub const DEFAULT_MAX_CONNECTIONS: usize = 64;

/// Most seconds for a read of a connection, unless set otherwise.
pub const DEFAULT_READ_TIMEOUT: u64 = 10;

/// Most seconds for a write of a connection, unless set otherwise.
pub const DEFAULT_WRITE_TIMEOUT: u64 = 10;

/// How the server runs; times are in seconds.
#[derive(Debug, Clone, Copy, PartialEq, Eq, Structural)]
pub struct ServerConfig {
    /// Most connections at a time.
    pub max_connections: usize,
    pub read_timeout: u64,
    pub write_timeout: u64,
    /// How often the pages are signed again; never without it.
    pub resign_interval: Option<u64>,
}

impl Default for ServerConfig {
    fn default() -> (c: Self)
        ensures
            c == (ServerConfig {
                max_connections: DEFAULT_MAX_CONNECTIONS,
                read_timeout: DEFAULT_READ_TIMEOUT,
                write_timeout: DEFAULT_WRITE_TIMEOUT,
                resign_interval: None,
            }),
    {
        ServerConfig {
            max_connections: DEFAULT_MAX_CONNECTIONS,
            read_timeout: DEFAULT_READ_TIMEOUT,
            write_timeout: DEFAULT_WRITE_TIMEOUT,
            resign_interval: None,
        }
    }
}

/// Why the server fails.
#[derive(Debug, Clone, PartialEq, Eq)]
pub enum ServerError {
    /// A connection failed, or its framing is wrong.
    Transport(TransportError),
    /// A response cannot be written.
    Protocol(ProtocolError),
    /// A file or a socket failed.
    Io(String),
    /// A site or a page of it is invalid.
    Content(String),
}

/// The mathematical value of a [`ServerError`].
pub enum ServerErrorView {
    Transport(TransportErrorView),
    Protocol(ProtocolErrorView),
    Io(Seq<char>),
    Content(Seq<char>),
}

impl View for ServerError {
    type V = ServerErrorView;

    open spec fn view(&self) -> ServerErrorView {
        match self {
            ServerError::Transport(e) => ServerErrorView::Transport(e@),
            ServerError::Protocol(e) => ServerErrorView::Protocol(e@),
            ServerError::Io(s) => ServerErrorView::Io(s@),
            ServerError::Content(s) => ServerErrorView::Content(s@),
        }
    }
}

/// What a [`ServerError`] says to a reader.
pub open spec fn error_text(e: ServerErrorView) -> Seq<char> {
    match e {
        ServerErrorView::Transport(t) => "transport: "@ + crate::transport::error_text(t),
        ServerErrorView::Protocol(p) => "protocol: "@ + crate::protocol::error_text(p),
        ServerErrorView::Io(s) => "io: "@ + s,
        ServerErrorView::Content(s) => "content: "@ + s,
    }
}

impl ServerError {
    /// What the error says to a reader.
    pub fn to_string(&self) -> (out: String)
        ensures
            out@ == error_text(self@),
    {
        match self {
            ServerError::Transport(e) => "transport: ".to_owned().concat(e.to_string().as_str()),
            ServerError::Protocol(e) => "protocol: ".to_owned().concat(e.to_string().as_str()),
            ServerError::Io(s) => "io: ".to_owned().concat(s.as_str()),
            ServerError::Content(s) => "content: ".to_owned().concat(s.as_str()),
        }
    }
}

/// A page as it is stored: its bytes, and its content id, or why the bytes
/// are no page.
#[derive(Debug)]
pub struct StoredPage {
    pub bytes: Vec<u8>,
    pub id: Result<String, String>,
}

/// The mathematical value of a [`StoredPage`].
pub struct StoredView {
    pub bytes: Seq<u8>,
    pub id: Result<Seq<char>, Seq<char>>,
}

impl View for StoredPage {
    type V = StoredView;

    open spec fn view(&self) -> StoredView {
        StoredView {
            bytes: self.bytes@,
            id: match self.id {
                Ok(id) => Ok(id@),
                Err(e) => Err(e@),
            },
        }
    }
}

/// The stored form of a page: `canonical` is the canonical form of the page
/// that the bytes hold, or why they hold none.
pub open spec fn stored(bytes: Seq<u8>, canonical: Result<Seq<u8>, Seq<char>>) -> StoredView {
    StoredView {
        bytes,
        id: match canonical {
            Ok(c) => Ok(content_id(c)),
            Err(e) => Err(e),
        },
    }
}

/// The value of a canonical form.
pub open spec fn form_view(f: Result<Vec<u8>, String>) -> Result<Seq<u8>, Seq<char>> {
    match f {
        Ok(b) => Ok(b@),
        Err(e) => Err(e@),
    }
}

/// The identity that signs the pages, and how long a signature holds.
pub struct SignerState {
    pub identity: SiteIdentity,
    pub ttl_secs: u64,
}

/// What the server holds.
pub struct SiteStore {
    pages: PairMap<StoredPage>,
    records: PairMap<Vec<u8>>,
    endpoint_records: TextMap<Vec<u8>>,
    signer: Option<SignerState>,
}

/// The mathematical value of a [`SiteStore`].
pub struct SiteView {
    /// The pages by site and path.
    pub pages: Map<(Seq<char>, Seq<char>), StoredView>,
    /// The signed records of pages, by site and path.
    pub records: Map<(Seq<char>, Seq<char>), Seq<u8>>,
    /// The signed endpoint records by name.
    pub endpoints: Map<Seq<char>, Seq<u8>>,
    pub signer: Option<SignerState>,
}

impl View for SiteStore {
    type V = SiteView;

    closed spec fn view(&self) -> SiteView {
        SiteView {
            pages: self.pages@.map_values(|p: StoredPage| p@),
            records: self.records@.map_values(|b: Vec<u8>| b@),
            endpoints: self.endpoint_records@.map_values(|b: Vec<u8>| b@),
            signer: self.signer,
        }
    }
}

/// A server that holds nothing.
pub open spec fn empty_site() -> SiteView {
    SiteView {
        pages: Map::empty(),
        records: Map::empty(),
        endpoints: Map::empty(),
        signer: None,
    }
}

/// The paths of a site, in their order.
pub open spec fn is_listing(v: SiteView, site: Seq<char>, paths: Seq<Seq<char>>) -> bool {
    &&& strictly_sorted(paths)
    &&& forall|p: Seq<char>| #[trigger] paths.contains(p) <==> v.pages.dom().contains((site, p))
}

/// The paths of a site, in their order.
pub open spec fn listing(v: SiteView, site: Seq<char>) -> Seq<Seq<char>> {
    choose|paths: Seq<Seq<char>>| is_listing(v, site, paths)
}

/// Only one list is the listing of a site.
proof fn lemma_listing(v: SiteView, site: Seq<char>, paths: Seq<Seq<char>>)
    requires
        is_listing(v, site, paths),
    ensures
        listing(v, site) == paths,
{
    let other = listing(v, site);
    assert(is_listing(v, site, other));
    assert forall|p: Seq<char>| #[trigger] other.contains(p) <==> paths.contains(p) by {}
    lemma_sorted_is_unique(other, paths);
}

/// The endpoint name of a records path: `@` and the site name, where the
/// site is valid.
pub open spec fn endpoint_of(site: Seq<char>, path: Seq<char>) -> Option<Seq<char>> {
    if path.len() > 1 && path[0] == '@' && path.skip(1) == site && valid_site(site) {
        Some(site)
    } else {
        None
    }
}

/// The code and body of the response to a `FETCH` request: a page that the
/// client holds already is not sent again.
pub open spec fn fetch_answer(v: SiteView, c: ConditionalView) -> (nat, Seq<u8>) {
    let key = (c.target.site, c.target.path);
    if !v.pages.dom().contains(key) {
        (404, encode_utf8("not found"@))
    } else if c.if_id is Some && v.pages[key].id == Ok::<Seq<char>, Seq<char>>(c.if_id->0) {
        (304, Seq::empty())
    } else {
        (200, v.pages[key].bytes)
    }
}

/// The code and body of the response to a `RECORDS` request.
pub open spec fn records_answer(v: SiteView, t: TargetView) -> (nat, Seq<u8>) {
    let none = (404nat, encode_utf8("no records"@));
    match endpoint_of(t.site, t.path) {
        Some(name) => if v.endpoints.dom().contains(name) {
            (200, v.endpoints[name])
        } else {
            none
        },
        None => if v.records.dom().contains((t.site, t.path)) {
            (200, v.records[(t.site, t.path)])
        } else {
            none
        },
    }
}

/// The code and body of the response to a `LIST` request.
pub open spec fn list_answer(v: SiteView, site: Seq<char>) -> (nat, Seq<u8>) {
    if listing(v, site).len() == 0 {
        (404, encode_utf8("unknown site"@))
    } else {
        (200, json_of_texts(listing(v, site)))
    }
}

/// The code and body of the response to a request line.
pub open spec fn answer(v: SiteView, line: Seq<char>) -> (nat, Seq<u8>) {
    let bad = (400nat, encode_utf8("bad request"@));
    match parsed_conditional(line) {
        Ok(c) => fetch_answer(v, c),
        Err(ProtocolErrorView::BadVerb(_)) => match parsed_records(line) {
            Ok(t) => records_answer(v, t),
            Err(ProtocolErrorView::BadVerb(_)) => match parsed_list(line) {
                Ok(site) => list_answer(v, site),
                Err(_) => bad,
            },
            Err(_) => bad,
        },
        Err(_) => bad,
    }
}

/// The bytes of the response to a request line.
pub open spec fn answered(v: SiteView, line: Seq<char>) -> Result<Seq<u8>, ServerErrorView> {
    let (code, body) = answer(v, line);
    match encoded_response(code, body) {
        Ok(bytes) => Ok(bytes),
        Err(e) => Err(ServerErrorView::Protocol(e)),
    }
}

impl Default for SiteStore {
    fn default() -> (s: Self)
        ensures
            s@ == empty_site(),
    {
        Self::new()
    }
}

impl SiteStore {
    /// A store that holds nothing.
    pub fn new() -> (s: Self)
        ensures
            s@ == empty_site(),
    {
        let s = SiteStore {
            pages: PairMap::new(),
            records: PairMap::new(),
            endpoint_records: TextMap::new(),
            signer: None,
        };
        assert(s@.pages =~= empty_site().pages);
        assert(s@.records =~= empty_site().records);
        assert(s@.endpoints =~= empty_site().endpoints);
        s
    }

    /// Stores the bytes of a page; nothing is checked. `canonical` is the
    /// canonical form of the page that they hold, or why they hold none.
    pub fn insert(
        &mut self,
        site: &str,
        path: &str,
        page_json: Vec<u8>,
        canonical: Result<Vec<u8>, String>,
    )
        ensures
            final(self)@ == (SiteView {
                pages: old(self)@.pages.insert(
                    (site@, path@),
                    stored(page_json@, form_view(canonical)),
                ),
                ..old(self)@
            }),
    {
        let ghost after = stored(page_json@, form_view(canonical));
        let id = match canonical {
            Ok(c) => Ok(content_id_of(c.as_slice())),
            Err(e) => Err(e),
        };
        self.pages.insert(site.to_owned(), path.to_owned(), StoredPage { bytes: page_json, id });
        assert(self@.pages =~= old(self)@.pages.insert((site@, path@), after));
    }

    /// The bytes of a page.
    pub fn get(&self, site: &str, path: &str) -> (out: Option<&[u8]>)
        ensures
            match out {
                Some(b) => self@.pages.dom().contains((site@, path@)) && b@ == self@.pages[(
                    site@,
                    path@,
                )].bytes,
                None => !self@.pages.dom().contains((site@, path@)),
            },
    {
        match self.pages.get(site, path) {
            Some(p) => Some(p.bytes.as_slice()),
            None => None,
        }
    }

    /// The signed records of a page, in JSON.
    pub fn get_records(&self, site: &str, path: &str) -> (out: Option<&[u8]>)
        ensures
            match out {
                Some(b) => self@.records.dom().contains((site@, path@)) && b@ == self@.records[(
                    site@,
                    path@,
                )],
                None => !self@.records.dom().contains((site@, path@)),
            },
    {
        match self.records.get(site, path) {
            Some(b) => Some(b.as_slice()),
            None => None,
        }
    }

    /// Stores the signed endpoint records of a name, in JSON; whoever reads
    /// them checks them.
    pub fn insert_endpoint_records(&mut self, name: &str, chain_json: Vec<u8>)
        ensures
            final(self)@ == (SiteView {
                endpoints: old(self)@.endpoints.insert(name@, chain_json@),
                ..old(self)@
            }),
    {
        let ghost chain = chain_json@;
        self.endpoint_records.insert(name.to_owned(), chain_json);
        assert(self@.endpoints =~= old(self)@.endpoints.insert(name@, chain));
    }

    /// The signed endpoint records of a name, in JSON.
    pub fn get_endpoint_records(&self, name: &str) -> (out: Option<&[u8]>)
        ensures
            match out {
                Some(b) => self@.endpoints.dom().contains(name@) && b@ == self@.endpoints[name@],
                None => !self@.endpoints.dom().contains(name@),
            },
    {
        match self.endpoint_records.get(name) {
            Some(b) => Some(b.as_slice()),
            None => None,
        }
    }

    /// The names with endpoint records, in their order.
    pub fn endpoint_routes(&self) -> (out: Vec<String>)
        ensures
            strictly_sorted(texts(out@)),
            forall|n: Seq<char>| #[trigger]
                texts(out@).contains(n) <==> self@.endpoints.dom().contains(n),
    {
        let out = self.endpoint_records.keys();
        assert(texts(out@) =~= self.endpoint_records.key_order());
        out
    }

    /// The paths of a site, in their order; none where the site is unknown.
    pub fn list_paths(&self, site: &str) -> (out: Vec<String>)
        ensures
            texts(out@) == listing(self@, site@),
            is_listing(self@, site@, texts(out@)),
    {
        let out = self.pages.second_keys(site);
        proof {
            assert(texts(out@) =~= self.pages.row_keys(site@));
            assert(is_listing(self@, site@, texts(out@)));
            lemma_listing(self@, site@, texts(out@));
        }
        out
    }
}

/// The endpoint name of a records path.
fn endpoint_name(site: &str, path: &str) -> (out: Option<String>)
    ensures
        match out {
            Some(name) => endpoint_of(site@, path@) == Some(name@),
            None => endpoint_of(site@, path@) is None,
        },
{
    let n = path.unicode_len();
    if n < 2 || path.get_char(0) != '@' {
        return None;
    }
    assert(path@.subrange(1, n as int) =~= path@.skip(1));
    if !same_text(path.substring_char(1, n), site) || !is_valid_site(site) {
        return None;
    }
    Some(site.to_owned())
}

/// The response with a code and a body.
fn respond(code: u16, body: &[u8]) -> (out: Result<Vec<u8>, ServerError>)
    ensures
        outcome(out) == match encoded_response(code as nat, body@) {
            Ok(bytes) => Ok(bytes),
            Err(e) => Err(ServerErrorView::Protocol(e)),
        },
{
    match encode_response(code, body) {
        Ok(bytes) => Ok(bytes),
        Err(e) => Err(ServerError::Protocol(e)),
    }
}

/// The response with a code to some bytes that may be there.
fn respond_found(found: Option<&[u8]>, missing: &str) -> (out: Result<Vec<u8>, ServerError>)
    ensures
        outcome(out) == match encoded_response(
            if found is Some {
                200
            } else {
                404
            },
            match found {
                Some(b) => b@,
                None => encode_utf8(missing@),
            },
        ) {
            Ok(bytes) => Ok(bytes),
            Err(e) => Err(ServerErrorView::Protocol(e)),
        },
{
    match found {
        Some(body) => respond(200, body),
        None => respond(404, missing.as_bytes()),
    }
}

/// The response to one request line. A line that is no request is answered
/// too. A listing can be read back from its body.
pub fn handle_one(line: &str, store: &SiteStore) -> (out: Result<Vec<u8>, ServerError>)
    ensures
        outcome(out) == answered(store@, line@),
        parsed_list(line@) matches Ok(site) ==> (listing(store@, site).len() > 0 ==> holds_texts(
            answer(store@, line@).1,
            listing(store@, site),
        )),
{
    proof {
        law_verbs_do_not_cross_parse(line@);
    }
    match parse_conditional_request(line) {
        Ok(req) => {
            let page = match store.pages.get(req.site.as_str(), req.path.as_str()) {
                Some(p) => p,
                None => return respond(404, "not found".as_bytes()),
            };
            if let (Some(want), Ok(id)) = (&req.if_id, &page.id) {
                if same_text(want.as_str(), id.as_str()) {
                    let nothing: Vec<u8> = Vec::new();
                    return respond(304, nothing.as_slice());
                }
            }
            respond(200, page.bytes.as_slice())
        },
        Err(ProtocolError::BadVerb(_)) => match parse_records_request(line) {
            Ok(req) => match endpoint_name(req.site.as_str(), req.path.as_str()) {
                Some(name) => respond_found(
                    store.get_endpoint_records(name.as_str()),
                    "no records",
                ),
                None => respond_found(
                    store.get_records(req.site.as_str(), req.path.as_str()),
                    "no records",
                ),
            },
            Err(ProtocolError::BadVerb(_)) => match parse_list_request(line) {
                Ok(req) => {
                    let paths = store.list_paths(req.site.as_str());
                    if paths.len() == 0 {
                        return respond(404, "unknown site".as_bytes());
                    }
                    match texts_to_json(&paths) {
                        Ok(body) => respond(200, body.as_slice()),
                        Err(e) => Err(ServerError::Content(e)),
                    }
                },
                Err(_) => respond(400, "bad request".as_bytes()),
            },
            Err(_) => respond(400, "bad request".as_bytes()),
        },
        Err(_) => respond(400, "bad request".as_bytes()),
    }
}

/// The order of routes: by site, then by path.
pub open spec fn route_lt(a: (Seq<char>, Seq<char>), b: (Seq<char>, Seq<char>)) -> bool {
    text_lt(a.0, b.0) || (a.0 == b.0 && text_lt(a.1, b.1))
}

/// Routes in their order, each once.
pub open spec fn routes_sorted(s: Seq<(Seq<char>, Seq<char>)>) -> bool {
    forall|i: int, j: int| 0 <= i < j < s.len() ==> route_lt(#[trigger] s[i], #[trigger] s[j])
}

/// The values of routes.
pub open spec fn routes_view(s: Seq<(String, String)>) -> Seq<(Seq<char>, Seq<char>)> {
    Seq::new(s.len(), |i: int| (s[i].0@, s[i].1@))
}

/// A page and the record that was signed for it.
#[derive(Debug, Clone, PartialEq, Eq)]
pub struct SignedPage {
    pub site: String,
    pub path: String,
    pub record: SignedRecord,
}

/// The mathematical value of a [`SignedPage`].
pub struct SignedPageView {
    pub site: Seq<char>,
    pub path: Seq<char>,
    pub record: SignedView,
}

impl View for SignedPage {
    type V = SignedPageView;

    open spec fn view(&self) -> SignedPageView {
        SignedPageView { site: self.site@, path: self.path@, record: self.record@ }
    }
}

/// The routes of signed pages.
pub open spec fn signed_routes(list: Seq<SignedPage>) -> Seq<(Seq<char>, Seq<char>)> {
    Seq::new(list.len(), |i: int| (list[i].site@, list[i].path@))
}

/// The record that an identity signs for a page: it binds the path to the
/// content id of the page, under the site of the key.
pub open spec fn page_record(
    identity: SiteIdentity,
    path: Seq<char>,
    id: Seq<char>,
    expires: u64,
) -> RecordView {
    RecordView {
        site: hex_chars(identity.verify@),
        path,
        content_hash: id,
        expires_at_unix: expires,
    }
}

/// A record was signed for a page of the store: it is what the identity signs
/// for its content id, and it holds under the identity until it expires.
pub open spec fn page_signed(
    v: SiteView,
    identity: SiteIdentity,
    expires: u64,
    s: SignedPageView,
) -> bool {
    &&& v.pages.dom().contains((s.site, s.path))
    &&& v.pages[(s.site, s.path)].id is Ok
    &&& identity.signing is Some
    &&& s.record == signed_with(
        identity.signing->0@,
        page_record(identity, s.path, v.pages[(s.site, s.path)].id->Ok_0, expires),
    )
    &&& identity.wf() ==> forall|now: u64|
        now < expires ==> #[trigger] record_fault(identity.verify@, s.record, now) is None
}

/// Every page of a store can be signed with an identity.
pub open spec fn signable(v: SiteView, identity: SiteIdentity) -> bool {
    forall|k: (Seq<char>, Seq<char>)| #[trigger]
        v.pages.dom().contains(k) ==> v.pages[k].id is Ok && identity.signing is Some
}

/// Why a page cannot be signed with an identity.
pub open spec fn sign_fault(p: StoredView, identity: SiteIdentity) -> Option<Seq<char>> {
    match p.id {
        Err(e) => Some(e),
        Ok(_) => if identity.signing is None {
            Some(
                crate::identity::error_text(
                    IdentityErrorView::BadSignature("no secret key"@),
                ),
            )
        } else {
            None
        },
    }
}

/// What comes of signing every page: a record for each, in the order of the
/// routes, where all can be signed; else why one of them cannot.
pub open spec fn signed_outcome(
    v: SiteView,
    identity: SiteIdentity,
    expires: u64,
    out: Result<Vec<SignedPage>, ServerError>,
) -> bool {
    match out {
        Ok(list) => {
            &&& signable(v, identity)
            &&& forall|i: int|
                0 <= i < list@.len() ==> page_signed(v, identity, expires, (#[trigger] list@[i])@)
            &&& routes_sorted(signed_routes(list@))
            &&& forall|k: (Seq<char>, Seq<char>)| #[trigger]
                signed_routes(list@).contains(k) <==> v.pages.dom().contains(k)
        },
        Err(e) => {
            &&& !signable(v, identity)
            &&& exists|k: (Seq<char>, Seq<char>)| #[trigger]
                v.pages.dom().contains(k) && (sign_fault(v.pages[k], identity) matches Some(f)
                    && e@ == ServerErrorView::Content(f))
        },
    }
}

/// The records of a store after some were published.
pub open spec fn with_records(
    records: Map<(Seq<char>, Seq<char>), Seq<u8>>,
    list: Seq<(String, String, Vec<u8>)>,
) -> Map<(Seq<char>, Seq<char>), Seq<u8>>
    decreases list.len(),
{
    if list.len() == 0 {
        records
    } else {
        let (site, path, body) = list.last();
        with_records(records, list.drop_last()).insert((site@, path@), body@)
    }
}

impl SiteStore {
    /// The routes that are served, by site and path, in their order.
    pub fn routes(&self) -> (out: Vec<(String, String)>)
        ensures
            routes_sorted(routes_view(out@)),
            forall|k: (Seq<char>, Seq<char>)| #[trigger]
                routes_view(out@).contains(k) <==> self@.pages.dom().contains(k),
    {
        let mut out: Vec<(String, String)> = Vec::new();
        let n = self.pages.row_count();
        let ghost order = self.pages.row_order();
        let mut r: usize = 0;
        while r < n
            invariant
                r <= n == order.len(),
                order == self.pages.row_order(),
                strictly_sorted(order),
                routes_sorted(routes_view(out@)),
                forall|i: int|
                    0 <= i < out@.len() ==> self@.pages.dom().contains(
                        #[trigger] routes_view(out@)[i],
                    ),
                forall|i: int|
                    0 <= i < out@.len() ==> order.take(r as int).contains(
                        (#[trigger] routes_view(out@)[i]).0,
                    ),
                forall|q: int, p: Seq<char>|
                    0 <= q < r && self@.pages.dom().contains((#[trigger] order[q], p))
                        ==> #[trigger] routes_view(out@).contains((order[q], p)),
            decreases n - r,
        {
            let site = self.pages.first_key(r);
            let paths = self.pages.second_keys(site.as_str());
            let ghost keys = self.pages.row_keys(site@);
            let ghost before = routes_view(out@);
            let mut i: usize = 0;
            while i < paths.len()
                invariant
                    i <= paths@.len() == keys.len(),
                    r < n == order.len(),
                    strictly_sorted(order),
                    site@ == order[r as int],
                    strictly_sorted(keys),
                    forall|j: int| 0 <= j < keys.len() ==> #[trigger] paths@[j]@ == keys[j],
                    forall|k: Seq<char>| #[trigger]
                        keys.contains(k) <==> self@.pages.dom().contains((site@, k)),
                    routes_sorted(routes_view(out@)),
                    out@.len() == before.len() + i,
                    forall|j: int| 0 <= j < before.len() ==> routes_view(out@)[j] == before[j],
                    forall|j: int|
                        0 <= j < before.len() ==> order.take(r as int).contains(
                            (#[trigger] before[j]).0,
                        ),
                    forall|j: int|
                        0 <= j < i ==> #[trigger] routes_view(out@)[before.len() + j] == (
                            site@,
                            keys[j],
                        ),
                decreases paths@.len() - i,
            {
                let ghost prior = routes_view(out@);
                out.push((site.clone(), paths[i].clone()));
                proof {
                    let now = routes_view(out@);
                    assert(now =~= prior.push((site@, keys[i as int])));
                    assert forall|a: int, b: int| 0 <= a < b < now.len() implies route_lt(
                        #[trigger] now[a],
                        #[trigger] now[b],
                    ) by {
                        if b == now.len() - 1 {
                            if a < before.len() {
                                assert(now[a] == before[a]);
                                let q = order.take(r as int).index_of(before[a].0);
                                assert(order.take(r as int)[q] == order[q]);
                                assert(text_lt(order[q], order[r as int]));
                            } else {
                                let j = a - before.len();
                                assert(prior[before.len() + j] == (site@, keys[j]));
                                assert(text_lt(keys[j], keys[i as int]));
                            }
                        } else {
                            assert(now[a] == prior[a] && now[b] == prior[b]);
                        }
                    }
                }
                i = i + 1;
            }
            proof {
                let now = routes_view(out@);
                assert forall|k: int| 0 <= k < now.len() implies self@.pages.dom().contains(
                    #[trigger] now[k],
                ) && order.take(r + 1).contains(now[k].0) by {
                    if k < before.len() {
                        assert(now[k] == before[k]);
                        let q = order.take(r as int).index_of(before[k].0);
                        assert(order.take(r as int)[q] == order[q]);
                        assert(order.take(r + 1)[q] == now[k].0);
                    } else {
                        let j = k - before.len();
                        assert(now[before.len() + j] == (site@, keys[j]));
                        assert(keys.contains(keys[j]));
                        assert(order.take(r + 1)[r as int] == now[k].0);
                    }
                }
                assert forall|q: int, p: Seq<char>|
                    0 <= q < r + 1 && self@.pages.dom().contains(
                        (#[trigger] order[q], p),
                    ) implies #[trigger] now.contains((order[q], p)) by {
                    if q < r {
                        assert(before.contains((order[q], p)));
                        let k = before.index_of((order[q], p));
                        assert(now[k] == before[k]);
                    } else {
                        assert(keys.contains(p));
                        let j = keys.index_of(p);
                        assert(now[before.len() + j] == (site@, keys[j]));
                    }
                }
            }
            r = r + 1;
        }
        proof {
            let view = routes_view(out@);
            assert forall|k: (Seq<char>, Seq<char>)| #[trigger]
                view.contains(k) <==> self@.pages.dom().contains(k) by {
                if view.contains(k) {
                    let i = view.index_of(k);
                    assert(view[i] == k);
                }
                if self@.pages.dom().contains(k) {
                    assert(self.pages@.dom().contains((k.0, k.1)));
                    assert(order.contains(k.0));
                    let q = order.index_of(k.0);
                    assert(order[q] == k.0);
                    assert(view.contains((order[q], k.1)));
                }
            }
        }
        out
    }

    /// The first site, in order, with a page of a path.
    fn first_site(&self, path: &str) -> (out: Option<String>)
        ensures
            match out {
                Some(s) => self@.pages.dom().contains((s@, path@)) && forall|t: Seq<char>|
                    #[trigger] self@.pages.dom().contains((t, path@)) ==> !text_lt(t, s@),
                None => forall|t: Seq<char>| !#[trigger] self@.pages.dom().contains((t, path@)),
            },
    {
        let n = self.pages.row_count();
        let ghost order = self.pages.row_order();
        let mut r: usize = 0;
        while r < n
            invariant
                r <= n == order.len(),
                order == self.pages.row_order(),
                strictly_sorted(order),
                forall|a: Seq<char>, b: Seq<char>| #[trigger]
                    self.pages@.dom().contains((a, b)) ==> order.contains(a),
                forall|q: int|
                    0 <= q < r ==> !self@.pages.dom().contains((#[trigger] order[q], path@)),
            decreases n - r,
        {
            let site = self.pages.first_key(r);
            if self.pages.get(site.as_str(), path).is_some() {
                assert forall|t: Seq<char>| #[trigger]
                    self@.pages.dom().contains((t, path@)) implies !text_lt(t, site@) by {
                    assert(self.pages@.dom().contains((t, path@)));
                    let q = order.index_of(t);
                    assert(order[q] == t);
                    if q > r {
                        assert(text_lt(order[r as int], order[q]));
                        if text_lt(t, site@) {
                            lemma_text_lt_transitive(t, site@, t);
                            lemma_text_lt_irreflexive(t);
                        }
                    }
                    lemma_text_lt_irreflexive(t);
                }
                return Some(site.clone());
            }
            r = r + 1;
        }
        assert forall|t: Seq<char>| !#[trigger] self@.pages.dom().contains((t, path@)) by {
            if self@.pages.dom().contains((t, path@)) {
                assert(self.pages@.dom().contains((t, path@)));
                let q = order.index_of(t);
                assert(order[q] == t);
            }
        }
        None
    }

    /// Sets the identity that signs the pages from time to time, and how long
    /// its signatures hold.
    pub fn set_signer(&mut self, identity: SiteIdentity, ttl_secs: u64)
        ensures
            final(self)@ == (SiteView {
                signer: Some(SignerState { identity, ttl_secs }),
                ..old(self)@
            }),
    {
        self.signer = Some(SignerState { identity, ttl_secs });
    }

    /// Signs every page, in the order of the routes. Where one page cannot be
    /// signed, none is.
    pub fn sign_pages(&self, identity: &SiteIdentity, expires_at_unix: u64) -> (out: Result<
        Vec<SignedPage>,
        ServerError,
    >)
        ensures
            signed_outcome(self@, *identity, expires_at_unix, out),
    {
        let routes = self.routes();
        let ghost view = routes_view(routes@);
        let mut list: Vec<SignedPage> = Vec::new();
        let mut i: usize = 0;
        while i < routes.len()
            invariant
                i <= routes@.len(),
                list@.len() == i,
                view == routes_view(routes@),
                forall|k: (Seq<char>, Seq<char>)| #[trigger]
                    view.contains(k) <==> self@.pages.dom().contains(k),
                forall|j: int|
                    0 <= j < i ==> page_signed(
                        self@,
                        *identity,
                        expires_at_unix,
                        (#[trigger] list@[j])@,
                    ) && list@[j].site@ == view[j].0 && list@[j].path@ == view[j].1,
            decreases routes@.len() - i,
        {
            let site = &routes[i].0;
            let path = &routes[i].1;
            proof {
                assert(view[i as int] == (site@, path@));
                assert(view.contains((site@, path@)));
            }
            let page = match self.pages.get(site.as_str(), path.as_str()) {
                Some(p) => p,
                None => {
                    // Every route has its page.
                    assert(self.pages@.dom().contains((site@, path@)));
                    return Err(ServerError::Content(String::new()));
                },
            };
            assert(self@.pages[(site@, path@)] == page@);
            let id = match &page.id {
                Ok(id) => id,
                Err(e) => {
                    assert(sign_fault(self@.pages[(site@, path@)], *identity) == Some(e@));
                    return Err(ServerError::Content(e.clone()));
                },
            };
            match identity.sign_record(path.as_str(), id.as_str(), expires_at_unix) {
                Ok(record) => {
                    list.push(SignedPage { site: site.clone(), path: path.clone(), record });
                },
                Err(e) => {
                    assert(sign_fault(self@.pages[(site@, path@)], *identity) is Some);
                    return Err(ServerError::Content(e.to_string()));
                },
            }
            i = i + 1;
        }
        proof {
            assert(signed_routes(list@) =~= view);
            assert forall|k: (Seq<char>, Seq<char>)| #[trigger]
                self@.pages.dom().contains(k) implies self@.pages[k].id is Ok
                && identity.signing is Some by {
                assert(view.contains(k));
                let i = view.index_of(k);
                assert(view[i] == k);
                assert(page_signed(self@, *identity, expires_at_unix, list@[i]@));
            }
        }
        Ok(list)
    }

    /// Publishes the signed records of routes, in JSON; they replace those
    /// that a route had.
    pub fn publish(&mut self, list: Vec<(String, String, Vec<u8>)>) -> (n: usize)
        ensures
            final(self)@ == (SiteView {
                records: with_records(old(self)@.records, list@),
                ..old(self)@
            }),
            n == list@.len(),
    {
        let mut i: usize = 0;
        assert(list@.take(0) =~= Seq::empty());
        while i < list.len()
            invariant
                i <= list@.len(),
                self@ == (SiteView {
                    records: with_records(old(self)@.records, list@.take(i as int)),
                    ..old(self)@
                }),
            decreases list@.len() - i,
        {
            proof {
                assert(list@.take(i + 1).drop_last() =~= list@.take(i as int));
            }
            let item = &list[i];
            self.insert_records(item.0.as_str(), item.1.as_str(), item.2.as_slice());
            i = i + 1;
        }
        assert(list@.take(i as int) =~= list@);
        list.len()
    }

    /// Stores the signed records of a route, in JSON.
    fn insert_records(&mut self, site: &str, path: &str, body: &[u8])
        ensures
            final(self)@ == (SiteView {
                records: old(self)@.records.insert((site@, path@), body@),
                ..old(self)@
            }),
    {
        self.records.insert(site.to_owned(), path.to_owned(), slice_to_vec(body));
        assert(self@.records =~= old(self)@.records.insert((site@, path@), body@));
    }

    /// The records to publish next: every page signed anew by the identity
    /// that was set, from now on for its term; nothing without an identity.
    pub fn resign(&self, now: u64) -> (out: Option<Result<Vec<SignedPage>, ServerError>>)
        ensures
            match (self@.signer, out) {
                (None, None) => true,
                (Some(s), Some(r)) => signed_outcome(
                    self@,
                    s.identity,
                    term_end(now, s.ttl_secs),
                    r,
                ),
                _ => false,
            },
    {
        match &self.signer {
            None => None,
            Some(s) => Some(self.sign_pages(&s.identity, now.saturating_add(s.ttl_secs))),
        }
    }
}

/// The number of connections after one more was let in; nothing where the
/// most are there.
pub open spec fn acquired(active: usize, max: usize) -> Option<usize> {
    if active < max {
        Some((active + 1) as usize)
    } else {
        None
    }
}

/// The number of connections after one more was let in; nothing where the
/// most are there.
pub fn try_acquire(active: usize, max: usize) -> (out: Option<usize>)
    ensures
        out == acquired(active, max),
{
    if active >= max {
        return None;
    }
    Some(active + 1)
}

/// The response to a connection beyond the most.
pub fn busy_response() -> (out: Result<Vec<u8>, ServerError>)
    ensures
        outcome(out) == match encoded_response(503, encode_utf8("server busy"@)) {
            Ok(bytes) => Ok(bytes),
            Err(e) => Err(ServerErrorView::Protocol(e)),
        },
{
    respond(503, "server busy".as_bytes())
}

/// Whoever asks for a page that is held gets its bytes, or the word that they
/// are what the request says it has already.
pub proof fn law_held_pages_are_served(v: SiteView, c: ConditionalView)
    requires
        encoded_conditional(c) is Ok,
        v.pages.dom().contains((c.target.site, c.target.path)),
        v.pages[(c.target.site, c.target.path)].bytes.len() <= MAX_BODY,
    ensures
        ({
            let page = v.pages[(c.target.site, c.target.path)];
            let held = c.if_id is Some && page.id == Ok::<Seq<char>, Seq<char>>(c.if_id->0);
            let code: nat = if held {
                304
            } else {
                200
            };
            let body = if held {
                Seq::empty()
            } else {
                page.bytes
            };
            answered(v, encoded_conditional(c)->Ok_0) matches Ok(frame) && parsed_response(frame)
                == Ok::<(HeaderView, Seq<u8>), ProtocolErrorView>(
                (HeaderView { code, body_len: body.len() }, body),
            )
        }),
{
    law_conditional_round_trip(c);
    let page = v.pages[(c.target.site, c.target.path)];
    law_response_round_trip(200, page.bytes);
    law_response_round_trip(304, Seq::empty());
}

/// Every line gets an answer of one of four codes, which is sent unless its
/// body is too large, and a line that is no request is told so.
pub proof fn law_every_line_is_answered(v: SiteView, line: Seq<char>)
    ensures
        answer(v, line).0 == 200 || answer(v, line).0 == 304 || answer(v, line).0 == 400 || answer(
            v,
            line,
        ).0 == 404,
        answered(v, line) is Ok <==> answer(v, line).1.len() <= MAX_BODY,
        parsed_conditional(line) is Err && parsed_records(line) is Err && parsed_list(line) is Err
            ==> answer(v, line).0 == 400 && answered(v, line) is Ok,
{
    reveal_strlit("bad request");
    lemma_ascii_text("bad request"@);
    law_verbs_do_not_cross_parse(line);
}

proof fn lemma_ascii_text(s: Seq<char>)
    requires
        forall|i: int| 0 <= i < s.len() ==> '\0' <= #[trigger] s[i] <= '\u{7f}',
    ensures
        encode_utf8(s).len() == s.len(),
{
    is_ascii_chars_encode_utf8(s);
}

/// A server that admits connections one at a time never has more than the
/// most.
pub proof fn law_connections_stay_below_the_most(active: usize, max: usize)
    requires
        active <= max,
    ensures
        acquired(active, max) matches Some(after) ==> after <= max,
{
}

/// A `RECORDS` request for a page is answered with the records of that page,
/// whatever endpoint records are held; only one for `@` and the site itself
/// with the endpoint records of the site, whatever page records are held.
pub proof fn law_records_requests_get_their_own_records(v: SiteView, line: Seq<char>)
    requires
        parsed_records(line) is Ok,
    ensures
        ({
            let t = parsed_records(line)->Ok_0;
            if t.path == seq!['@'] + t.site {
                if v.endpoints.dom().contains(t.site) {
                    answer(v, line) == (200nat, v.endpoints[t.site])
                } else {
                    answer(v, line) == (404nat, encode_utf8("no records"@))
                }
            } else {
                if v.records.dom().contains((t.site, t.path)) {
                    answer(v, line) == (200nat, v.records[(t.site, t.path)])
                } else {
                    answer(v, line) == (404nat, encode_utf8("no records"@))
                }
            }
        }),
{
    law_verbs_do_not_cross_parse(line);
    crate::protocol::law_plain_requests_are_unconditional(line);
    crate::protocol::law_accepted_targets_are_safe(line);
    let t = parsed_records(line)->Ok_0;
    assert(parsed_conditional(line) is Err);
    if t.path == seq!['@'] + t.site {
        assert(t.path.skip(1) =~= t.site);
    } else if t.path.len() > 1 && t.path[0] == '@' && t.path.skip(1) == t.site {
        assert(t.path =~= seq!['@'] + t.site);
    }
}

/// A `FETCH` request is answered from the page of its own site and path
/// alone: with its bytes, with the word that the asker has them already, or
/// with the word that there is none.
pub proof fn law_fetch_requests_get_their_page(v: SiteView, line: Seq<char>)
    requires
        parsed_conditional(line) is Ok,
    ensures
        ({
            let c = parsed_conditional(line)->Ok_0;
            let key = (c.target.site, c.target.path);
            &&& !v.pages.dom().contains(key) ==> answer(v, line) == (
                404nat,
                encode_utf8("not found"@),
            )
            &&& v.pages.dom().contains(key) && c.if_id is None ==> answer(v, line) == (
                200nat,
                v.pages[key].bytes,
            )
            &&& v.pages.dom().contains(key) && c.if_id is Some ==> answer(v, line) == if (
            v.pages[key].id matches Ok(id) && id == c.if_id->0) {
                (304nat, Seq::<u8>::empty())
            } else {
                (200nat, v.pages[key].bytes)
            }
        }),
{
}

/// A `LIST` request is answered with the paths of the site's own pages, all
/// of them, sorted; with the word that the site is unknown where it has none.
pub proof fn law_list_requests_get_every_path(v: SiteView, line: Seq<char>)
    requires
        parsed_list(line) is Ok,
        v.pages.dom().finite(),
    ensures
        ({
            let site = parsed_list(line)->Ok_0;
            let paths = listing(v, site);
            &&& strictly_sorted(paths)
            &&& forall|p: Seq<char>| #[trigger]
                paths.contains(p) <==> v.pages.dom().contains((site, p))
            &&& answer(v, line) == if exists|p: Seq<char>| #[trigger]
                v.pages.dom().contains((site, p)) {
                (200nat, json_of_texts(paths))
            } else {
                (404nat, encode_utf8("unknown site"@))
            }
        }),
{
    law_verbs_do_not_cross_parse(line);
    crate::protocol::law_plain_requests_are_unconditional(line);
    let site = parsed_list(line)->Ok_0;
    lemma_listing_exists(v, site);
    let paths = listing(v, site);
    assert(is_listing(v, site, paths));
    if paths.len() > 0 {
        assert(paths.contains(paths[0]));
        assert(v.pages.dom().contains((site, paths[0])));
    }
    if exists|p: Seq<char>| #[trigger] v.pages.dom().contains((site, p)) {
        let p = choose|p: Seq<char>| #[trigger] v.pages.dom().contains((site, p));
        assert(paths.contains(p));
    }
}

/// A text sorted into others.
proof fn lemma_sorted_in(s: Seq<Seq<char>>, x: Seq<char>)
    requires
        strictly_sorted(s),
        !s.contains(x),
    ensures
        exists|t: Seq<Seq<char>>|
            #![trigger strictly_sorted(t)]
            strictly_sorted(t) && forall|p: Seq<char>| #[trigger]
                t.contains(p) <==> p == x || s.contains(p),
    decreases s.len(),
{
    if s.len() == 0 {
        let t = seq![x];
        assert(strictly_sorted(t));
        assert(t[0] == x);
    } else {
        let last = s.last();
        assert(s[s.len() - 1] == last);
        crate::table::lemma_text_lt_total(last, x);
        if text_lt(last, x) {
            let t = s.push(x);
            assert forall|i: int, j: int| 0 <= i < j < t.len() implies text_lt(
                #[trigger] t[i],
                #[trigger] t[j],
            ) by {
                if j == s.len() && i < s.len() - 1 {
                    assert(text_lt(s[i], s[s.len() - 1]));
                    lemma_text_lt_transitive(s[i], last, x);
                }
            }
            assert(strictly_sorted(t));
            assert forall|p: Seq<char>| #[trigger] t.contains(p) <==> p == x || s.contains(p) by {
                if t.contains(p) {
                    let i = t.index_of(p);
                    if i < s.len() {
                        assert(s[i] == p);
                    }
                }
                if s.contains(p) {
                    assert(t[s.index_of(p)] == p);
                }
                assert(t[s.len() as int] == x);
            }
        } else {
            let front = s.drop_last();
            assert forall|i: int, j: int| 0 <= i < j < front.len() implies text_lt(
                #[trigger] front[i],
                #[trigger] front[j],
            ) by {
                assert(text_lt(s[i], s[j]));
            }
            if front.contains(x) {
                assert(s[front.index_of(x)] == x);
            }
            lemma_sorted_in(front, x);
            let u = choose|u: Seq<Seq<char>>|
                #![trigger strictly_sorted(u)]
                strictly_sorted(u) && forall|p: Seq<char>| #[trigger]
                    u.contains(p) <==> p == x || front.contains(p);
            let t = u.push(last);
            assert forall|i: int, j: int| 0 <= i < j < t.len() implies text_lt(
                #[trigger] t[i],
                #[trigger] t[j],
            ) by {
                if j == u.len() {
                    assert(u.contains(u[i]));
                    if u[i] != x {
                        let k = front.index_of(u[i]);
                        assert(text_lt(s[k], s[s.len() - 1]));
                    }
                }
            }
            assert(strictly_sorted(t));
            assert forall|p: Seq<char>| #[trigger] t.contains(p) <==> p == x || s.contains(p) by {
                assert(t[u.len() as int] == last);
                if t.contains(p) {
                    let i = t.index_of(p);
                    if i < u.len() {
                        assert(u[i] == p);
                        assert(u.contains(p));
                        if p != x {
                            assert(s[front.index_of(p)] == p);
                        }
                    }
                }
                if s.contains(p) {
                    let i = s.index_of(p);
                    if i < front.len() {
                        assert(front[i] == p);
                        assert(u.contains(p));
                    }
                }
                if u.contains(p) {
                    assert(t[u.index_of(p)] == p);
                }
                assert(u.contains(x));
                assert(t[u.index_of(x)] == x);
            }
        }
    }
}

/// The texts of a finite set can be sorted.
proof fn lemma_set_sorts(set: Set<Seq<char>>)
    requires
        set.finite(),
    ensures
        exists|t: Seq<Seq<char>>|
            #![trigger strictly_sorted(t)]
            strictly_sorted(t) && forall|p: Seq<char>| #[trigger] t.contains(p) <==> set.contains(p),
    decreases set.len(),
{
    if set.len() == 0 {
        let t = Seq::<Seq<char>>::empty();
        assert(strictly_sorted(t));
        assert(set =~= Set::empty());
    } else {
        let x = set.choose();
        let less = set.remove(x);
        lemma_set_sorts(less);
        let s = choose|s: Seq<Seq<char>>|
            #![trigger strictly_sorted(s)]
            strictly_sorted(s) && forall|p: Seq<char>| #[trigger]
                s.contains(p) <==> less.contains(p);
        assert(!s.contains(x));
        lemma_sorted_in(s, x);
        let t = choose|t: Seq<Seq<char>>|
            #![trigger strictly_sorted(t)]
            strictly_sorted(t) && forall|p: Seq<char>| #[trigger]
                t.contains(p) <==> p == x || s.contains(p);
        assert forall|p: Seq<char>| #[trigger] t.contains(p) <==> set.contains(p) by {
            assert(s.contains(p) <==> less.contains(p));
        }
    }
}

/// A site with finitely many pages has a listing.
proof fn lemma_listing_exists(v: SiteView, site: Seq<char>)
    requires
        v.pages.dom().finite(),
    ensures
        is_listing(v, site, listing(v, site)),
{
    let own = v.pages.dom().filter(|k: (Seq<char>, Seq<char>)| k.0 == site);
    let set = own.map(|k: (Seq<char>, Seq<char>)| k.1);
    own.lemma_map_finite(|k: (Seq<char>, Seq<char>)| k.1);
    assert forall|p: Seq<char>| #[trigger] set.contains(p) <==> v.pages.dom().contains((site, p)) by {
        if v.pages.dom().contains((site, p)) {
            assert(own.contains((site, p)));
            assert(set.contains((site, p).1));
        }
    }
    lemma_set_sorts(set);
    let t = choose|t: Seq<Seq<char>>|
        #![trigger strictly_sorted(t)]
        strictly_sorted(t) && forall|p: Seq<char>| #[trigger] t.contains(p) <==> set.contains(p);
    assert forall|p: Seq<char>| #[trigger] t.contains(p) <==> v.pages.dom().contains(
        (site, p),
    ) by {
        assert(set.contains(p) <==> v.pages.dom().contains((site, p)));
    }
    assert(is_listing(v, site, t));
}

/// Whoever signs the pages of a site gets a record that holds for each of
/// them: it names the signer's own key, the path and the content of the page,
/// and the given expiry.
pub proof fn law_signed_pages_name_their_content(
    v: SiteView,
    identity: SiteIdentity,
    expires: u64,
    s: SignedPageView,
)
    requires
        page_signed(v, identity, expires, s),
    ensures
        s.record.record.site == hex_chars(identity.verify@),
        s.record.record.path == s.path,
        v.pages.dom().contains((s.site, s.path)),
        v.pages[(s.site, s.path)].id == Ok::<Seq<char>, Seq<char>>(s.record.record.content_hash),
        s.record.record.expires_at_unix == expires,
        identity.wf() ==> forall|now: u64|
            now < expires ==> #[trigger] record_fault(identity.verify@, s.record, now) is None,
{
}

/// A page is stored as it is, under the id of its canonical form.
pub proof fn law_pages_are_stored_as_they_are(bytes: Seq<u8>, canonical: Seq<u8>, why: Seq<char>)
    ensures
        stored(bytes, Ok(canonical)).bytes == bytes,
        stored(bytes, Ok(canonical)).id == Ok::<Seq<char>, Seq<char>>(content_id(canonical)),
        stored(bytes, Err(why)).bytes == bytes,
        stored(bytes, Err(why)).id == Err::<Seq<char>, Seq<char>>(why),
{
}

/// Published records take the place of those of their own route, the last one
/// where there are several, and of no others.
pub proof fn law_published_records_replace_their_own(
    records: Map<(Seq<char>, Seq<char>), Seq<u8>>,
    list: Seq<(String, String, Vec<u8>)>,
    key: (Seq<char>, Seq<char>),
)
    ensures
        (forall|i: int| 0 <= i < list.len() ==> ((#[trigger] list[i]).0@, list[i].1@) != key) ==> (
        with_records(records, list).dom().contains(key) <==> records.dom().contains(key))
            && with_records(records, list)[key] == records[key],
        forall|i: int|
            0 <= i < list.len() && ((#[trigger] list[i]).0@, list[i].1@) == key && (forall|j: int|
                i < j < list.len() ==> ((#[trigger] list[j]).0@, list[j].1@) != key)
                ==> with_records(records, list).dom().contains(key) && with_records(
                records,
                list,
            )[key] == list[i].2@,
    decreases list.len(),
{
    if list.len() > 0 {
        let front = list.drop_last();
        law_published_records_replace_their_own(records, front, key);
        assert(forall|i: int| 0 <= i < front.len() ==> list[i] == #[trigger] front[i]);
        let last = list.last();
        assert(list[list.len() - 1] == last);
        assert forall|i: int|
            0 <= i < list.len() && ((#[trigger] list[i]).0@, list[i].1@) == key && (forall|j: int|
                i < j < list.len() ==> ((#[trigger] list[j]).0@, list[j].1@)
                    != key) implies with_records(records, list).dom().contains(key)
            && with_records(records, list)[key] == list[i].2@ by {
            if i < front.len() {
                assert(front[i] == list[i]);
                assert((list[list.len() - 1].0@, list[list.len() - 1].1@) != key);
                assert forall|j: int| i < j < front.len() implies ((#[trigger] front[j]).0@, front[j].1@)
                    != key by {
                    assert(list[j] == front[j]);
                }
            }
        }
        if forall|i: int| 0 <= i < list.len() ==> ((#[trigger] list[i]).0@, list[i].1@) != key {
            assert((list[list.len() - 1].0@, list[list.len() - 1].1@) != key);
            assert forall|i: int| 0 <= i < front.len() implies ((#[trigger] front[i]).0@, front[i].1@)
                != key by {
                assert(list[i] == front[i]);
            }
        }
    }
}

/// A connection is taken in exactly below the most, and then counted.
pub proof fn law_free_connections_are_taken(active: usize, max: usize)
    ensures
        active < max ==> acquired(active, max) == Some((active + 1) as usize),
        active >= max ==> acquired(active, max) is None,
{
}

/// The text of an error names the layer that it comes from and ends with what
/// that layer says.
pub proof fn law_error_texts(t: TransportErrorView, p: ProtocolErrorView, why: Seq<char>)
    ensures
        error_text(ServerErrorView::Transport(t)) == "transport: "@ + crate::transport::error_text(
            t,
        ),
        error_text(ServerErrorView::Protocol(p)) == "protocol: "@ + crate::protocol::error_text(p),
        error_text(ServerErrorView::Io(why)) == "io: "@ + why,
        error_text(ServerErrorView::Content(why)) == "content: "@ + why,
{
}

/// A new site serves nothing: whatever is asked for is not found.
pub proof fn law_new_sites_are_empty(line: Seq<char>)
    requires
        parsed_conditional(line) is Ok || parsed_records(line) is Ok || parsed_list(line) is Ok,
    ensures
        answer(empty_site(), line).0 == 404,
        empty_site().signer is None,
{
    if parsed_conditional(line) is Ok {
        law_fetch_requests_get_their_page(empty_site(), line);
    } else if parsed_records(line) is Ok {
        law_records_requests_get_their_own_records(empty_site(), line);
    } else {
        law_list_requests_get_every_path(empty_site(), line);
    }
}

/// Signing gives every page one record, in the order of sites and then paths,
/// or fails: it fails exactly where some page has no content id, or where
/// there is a page and no secret key.
pub proof fn law_every_page_is_signed(
    v: SiteView,
    identity: SiteIdentity,
    expires: u64,
    out: Result<Vec<SignedPage>, ServerError>,
)
    requires
        signed_outcome(v, identity, expires, out),
    ensures
        out is Err <==> exists|k: (Seq<char>, Seq<char>)| #[trigger]
            v.pages.dom().contains(k) && (v.pages[k].id is Err || identity.signing is None),
        out matches Ok(list) ==> {
            &&& forall|k: (Seq<char>, Seq<char>)| #[trigger]
                v.pages.dom().contains(k) ==> exists|i: int|
                    0 <= i < list@.len() && (#[trigger] list@[i]).site@ == k.0 && list@[i].path@
                        == k.1
            &&& forall|i: int|
                0 <= i < list@.len() ==> v.pages.dom().contains(
                    ((#[trigger] list@[i]).site@, list@[i].path@),
                ) && list@[i].record@.record.path == list@[i].path@
                    && list@[i].record@.record.expires_at_unix == expires
                    && list@[i].record@.record.site == hex_chars(identity.verify@)
                    && v.pages[(list@[i].site@, list@[i].path@)].id == Ok::<Seq<char>, Seq<char>>(
                    list@[i].record@.record.content_hash,
                )
            &&& forall|i: int, j: int|
                #![trigger list@[i], list@[j]]
                0 <= i < j < list@.len() ==> text_lt(list@[i].site@, list@[j].site@) || (
                list@[i].site@ == list@[j].site@ && text_lt(list@[i].path@, list@[j].path@))
        },
        out matches Err(e) ==> (e@ matches ServerErrorView::Content(why) && exists|
            k: (Seq<char>, Seq<char>),
        | #[trigger]
            v.pages.dom().contains(k) && match v.pages[k].id {
                Err(f) => why == f,
                Ok(_) => identity.signing is None && why == "bad signature: no secret key"@,
            }),
{
    reveal_strlit("bad signature: ");
    reveal_strlit("no secret key");
    reveal_strlit("bad signature: no secret key");
    assert("bad signature: "@ + "no secret key"@ =~= "bad signature: no secret key"@);
    match out {
        Ok(list) => {
            let r = signed_routes(list@);
            assert forall|k: (Seq<char>, Seq<char>)| #[trigger]
                v.pages.dom().contains(k) implies exists|i: int|
                0 <= i < list@.len() && (#[trigger] list@[i]).site@ == k.0 && list@[i].path@
                    == k.1 by {
                assert(r.contains(k));
                let i = choose|i: int| 0 <= i < r.len() && r[i] == k;
                assert(list@[i].site@ == k.0);
            }
            assert forall|i: int, j: int|
                #![trigger list@[i], list@[j]]
                0 <= i < j < list@.len() implies text_lt(list@[i].site@, list@[j].site@) || (
            list@[i].site@ == list@[j].site@ && text_lt(list@[i].path@, list@[j].path@)) by {
                assert(route_lt(r[i], r[j]));
            }
        },
        Err(e) => {
            let k = choose|k: (Seq<char>, Seq<char>)| #[trigger]
                v.pages.dom().contains(k) && (sign_fault(v.pages[k], identity) matches Some(f)
                    && e@ == ServerErrorView::Content(f));
            assert(v.pages.dom().contains(k));
        },
    }
}

} // verus!
