//! The browser core: from a name over a fetch to a page.
//!
//! What a server sent arrives here as plain values; the rules decide what
//! becomes of it. A route that pins a site key is served with verified pages
//! only.

pub mod cache;
pub mod find;
pub mod history;
pub mod mirror;
pub mod navigate;
pub mod session;
pub mod tui;

use crate::content::{form_fault, Page, PageView};
use crate::digest::{content_id, content_id_of};
use crate::hex_text::{decode_hex, hex_bytes, hex_chars, hex_fault, is_hex_text, law_hex_round_trip};
use crate::identity::{record_fault, IdentityErrorView, SignedRecord, SignedView, SiteIdentity};
use crate::keys::ed25519_key_fault;
use crate::protocol::{
    checked_records_target, checked_target, encode_records_request, encode_request, encoded,
    is_valid_path, is_valid_site, valid_path, valid_site, FetchRequest, ProtocolError,
    ProtocolErrorView, RecordsRequest, TargetView,
};
use crate::resolver::{ResolveError, ResolveErrorView};
use crate::storage::StoreError;
use crate::text::{
    dec_chars, decimal, head, index_of, lemma_index_of, lossy, lossy_text, split_first, tail,
};
use crate::transport::{TransportError, TransportErrorView};
use vstd::prelude::*;
use vstd::string::*;

pub use crate::browser::history::{History, Visit};

verus! {

/// Why the browser fails.
#[derive(Debug, Clone, PartialEq, Eq)]
pub enum BrowserError {
    /// The name does not resolve.
    Resolve(ResolveError),
    /// The fetch failed on the way.
    Transport(TransportError),
    /// The request cannot be written.
    Protocol(ProtocolError),
    /// The route has no endpoint, or the body is no page.
    Content(String),
    /// The cache failed.
    Cache(String),
    /// The server answered with another status than success.
    Status(u16, String),
    /// The navigation target is wrong, and why.
    BadTarget(String, String),
    /// The route pins a site, and there is no signed record.
    PinRecordsRequired(String),
    /// The page is not what the pinned site signed.
    PinMismatch { site: String, path: String, reason: String },
}

/// The mathematical value of a [`BrowserError`].
pub enum BrowserErrorView {
    Resolve(ResolveErrorView),
    Transport(TransportErrorView),
    Protocol(ProtocolErrorView),
    Content(Seq<char>),
    Cache(Seq<char>),
    Status(u16, Seq<char>),
    BadTarget(Seq<char>, Seq<char>),
    PinRecordsRequired(Seq<char>),
    PinMismatch { site: Seq<char>, path: Seq<char>, reason: Seq<char> },
}

impl View for BrowserError {
    type V = BrowserErrorView;

    open spec fn view(&self) -> BrowserErrorView {
        match self {
            BrowserError::Resolve(e) => BrowserErrorView::Resolve(e@),
            BrowserError::Transport(e) => BrowserErrorView::Transport(e@),
            BrowserError::Protocol(e) => BrowserErrorView::Protocol(e@),
            BrowserError::Content(s) => BrowserErrorView::Content(s@),
            BrowserError::Cache(s) => BrowserErrorView::Cache(s@),
            BrowserError::Status(code, s) => BrowserErrorView::Status(*code, s@),
            BrowserError::BadTarget(t, s) => BrowserErrorView::BadTarget(t@, s@),
            BrowserError::PinRecordsRequired(s) => BrowserErrorView::PinRecordsRequired(s@),
            BrowserError::PinMismatch { site, path, reason } => BrowserErrorView::PinMismatch {
                site: site@,
                path: path@,
                reason: reason@,
            },
        }
    }
}

/// What a [`BrowserError`] says to a reader.
pub open spec fn error_text(e: BrowserErrorView) -> Seq<char> {
    match e {
        BrowserErrorView::Resolve(r) => "resolve: "@ + crate::resolver::error_text(r),
        BrowserErrorView::Transport(t) => "transport: "@ + crate::transport::error_text(t),
        BrowserErrorView::Protocol(p) => "protocol: "@ + crate::protocol::error_text(p),
        BrowserErrorView::Content(s) => "content: "@ + s,
        BrowserErrorView::Cache(s) => "cache: "@ + s,
        BrowserErrorView::Status(code, s) => "server returned "@ + dec_chars(code as nat) + ": "@
            + s,
        BrowserErrorView::BadTarget(t, s) => "bad target '"@ + t + "': "@ + s,
        BrowserErrorView::PinRecordsRequired(s) => "route pins site "@ + s
            + " but no signed records were provided; refusing to fetch"@,
        BrowserErrorView::PinMismatch { site, path, reason } =>
            "pinned page verification failed for "@ + site + "/"@ + path + ": "@ + reason,
    }
}

impl BrowserError {
    /// What the error says to a reader.
    pub fn to_string(&self) -> (out: String)
        ensures
            out@ == error_text(self@),
    {
        match self {
            BrowserError::Resolve(e) => "resolve: ".to_owned().concat(e.to_string().as_str()),
            BrowserError::Transport(e) => "transport: ".to_owned().concat(e.to_string().as_str()),
            BrowserError::Protocol(e) => "protocol: ".to_owned().concat(e.to_string().as_str()),
            BrowserError::Content(s) => "content: ".to_owned().concat(s.as_str()),
            BrowserError::Cache(s) => "cache: ".to_owned().concat(s.as_str()),
            BrowserError::Status(code, s) => "server returned ".to_owned().concat(
                decimal(*code as u64).as_str(),
            ).concat(": ").concat(s.as_str()),
            BrowserError::BadTarget(t, s) => "bad target '".to_owned().concat(t.as_str()).concat(
                "': ",
            ).concat(s.as_str()),
            BrowserError::PinRecordsRequired(s) => "route pins site ".to_owned().concat(
                s.as_str(),
            ).concat(" but no signed records were provided; refusing to fetch"),
            BrowserError::PinMismatch { site, path, reason } =>
                "pinned page verification failed for ".to_owned().concat(site.as_str()).concat(
                "/",
            ).concat(path.as_str()).concat(": ").concat(reason.as_str()),
        }
    }

    /// The error of a cache whose blob store failed.
    pub fn from_store(e: StoreError) -> (out: Self)
        ensures
            out@ == BrowserErrorView::Cache(crate::storage::error_text(e@)),
    {
        BrowserError::Cache(e.to_string())
    }
}

/// Site and path of a navigation target: the first slash parts them, and
/// without one the path is `home`.
pub open spec fn target_parts(target: Seq<char>) -> (Seq<char>, Seq<char>) {
    if index_of(target, '/') < target.len() {
        (head(target, '/'), tail(target, '/'))
    } else {
        (target, "home"@)
    }
}

/// Site and path of a navigation target, where both are valid.
pub open spec fn parsed_target(target: Seq<char>) -> Result<
    (Seq<char>, Seq<char>),
    BrowserErrorView,
> {
    let (site, path) = target_parts(target);
    if site.len() == 0 || path.len() == 0 {
        Err(BrowserErrorView::BadTarget(target, "empty site or path"@))
    } else if !valid_site(site) {
        Err(BrowserErrorView::BadTarget(site, "invalid site name"@))
    } else if !valid_path(path) {
        Err(BrowserErrorView::BadTarget(path, "invalid path"@))
    } else {
        Ok((site, path))
    }
}

/// Reads a navigation target: a site, or a site, a slash and a path.
pub fn parse_target(target: &str) -> (out: Result<(String, String), BrowserError>)
    ensures
        match out {
            Ok(t) => parsed_target(target@) == Ok::<(Seq<char>, Seq<char>), BrowserErrorView>(
                (t.0@, t.1@),
            ),
            Err(e) => parsed_target(target@) == Err::<(Seq<char>, Seq<char>), BrowserErrorView>(e@),
        },
{
    let (first, rest) = split_first(target, '/');
    let whole = first.unicode_len() == target.unicode_len();
    proof {
        lemma_index_of(target@, '/');
        if whole {
            assert(target@.take(target@.len() as int) =~= target@);
        }
    }
    let path = if whole {
        "home"
    } else {
        rest
    };
    if first.unicode_len() == 0 || path.unicode_len() == 0 {
        return Err(
            BrowserError::BadTarget(target.to_owned(), "empty site or path".to_owned()),
        );
    }
    if !is_valid_site(first) {
        return Err(BrowserError::BadTarget(first.to_owned(), "invalid site name".to_owned()));
    }
    if !is_valid_path(path) {
        return Err(BrowserError::BadTarget(path.to_owned(), "invalid path".to_owned()));
    }
    Ok((first.to_owned(), path.to_owned()))
}

/// What came back on a `FETCH` request: the status and the body, or why there
/// is none; what the JSON reader made of the body, and the canonical form of
/// that.
#[derive(Debug)]
pub struct PageReply {
    pub reply: Result<(u16, Vec<u8>), TransportError>,
    pub page: Result<Page, String>,
    pub canonical: Vec<u8>,
}

/// What came back on a `RECORDS` request: the status and the body, or why
/// there is none; what the JSON reader made of the body.
#[derive(Debug)]
pub struct RecordsReply {
    pub reply: Result<(u16, Vec<u8>), TransportError>,
    pub records: Result<Vec<SignedRecord>, String>,
}

/// The values of signed records.
pub open spec fn records_view(s: Seq<SignedRecord>) -> Seq<SignedView> {
    Seq::new(s.len(), |i: int| s[i]@)
}

/// Why a fetch gives no page: the request is invalid, nothing came back, the
/// status is not success, or the body is no page.
pub open spec fn page_fault(site: Seq<char>, path: Seq<char>, r: PageReply) -> Option<
    BrowserErrorView,
> {
    match (checked_target(TargetView { site, path }), r.reply) {
        (Err(e), _) => Some(BrowserErrorView::Protocol(e)),
        (Ok(_), Err(e)) => Some(BrowserErrorView::Transport(e@)),
        (Ok(_), Ok((code, body))) => if code != 200 {
            Some(BrowserErrorView::Status(code, lossy_text(body@)))
        } else {
            match form_fault(body@, r.page) {
                Some(e) => Some(BrowserErrorView::Content(crate::content::error_text(e))),
                None => None,
            }
        },
    }
}

/// The page that a fetch gives.
pub open spec fn fetched_page(site: Seq<char>, path: Seq<char>, r: PageReply) -> Result<
    PageView,
    BrowserErrorView,
> {
    match page_fault(site, path, r) {
        Some(e) => Err(e),
        None => Ok(r.page->Ok_0@),
    }
}

/// The signed records that a fetch gives: none where the server has none.
pub open spec fn fetched_records(site: Seq<char>, path: Seq<char>, r: RecordsReply) -> Result<
    Seq<SignedView>,
    BrowserErrorView,
> {
    match (checked_records_target(TargetView { site, path }), r.reply) {
        (Err(e), _) => Err(BrowserErrorView::Protocol(e)),
        (Ok(_), Err(e)) => Err(BrowserErrorView::Transport(e@)),
        (Ok(_), Ok((code, body))) => if code == 200 {
            match r.records {
                Ok(list) => Ok(records_view(list@)),
                Err(e) => Err(BrowserErrorView::Content("bad records body: "@ + e@)),
            }
        } else if code == 404 {
            Ok(Seq::empty())
        } else {
            Err(BrowserErrorView::Status(code, lossy_text(body@)))
        },
    }
}

/// The line that asks for a page, or why the request is invalid.
pub fn page_line(site: &str, path: &str) -> (out: Result<String, BrowserError>)
    ensures
        match out {
            Ok(line) => encoded("FETCH"@, checked_target(TargetView { site: site@, path: path@ }))
                == Ok::<Seq<char>, ProtocolErrorView>(line@),
            Err(e) => checked_target(TargetView { site: site@, path: path@ }) matches Err(p) && e@
                == BrowserErrorView::Protocol(p),
        },
{
    match encode_request(&FetchRequest { site: site.to_owned(), path: path.to_owned() }) {
        Ok(line) => Ok(line),
        Err(e) => Err(BrowserError::Protocol(e)),
    }
}

/// The line that asks for the signed records of a page, or why the request
/// is invalid.
pub fn records_line(site: &str, path: &str) -> (out: Result<String, BrowserError>)
    ensures
        match out {
            Ok(line) => encoded(
                "RECORDS"@,
                checked_records_target(TargetView { site: site@, path: path@ }),
            ) == Ok::<Seq<char>, ProtocolErrorView>(line@),
            Err(e) => checked_records_target(TargetView { site: site@, path: path@ }) matches Err(p)
                && e@ == BrowserErrorView::Protocol(p),
        },
{
    match encode_records_request(
        &RecordsRequest { site: site.to_owned(), path: path.to_owned() },
    ) {
        Ok(line) => Ok(line),
        Err(e) => Err(BrowserError::Protocol(e)),
    }
}

/// Checks what came back on a `FETCH` request.
pub fn check_page(site: &str, path: &str, r: &PageReply) -> (out: Result<(), BrowserError>)
    ensures
        match out {
            Ok(_) => page_fault(site@, path@, *r) is None,
            Err(e) => page_fault(site@, path@, *r) == Some(e@),
        },
{
    match page_line(site, path) {
        Ok(_) => {},
        Err(e) => return Err(e),
    }
    match &r.reply {
        Err(e) => Err(BrowserError::Transport(copy_transport(e))),
        Ok((code, body)) => {
            if *code != 200 {
                return Err(BrowserError::Status(*code, lossy(body.as_slice())));
            }
            match Page::check_form(body.as_slice(), &r.page) {
                Ok(_) => Ok(()),
                Err(e) => Err(BrowserError::Content(e.to_string())),
            }
        },
    }
}

/// The page that came back on a `FETCH` request.
pub fn fetch_page(site: &str, path: &str, r: PageReply) -> (out: Result<Page, BrowserError>)
    ensures
        match out {
            Ok(p) => fetched_page(site@, path@, r) == Ok::<PageView, BrowserErrorView>(p@)
                && r.page == Ok::<Page, String>(p),
            Err(e) => fetched_page(site@, path@, r) == Err::<PageView, BrowserErrorView>(e@),
        },
{
    match check_page(site, path, &r) {
        Err(e) => Err(e),
        Ok(_) => match r.page {
            Ok(p) => Ok(p),
            Err(e) => Err(BrowserError::Content(e)),
        },
    }
}

/// The signed records that came back on a `RECORDS` request.
pub fn fetch_records(site: &str, path: &str, r: RecordsReply) -> (out: Result<
    Vec<SignedRecord>,
    BrowserError,
>)
    ensures
        match out {
            Ok(list) => fetched_records(site@, path@, r) == Ok::<
                Seq<SignedView>,
                BrowserErrorView,
            >(records_view(list@)),
            Err(e) => fetched_records(site@, path@, r) == Err::<
                Seq<SignedView>,
                BrowserErrorView,
            >(e@),
        },
{
    match records_line(site, path) {
        Ok(_) => {},
        Err(e) => return Err(e),
    }
    match r.reply {
        Err(e) => Err(BrowserError::Transport(e)),
        Ok((code, body)) => {
            if code == 200 {
                return match r.records {
                    Ok(list) => Ok(list),
                    Err(e) => Err(
                        BrowserError::Content("bad records body: ".to_owned().concat(e.as_str())),
                    ),
                };
            }
            if code == 404 {
                let none: Vec<SignedRecord> = Vec::new();
                assert(records_view(none@) =~= Seq::empty());
                return Ok(none);
            }
            Err(BrowserError::Status(code, lossy(body.as_slice())))
        },
    }
}

/// A copy of a transport error.
pub fn copy_transport(e: &TransportError) -> (out: TransportError)
    ensures
        out@ == e@,
{
    match e {
        TransportError::Io(s) => TransportError::Io(s.clone()),
        TransportError::Protocol(p) => TransportError::Protocol(copy_protocol(p)),
    }
}

/// A copy of a protocol error.
fn copy_protocol(e: &ProtocolError) -> (out: ProtocolError)
    ensures
        out@ == e@,
{
    match e {
        ProtocolError::Empty => ProtocolError::Empty,
        ProtocolError::LineTooLong => ProtocolError::LineTooLong,
        ProtocolError::BodyTooLarge(n) => ProtocolError::BodyTooLarge(*n),
        ProtocolError::BadVersion(s) => ProtocolError::BadVersion(s.clone()),
        ProtocolError::BadVerb(s) => ProtocolError::BadVerb(s.clone()),
        ProtocolError::BadSite(s) => ProtocolError::BadSite(s.clone()),
        ProtocolError::BadPath(s) => ProtocolError::BadPath(s.clone()),
        ProtocolError::BadCode(s) => ProtocolError::BadCode(s.clone()),
        ProtocolError::BadLength(s) => ProtocolError::BadLength(s.clone()),
        ProtocolError::Malformed(s) => ProtocolError::Malformed(s.clone()),
        ProtocolError::Truncated => ProtocolError::Truncated,
    }
}

/// A signed record vouches for a page: it is of the pinned site and the path,
/// names the content id of the page, and holds under the key now.
pub open spec fn vouches(
    canonical: Seq<u8>,
    pin: Seq<char>,
    path: Seq<char>,
    s: SignedView,
    now: u64,
) -> bool {
    &&& s.record.path == path
    &&& s.record.site == pin
    &&& s.record.content_hash == content_id(canonical)
    &&& record_fault(hex_bytes(pin), s, now) is None
}

/// Some record vouches for a page.
pub open spec fn is_vouched(
    canonical: Seq<u8>,
    pin: Seq<char>,
    path: Seq<char>,
    records: Seq<SignedView>,
    now: u64,
) -> bool {
    exists|i: int|
        0 <= i < records.len() && vouches(canonical, pin, path, #[trigger] records[i], now)
}

/// Why a page with this canonical form is refused under a pinned site; not
/// where some signed record vouches for it.
pub open spec fn pin_fault(
    canonical: Seq<u8>,
    pin: Seq<char>,
    path: Seq<char>,
    records: Seq<SignedView>,
    now: u64,
) -> Option<BrowserErrorView> {
    let key = hex_bytes(pin);
    if !is_hex_text(pin) {
        Some(BrowserErrorView::PinMismatch { site: pin, path, reason: hex_fault(pin) })
    } else if key.len() != 32 {
        Some(
            BrowserErrorView::PinMismatch {
                site: pin,
                path,
                reason: crate::identity::error_text(IdentityErrorView::BadKeyLen(key.len())),
            },
        )
    } else if ed25519_key_fault(key) is Some {
        Some(
            BrowserErrorView::PinMismatch {
                site: pin,
                path,
                reason: crate::identity::error_text(
                    IdentityErrorView::BadSignature(ed25519_key_fault(key)->0),
                ),
            },
        )
    } else if is_vouched(canonical, pin, path, records, now) {
        None
    } else {
        Some(
            BrowserErrorView::PinMismatch {
                site: pin,
                path,
                reason: "no signed record matches the fetched content"@,
            },
        )
    }
}

/// The error of a page that a pinned site does not vouch for.
fn pin_error(pin: &str, path: &str, reason: String) -> (e: BrowserError)
    ensures
        e@ == (BrowserErrorView::PinMismatch { site: pin@, path: path@, reason: reason@ }),
{
    BrowserError::PinMismatch { site: pin.to_owned(), path: path.to_owned(), reason }
}

/// Checks that some record vouches for the page with this canonical form.
pub fn verify_pinned(
    canonical: &[u8],
    pinned_site_id: &str,
    path: &str,
    records: &Vec<SignedRecord>,
    now_unix: u64,
) -> (out: Result<(), BrowserError>)
    ensures
        match out {
            Ok(_) => pin_fault(
                canonical@,
                pinned_site_id@,
                path@,
                records_view(records@),
                now_unix,
            ) is None,
            Err(e) => pin_fault(
                canonical@,
                pinned_site_id@,
                path@,
                records_view(records@),
                now_unix,
            ) == Some(e@),
        },
{
    let key = match decode_hex(pinned_site_id) {
        Ok(k) => k,
        Err(e) => return Err(pin_error(pinned_site_id, path, e)),
    };
    let identity = match SiteIdentity::from_public_bytes(key.as_slice()) {
        Ok(id) => id,
        Err(e) => return Err(pin_error(pinned_site_id, path, e.to_string())),
    };
    let want = content_id_of(canonical);
    let pin = pinned_site_id.to_owned();
    let wanted_path = path.to_owned();
    let ghost list = records_view(records@);
    let mut i: usize = 0;
    while i < records.len()
        invariant
            i <= records@.len(),
            list == records_view(records@),
            want@ == content_id(canonical@),
            pin@ == pinned_site_id@,
            wanted_path@ == path@,
            identity.verify@ == hex_bytes(pinned_site_id@),
            forall|j: int|
                0 <= j < i ==> !vouches(
                    canonical@,
                    pinned_site_id@,
                    path@,
                    #[trigger] list[j],
                    now_unix,
                ),
            is_hex_text(pinned_site_id@),
            hex_bytes(pinned_site_id@).len() == 32,
            ed25519_key_fault(hex_bytes(pinned_site_id@)) is None,
        decreases records@.len() - i,
    {
        let rec = &records[i];
        assert(list[i as int] == rec@);
        if rec.record.path == wanted_path && rec.record.site == pin && rec.record.content_hash
            == want && identity.verify_record(rec, now_unix).is_ok() {
            assert(vouches(canonical@, pinned_site_id@, path@, list[i as int], now_unix));
            return Ok(());
        }
        i = i + 1;
    }
    Err(
        pin_error(
            pinned_site_id,
            path,
            "no signed record matches the fetched content".to_owned(),
        ),
    )
}

/// A page whose content id a site signed passes the pin of that site, until
/// the record expires; and a page with another content id never does on that
/// record alone.
pub proof fn law_signed_pages_pass_their_pin(
    key: Seq<u8>,
    path: Seq<char>,
    canonical: Seq<u8>,
    s: SignedView,
    now: u64,
)
    requires
        key.len() == 32,
        ed25519_key_fault(key) is None,
        s.record.site == hex_chars(key),
        s.record.path == path,
        record_fault(key, s, now) is None,
    ensures
        s.record.content_hash == content_id(canonical) <==> pin_fault(
            canonical,
            hex_chars(key),
            path,
            seq![s],
            now,
        ) is None,
{
    law_hex_round_trip(key);
    let records = seq![s];
    assert(records[0] == s);
    if s.record.content_hash == content_id(canonical) {
        assert(vouches(canonical, hex_chars(key), path, records[0], now));
    }
}

/// A target is a site with a path behind a slash, or a site alone, which
/// stands for its home page; what is read of a target spells that target.
pub proof fn law_targets(site: Seq<char>, path: Seq<char>, target: Seq<char>)
    ensures
        valid_site(site) && valid_path(path) ==> parsed_target(site + "/"@ + path) == Ok::<
            (Seq<char>, Seq<char>),
            BrowserErrorView,
        >((site, path)),
        valid_site(site) ==> parsed_target(site) == Ok::<(Seq<char>, Seq<char>), BrowserErrorView>(
            (site, "home"@),
        ),
        parsed_target(target) matches Ok((s, p)) ==> valid_site(s) && valid_path(p) && (target == s
            + "/"@ + p || (target == s && p == "home"@)),
        parsed_target(target) matches Err(e) ==> e is BadTarget,
{
    reveal_strlit("/");
    reveal_strlit("home");
    if valid_site(site) {
        assert forall|i: int| 0 <= i < site.len() implies site[i] != '/' by {
            assert(crate::protocol::site_char(site[i]));
        }
        crate::text::lemma_split_joined(site, '/', path);
        crate::text::lemma_split_none(site, '/');
        assert(site + "/"@ + path =~= site + seq!['/'] + path);
        let t = site + "/"@ + path;
        crate::text::lemma_index_of_unique(t, '/', site.len() as int);
        crate::text::lemma_index_of_unique(site, '/', site.len() as int);
        let home = "home"@;
        assert(home.len() == 4 && home[0] == 'h' && home[1] == 'o' && home[2] == 'm' && home[3]
            == 'e');
        assert(valid_path(home));
    }
    crate::text::lemma_index_of(target, '/');
    if index_of(target, '/') < target.len() {
        assert(target =~= head(target, '/') + "/"@ + tail(target, '/'));
    }
}

/// A page that came back is accepted exactly where its site and path are
/// valid, the server answered 200, and what it sent is a valid page.
pub proof fn law_when_pages_are_accepted(site: Seq<char>, path: Seq<char>, r: PageReply)
    ensures
        page_fault(site, path, r) is None <==> {
            &&& valid_site(site)
            &&& valid_path(path)
            &&& r.reply matches Ok((code, body)) && code == 200 && form_fault(body@, r.page) is None
        },
        valid_site(site) && valid_path(path) ==> match r.reply {
            Err(e) => page_fault(site, path, r) == Some(BrowserErrorView::Transport(e@)),
            Ok((code, body)) => code != 200 ==> page_fault(site, path, r) == Some(
                BrowserErrorView::Status(code, lossy_text(body@)),
            ),
        },
        fetched_page(site, path, r) is Ok <==> page_fault(site, path, r) is None,
        fetched_page(site, path, r) matches Ok(p) ==> (r.page matches Ok(page) && p == page@),
{
}

/// The records that came back are those that the server sent with 200, and
/// none where it answered 404; any other answer is an error.
pub proof fn law_when_records_are_accepted(site: Seq<char>, path: Seq<char>, r: RecordsReply)
    requires
        checked_records_target(TargetView { site, path }) is Ok,
    ensures
        match r.reply {
            Err(e) => fetched_records(site, path, r) == Err::<Seq<SignedView>, BrowserErrorView>(
                BrowserErrorView::Transport(e@),
            ),
            Ok((code, body)) => {
                &&& code == 200 ==> match r.records {
                    Ok(list) => fetched_records(site, path, r) == Ok::<
                        Seq<SignedView>,
                        BrowserErrorView,
                    >(records_view(list@)),
                    Err(_) => fetched_records(site, path, r) is Err,
                }
                &&& code == 404 ==> fetched_records(site, path, r) == Ok::<
                    Seq<SignedView>,
                    BrowserErrorView,
                >(Seq::empty())
                &&& code != 200 && code != 404 ==> fetched_records(site, path, r) == Err::<
                    Seq<SignedView>,
                    BrowserErrorView,
                >(BrowserErrorView::Status(code, lossy_text(body@)))
            },
        },
{
}

/// A page passes a pin exactly where the pin spells a key of 32 bytes and at
/// least one of the records is for that very key, the path and the content of
/// the page, and holds under the key now.
pub proof fn law_when_pins_hold(
    canonical: Seq<u8>,
    pin: Seq<char>,
    path: Seq<char>,
    records: Seq<SignedView>,
    now: u64,
)
    ensures
        pin_fault(canonical, pin, path, records, now) is None <==> {
            &&& is_hex_text(pin)
            &&& pin.len() == 64
            &&& ed25519_key_fault(hex_bytes(pin)) is None
            &&& exists|i: int|
                0 <= i < records.len() && (#[trigger] records[i]).record.path == path
                    && records[i].record.site == pin && records[i].record.content_hash
                    == content_id(canonical) && record_fault(hex_bytes(pin), records[i], now)
                    is None
        },
        pin_fault(canonical, pin, path, records, now) matches Some(e) ==> (
        e matches BrowserErrorView::PinMismatch { site, path: at, .. } && site == pin && at == path),
{
    if pin_fault(canonical, pin, path, records, now) is None {
        let i = choose|i: int|
            0 <= i < records.len() && vouches(canonical, pin, path, #[trigger] records[i], now);
        assert(records[i].record.path == path);
    }
}

/// The text of an error names the layer that it comes from and ends with what
/// that layer says; a refusal by the server gives its status, and a refused
/// pin gives the page.
pub proof fn law_error_texts(
    r: crate::resolver::ResolveErrorView,
    t: crate::transport::TransportErrorView,
    p: crate::protocol::ProtocolErrorView,
    code: u16,
    a: Seq<char>,
    b: Seq<char>,
    why: Seq<char>,
)
    ensures
        error_text(BrowserErrorView::Resolve(r)) == "resolve: "@ + crate::resolver::error_text(r),
        error_text(BrowserErrorView::Transport(t)) == "transport: "@ + crate::transport::error_text(
            t,
        ),
        error_text(BrowserErrorView::Protocol(p)) == "protocol: "@ + crate::protocol::error_text(p),
        error_text(BrowserErrorView::Content(why)) == "content: "@ + why,
        error_text(BrowserErrorView::Cache(why)) == "cache: "@ + why,
        error_text(BrowserErrorView::Status(code, why)) == "server returned "@ + dec_chars(
            code as nat,
        ) + ": "@ + why,
        error_text(BrowserErrorView::BadTarget(a, why)) == "bad target '"@ + a + "': "@ + why,
        error_text(BrowserErrorView::PinRecordsRequired(a)) == "route pins site "@ + a
            + " but no signed records were provided; refusing to fetch"@,
        error_text(BrowserErrorView::PinMismatch { site: a, path: b, reason: why })
            == "pinned page verification failed for "@ + a + "/"@ + b + ": "@ + why,
{
}

/// Why a target is refused: it names nothing, or what it names is no site or
/// no path.
pub proof fn law_refused_targets(site: Seq<char>, path: Seq<char>)
    requires
        !site.contains('/'),
    ensures
        ({
            let target = site + "/"@ + path;
            &&& site.len() == 0 || path.len() == 0 ==> parsed_target(target) == Err::<
                (Seq<char>, Seq<char>),
                BrowserErrorView,
            >(BrowserErrorView::BadTarget(target, "empty site or path"@))
            &&& site.len() > 0 && path.len() > 0 && !valid_site(site) ==> parsed_target(target)
                == Err::<(Seq<char>, Seq<char>), BrowserErrorView>(
                BrowserErrorView::BadTarget(site, "invalid site name"@),
            )
            &&& valid_site(site) && path.len() > 0 && !valid_path(path) ==> parsed_target(target)
                == Err::<(Seq<char>, Seq<char>), BrowserErrorView>(
                BrowserErrorView::BadTarget(path, "invalid path"@),
            )
            &&& site.len() > 0 && !valid_site(site) ==> parsed_target(site) == Err::<
                (Seq<char>, Seq<char>),
                BrowserErrorView,
            >(BrowserErrorView::BadTarget(site, "invalid site name"@))
        }),
{
    reveal_strlit("/");
    reveal_strlit("home");
    let target = site + "/"@ + path;
    assert(target =~= site.push('/') + path);
    crate::text::law_cut_at_the_first_separator(site, '/', path);
    assert(target[site.len() as int] == '/');
    lemma_at_most(target, site.len());
    lemma_not_there(site);
}

/// A separator is found no later than where one stands.
proof fn lemma_at_most(s: Seq<char>, n: nat)
    requires
        n < s.len(),
        s[n as int] == '/',
    ensures
        index_of(s, '/') <= n,
    decreases s.len(),
{
    if s[0] != '/' {
        assert(s.skip(1)[n - 1] == '/');
        lemma_at_most(s.skip(1), (n - 1) as nat);
    }
}

/// A separator that is not there is found nowhere.
proof fn lemma_not_there(s: Seq<char>)
    requires
        !s.contains('/'),
    ensures
        index_of(s, '/') == s.len(),
    decreases s.len(),
{
    if s.len() > 0 {
        assert(s.contains(s[0]));
        assert forall|i: int| 0 <= i < s.skip(1).len() implies s.skip(1)[i] != '/' by {
            assert(s.contains(s[i + 1]));
        }
        lemma_not_there(s.skip(1));
    }
}

/// Why a pin does not hold: it is no hexadecimal text, no key by its length or
/// as a point, or no record vouches for the content under it.
pub proof fn law_why_pins_fail(
    canonical: Seq<u8>,
    pin: Seq<char>,
    path: Seq<char>,
    records: Seq<SignedView>,
    now: u64,
)
    ensures
        pin_fault(canonical, pin, path, records, now) matches Some(
            BrowserErrorView::PinMismatch { reason, .. },
        ) ==> reason == if !is_hex_text(pin) {
            hex_fault(pin)
        } else if pin.len() != 64 {
            "bad key length: expected 32 bytes, got "@ + dec_chars(pin.len() / 2)
        } else {
            match ed25519_key_fault(hex_bytes(pin)) {
                Some(why) => "bad signature: "@ + why,
                None => "no signed record matches the fetched content"@,
            }
        },
{
}

/// Records are refused for their target, and as content where their body is
/// no list of records.
pub proof fn law_refused_records(site: Seq<char>, path: Seq<char>, r: RecordsReply)
    ensures
        checked_records_target(TargetView { site, path }) matches Err(e) ==> fetched_records(
            site,
            path,
            r,
        ) == Err::<Seq<SignedView>, BrowserErrorView>(BrowserErrorView::Protocol(e)),
        checked_records_target(TargetView { site, path }) is Ok && (r.reply matches Ok((code, _))
            && code == 200) ==> (r.records matches Err(e) ==> fetched_records(site, path, r)
            == Err::<Seq<SignedView>, BrowserErrorView>(
            BrowserErrorView::Content("bad records body: "@ + e@),
        )),
{
}

} // verus!
