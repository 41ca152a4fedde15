//! From a name to a page: what to ask, and what becomes of the replies.

use crate::browser::cache::{
    after_fetch, after_verified_fetch, cached_fetch, is_chain_stored, is_stored,
    is_stored_verified, verified_fetch, BlobWrite, CacheFetch, CacheFetchView, CacheStatus, LocalChain, LocalPage, OfflineCache,
};
use crate::browser::{
    check_page, fetch_page, fetch_records, fetched_page, fetched_records, is_vouched, page_fault,
    page_line, pin_fault, records_line, records_view, verify_pinned, BrowserError, BrowserErrorView,
    PageReply, RecordsReply,
};
use crate::content::{opt_text, Page, PageView};
use crate::digest::content_id;
use crate::identity::{SignedRecord, SignedView};
use crate::protocol::{
    checked_records_target, checked_target, encoded, valid_path, valid_site, TargetView,
};
use crate::resolver::{looked_up, LocalResolver, Resolver, RouteView};
use vstd::prelude::*;
use vstd::string::*;

verus! {

/// The first endpoint of a site, and the site key that its route pins.
pub open spec fn first_route(routes: Map<Seq<char>, RouteView>, site: Seq<char>) -> Result<
    (Seq<char>, Option<Seq<char>>),
    BrowserErrorView,
> {
    match looked_up(routes, site) {
        Err(e) => Err(BrowserErrorView::Resolve(e)),
        Ok(r) => if r.endpoints.len() == 0 {
            Err(BrowserErrorView::Content("route has no endpoints"@))
        } else {
            Ok((r.endpoints[0], r.pinned_site_id))
        },
    }
}

/// The page that came back under a pin: it needs a record that vouches for
/// it.
pub open spec fn pinned_page(
    site: Seq<char>,
    path: Seq<char>,
    pin: Option<Seq<char>>,
    records: Seq<SignedView>,
    r: PageReply,
    now: u64,
) -> Result<PageView, BrowserErrorView> {
    match (page_fault(site, path, r), pin) {
        (Some(e), _) => Err(e),
        (None, None) => Ok(r.page->Ok_0@),
        (None, Some(pin)) => if records.len() == 0 {
            Err(BrowserErrorView::PinRecordsRequired(pin))
        } else {
            match pin_fault(r.canonical@, pin, path, records, now) {
                Some(e) => Err(e),
                None => Ok(r.page->Ok_0@),
            }
        },
    }
}

/// The page of a site by a given chain of records: a pinned route needs a
/// record that vouches for the page.
pub open spec fn navigated(
    routes: Map<Seq<char>, RouteView>,
    site: Seq<char>,
    path: Seq<char>,
    records: Seq<SignedView>,
    r: PageReply,
    now: u64,
) -> Result<PageView, BrowserErrorView> {
    match first_route(routes, site) {
        Err(e) => Err(e),
        Ok((_, pin)) => pinned_page(site, path, pin, records, r, now),
    }
}

/// The page of a site by the chain of records that its server sends: where
/// the route is pinned, and there is no chain, the page is not even looked
/// at.
pub open spec fn navigated_verified(
    routes: Map<Seq<char>, RouteView>,
    site: Seq<char>,
    path: Seq<char>,
    chain: RecordsReply,
    r: PageReply,
    now: u64,
) -> Result<PageView, BrowserErrorView> {
    match first_route(routes, site) {
        Err(e) => Err(e),
        Ok((_, None)) => fetched_page(site, path, r),
        Ok((_, Some(pin))) => match fetched_records(site, path, chain) {
            Err(e) => Err(e),
            Ok(records) => if records.len() == 0 {
                Err(BrowserErrorView::PinRecordsRequired(pin))
            } else {
                navigated(routes, site, path, records, r, now)
            },
        },
    }
}

/// The first endpoint of a site, and the site key that its route pins.
pub fn first_endpoint(resolver: &LocalResolver, site: &str) -> (out: Result<
    (String, Option<String>),
    BrowserError,
>)
    ensures
        match out {
            Ok(r) => first_route(resolver@, site@) == Ok::<
                (Seq<char>, Option<Seq<char>>),
                BrowserErrorView,
            >((r.0@, opt_text(r.1))),
            Err(e) => first_route(resolver@, site@) == Err::<
                (Seq<char>, Option<Seq<char>>),
                BrowserErrorView,
            >(e@),
        },
{
    let route = match resolver.resolve(site) {
        Ok(r) => r,
        Err(e) => return Err(BrowserError::Resolve(e)),
    };
    if route.endpoints.len() == 0 {
        return Err(BrowserError::Content("route has no endpoints".to_owned()));
    }
    Ok((route.endpoints[0].clone(), route.pinned_site_id))
}

/// The page that came back under a pin.
pub fn accept_page(
    site: &str,
    path: &str,
    pin: &Option<String>,
    records: &Vec<SignedRecord>,
    r: PageReply,
    now: u64,
) -> (out: Result<Page, BrowserError>)
    ensures
        match out {
            Ok(p) => pinned_page(site@, path@, opt_text(*pin), records_view(records@), r, now)
                == Ok::<PageView, BrowserErrorView>(p@),
            Err(e) => pinned_page(site@, path@, opt_text(*pin), records_view(records@), r, now)
                == Err::<PageView, BrowserErrorView>(e@),
        },
{
    match check_page(site, path, &r) {
        Ok(_) => {},
        Err(e) => return Err(e),
    }
    if let Some(pin) = pin {
        if records.len() == 0 {
            return Err(BrowserError::PinRecordsRequired(pin.clone()));
        }
        match verify_pinned(r.canonical.as_slice(), pin.as_str(), path, records, now) {
            Ok(_) => {},
            Err(e) => return Err(e),
        }
    }
    match r.page {
        Ok(p) => Ok(p),
        Err(e) => Err(BrowserError::Content(e)),
    }
}

/// The page of a site by a given chain of records.
pub fn navigate_with_records(
    resolver: &LocalResolver,
    site: &str,
    path: &str,
    records: &Vec<SignedRecord>,
    r: PageReply,
    now: u64,
) -> (out: Result<Page, BrowserError>)
    ensures
        match out {
            Ok(p) => navigated(resolver@, site@, path@, records_view(records@), r, now) == Ok::<
                PageView,
                BrowserErrorView,
            >(p@),
            Err(e) => navigated(resolver@, site@, path@, records_view(records@), r, now) == Err::<
                PageView,
                BrowserErrorView,
            >(e@),
        },
{
    match first_endpoint(resolver, site) {
        Ok((_, pin)) => accept_page(site, path, &pin, records, r, now),
        Err(e) => Err(e),
    }
}

/// The page of a site without any record: a pinned route is refused.
pub fn navigate(resolver: &LocalResolver, site: &str, path: &str, r: PageReply) -> (out: Result<
    Page,
    BrowserError,
>)
    ensures
        match out {
            Ok(p) => navigated(resolver@, site@, path@, Seq::empty(), r, 0) == Ok::<
                PageView,
                BrowserErrorView,
            >(p@),
            Err(e) => navigated(resolver@, site@, path@, Seq::empty(), r, 0) == Err::<
                PageView,
                BrowserErrorView,
            >(e@),
        },
{
    let none: Vec<SignedRecord> = Vec::new();
    assert(records_view(none@) =~= Seq::empty());
    navigate_with_records(resolver, site, path, &none, r, 0)
}

/// The page of a site by the chain of records that its server sends.
pub fn navigate_verified(
    resolver: &LocalResolver,
    site: &str,
    path: &str,
    chain: RecordsReply,
    r: PageReply,
    now: u64,
) -> (out: Result<Page, BrowserError>)
    ensures
        match out {
            Ok(p) => navigated_verified(resolver@, site@, path@, chain, r, now) == Ok::<
                PageView,
                BrowserErrorView,
            >(p@),
            Err(e) => navigated_verified(resolver@, site@, path@, chain, r, now) == Err::<
                PageView,
                BrowserErrorView,
            >(e@),
        },
{
    let (_, pin) = match first_endpoint(resolver, site) {
        Ok(route) => route,
        Err(e) => return Err(e),
    };
    let pin = match pin {
        Some(pin) => pin,
        None => return fetch_page(site, path, r),
    };
    let records = match fetch_records(site, path, chain) {
        Ok(list) => list,
        Err(e) => return Err(e),
    };
    if records.len() == 0 {
        return Err(BrowserError::PinRecordsRequired(pin));
    }
    navigate_with_records(resolver, site, path, &records, r, now)
}

/// What came of a fetch through the cache, with the blobs to be written.
#[derive(Debug)]
pub struct CachedPage {
    pub fetch: CacheFetch,
    pub writes: Vec<BlobWrite>,
}

/// One blob is to be written, where it is stored.
pub open spec fn one_write(writes: Seq<BlobWrite>, stored: bool, bytes: Seq<u8>) -> bool {
    if stored {
        writes.len() == 1 && writes[0].holds(bytes)
    } else {
        writes.len() == 0
    }
}

/// The blobs to be written are the records, where they are stored, and behind
/// them the page, where it is stored too.
pub open spec fn two_writes(
    writes: Seq<BlobWrite>,
    chain_stored: bool,
    page_stored: bool,
    chain: Seq<u8>,
    page: Seq<u8>,
) -> bool {
    if chain_stored && page_stored {
        writes.len() == 2 && writes[0].holds(chain) && writes[1].holds(page)
    } else {
        one_write(writes, chain_stored, chain)
    }
}

/// The page of a site through the offline cache; a pin of the route plays no
/// part.
pub fn navigate_cached(
    resolver: &LocalResolver,
    cache: &mut OfflineCache,
    site: &str,
    path: &str,
    r: PageReply,
    local: LocalPage,
    now: u64,
) -> (out: Result<CachedPage, BrowserError>)
    ensures
        match first_route(resolver@, site@) {
            Err(e) => (out matches Err(f) && f@ == e) && final(cache)@ == old(cache)@,
            Ok(_) => {
                &&& out matches Ok(c) && c.fetch@ == cached_fetch(
                    old(cache)@,
                    site@,
                    path@,
                    r,
                    local,
                ) && one_write(c.writes@, is_stored(site@, path@, r), r.canonical@)
                &&& final(cache)@ == after_fetch(old(cache)@, site@, path@, r, local, now)
            },
        },
        final(cache).dir@ == old(cache).dir@,
        final(cache).blobs@ == old(cache).blobs@,
{
    match first_endpoint(resolver, site) {
        Ok(_) => {},
        Err(e) => return Err(e),
    }
    let (fetch, write) = cache.fetch(site, path, r, local, now);
    let mut writes: Vec<BlobWrite> = Vec::new();
    if let Some(w) = write {
        writes.push(w);
    }
    Ok(CachedPage { fetch, writes })
}

/// The outcome of a verified fetch as that of a fetch.
pub open spec fn as_fetch(
    r: Result<(PageView, CacheStatus), BrowserErrorView>,
) -> CacheFetchView {
    match r {
        Ok((page, status)) => CacheFetchView::Served(page, status),
        Err(e) => CacheFetchView::Failed(e),
    }
}

/// What came back on a verified fetch, and what the cache holds for it.
#[derive(Debug)]
pub struct VerifiedReply {
    pub page: PageReply,
    pub chain: RecordsReply,
    pub chain_json: Vec<u8>,
    pub old_chain: LocalChain,
}

/// The page of a site through the offline cache: verified where the route is
/// pinned.
pub fn navigate_cached_verified(
    resolver: &LocalResolver,
    cache: &mut OfflineCache,
    site: &str,
    path: &str,
    v: VerifiedReply,
    local: LocalPage,
    now: u64,
) -> (out: Result<CachedPage, BrowserError>)
    ensures
        match first_route(resolver@, site@) {
            Err(e) => (out matches Err(f) && f@ == e) && final(cache)@ == old(cache)@,
            Ok((_, None)) => {
                &&& out matches Ok(c) && c.fetch@ == cached_fetch(
                    old(cache)@,
                    site@,
                    path@,
                    v.page,
                    local,
                ) && one_write(c.writes@, is_stored(site@, path@, v.page), v.page.canonical@)
                &&& final(cache)@ == after_fetch(old(cache)@, site@, path@, v.page, local, now)
            },
            Ok((_, Some(pin))) => {
                &&& out matches Ok(c) && c.fetch@ == as_fetch(
                    verified_fetch(
                        old(cache)@,
                        site@,
                        path@,
                        pin,
                        v.page,
                        v.chain,
                        v.old_chain,
                        local,
                        now,
                    ),
                ) && two_writes(
                    c.writes@,
                    is_chain_stored(
                        site@,
                        path@,
                        pin,
                        v.page,
                        v.chain,
                        v.chain_json@,
                        now,
                    ),
                    is_stored_verified(
                        site@,
                        path@,
                        pin,
                        v.page,
                        v.chain,
                        v.chain_json@,
                        now,
                    ),
                    v.chain_json@,
                    v.page.canonical@,
                )
                &&& final(cache)@ == after_verified_fetch(
                    old(cache)@,
                    site@,
                    path@,
                    pin,
                    v.page,
                    v.chain,
                    v.chain_json@,
                    v.old_chain,
                    local,
                    now,
                )
            },
        },
        final(cache).dir@ == old(cache).dir@,
        final(cache).blobs@ == old(cache).blobs@,
{
    let pin = match first_endpoint(resolver, site) {
        Ok((_, pin)) => pin,
        Err(e) => return Err(e),
    };
    let pin = match pin {
        Some(pin) => pin,
        None => return navigate_cached(resolver, cache, site, path, v.page, local, now),
    };
    let (done, (chain_write, page_write)) = cache.fetch_verified(
        site,
        path,
        pin.as_str(),
        v.page,
        v.chain,
        v.chain_json.as_slice(),
        v.old_chain,
        local,
        now,
    );
    let mut list: Vec<BlobWrite> = Vec::new();
    if let Some(w) = chain_write {
        list.push(w);
    }
    if let Some(w) = page_write {
        list.push(w);
    }
    let fetch = match done {
        Ok((page, status)) => CacheFetch::Served(page, status),
        Err(e) => CacheFetch::Failed(e),
    };
    Ok(CachedPage { fetch, writes: list })
}

/// What to send to an endpoint next.
#[derive(Debug, Clone, PartialEq, Eq)]
pub enum Ask {
    /// The line that asks for the signed records.
    Records(String),
    /// The line that asks for the page.
    Page(String),
}

/// The mathematical value of an [`Ask`].
pub enum AskView {
    Records(Seq<char>),
    Page(Seq<char>),
}

impl View for Ask {
    type V = AskView;

    open spec fn view(&self) -> AskView {
        match self {
            Ask::Records(s) => AskView::Records(s@),
            Ask::Page(s) => AskView::Page(s@),
        }
    }
}

/// What to ask for next under a pin, with the records as far as they came:
/// without a pin the page; with one the records first, and the page only
/// where there are records.
pub open spec fn next_ask(
    site: Seq<char>,
    path: Seq<char>,
    pin: Option<Seq<char>>,
    chain: Option<RecordsReply>,
) -> Result<AskView, BrowserErrorView> {
    let target = TargetView { site, path };
    let page = match encoded("FETCH"@, checked_target(target)) {
        Ok(line) => Ok(AskView::Page(line)),
        Err(e) => Err(BrowserErrorView::Protocol(e)),
    };
    match (pin, chain) {
        (None, _) => page,
        (Some(_), None) => match encoded("RECORDS"@, checked_records_target(target)) {
            Ok(line) => Ok(AskView::Records(line)),
            Err(e) => Err(BrowserErrorView::Protocol(e)),
        },
        (Some(pin), Some(chain)) => match fetched_records(site, path, chain) {
            Err(e) => Err(e),
            Ok(records) => if records.len() == 0 {
                Err(BrowserErrorView::PinRecordsRequired(pin))
            } else {
                page
            },
        },
    }
}

/// What to ask for next under a pin; hands the records back where they came.
pub fn ask_next(
    site: &str,
    path: &str,
    pin: &Option<String>,
    chain: Option<RecordsReply>,
) -> (out: Result<(Ask, Vec<SignedRecord>), BrowserError>)
    ensures
        match out {
            Ok(a) => {
                &&& next_ask(site@, path@, opt_text(*pin), chain) == Ok::<
                    AskView,
                    BrowserErrorView,
                >(a.0@)
                &&& (*pin is Some && chain is Some) ==> fetched_records(site@, path@, chain->0)
                    == Ok::<Seq<SignedView>, BrowserErrorView>(records_view(a.1@))
                &&& (*pin is None || chain is None) ==> a.1@.len() == 0
            },
            Err(e) => next_ask(site@, path@, opt_text(*pin), chain) == Err::<
                AskView,
                BrowserErrorView,
            >(e@),
        },
{
    let none: Vec<SignedRecord> = Vec::new();
    let records = match (pin, chain) {
        (None, _) => none,
        (Some(_), None) => {
            return match records_line(site, path) {
                Ok(line) => Ok((Ask::Records(line), none)),
                Err(e) => Err(e),
            };
        },
        (Some(pin), Some(chain)) => match fetch_records(site, path, chain) {
            Err(e) => return Err(e),
            Ok(list) => {
                if list.len() == 0 {
                    return Err(BrowserError::PinRecordsRequired(pin.clone()));
                }
                list
            },
        },
    };
    match page_line(site, path) {
        Ok(line) => Ok((Ask::Page(line), records)),
        Err(e) => Err(e),
    }
}

/// What to ask for next on a verified fetch through the cache, with the page
/// as far as it came: the page first, and its records only where the page is
/// a good one; nothing more where it is not.
pub open spec fn next_cached_ask(
    site: Seq<char>,
    path: Seq<char>,
    page: Option<PageReply>,
) -> Result<Option<AskView>, BrowserErrorView> {
    let target = TargetView { site, path };
    match page {
        None => match encoded("FETCH"@, checked_target(target)) {
            Ok(line) => Ok(Some(AskView::Page(line))),
            Err(e) => Err(BrowserErrorView::Protocol(e)),
        },
        Some(r) => if page_fault(site, path, r) is Some {
            Ok(None)
        } else {
            match encoded("RECORDS"@, checked_records_target(target)) {
                Ok(line) => Ok(Some(AskView::Records(line))),
                Err(e) => Err(BrowserErrorView::Protocol(e)),
            }
        },
    }
}

/// What to ask for next on a verified fetch through the cache.
pub fn ask_cached(site: &str, path: &str, page: Option<&PageReply>) -> (out: Result<
    Option<Ask>,
    BrowserError,
>)
    ensures
        ({
            let came = match page {
                Some(r) => Some(*r),
                None => None,
            };
            match out {
                Ok(Some(a)) => next_cached_ask(site@, path@, came) == Ok::<
                    Option<AskView>,
                    BrowserErrorView,
                >(Some(a@)),
                Ok(None) => next_cached_ask(site@, path@, came) == Ok::<
                    Option<AskView>,
                    BrowserErrorView,
                >(None),
                Err(e) => next_cached_ask(site@, path@, came) == Err::<
                    Option<AskView>,
                    BrowserErrorView,
                >(e@),
            }
        }),
{
    let reply = match page {
        None => {
            return match page_line(site, path) {
                Ok(line) => Ok(Some(Ask::Page(line))),
                Err(e) => Err(e),
            };
        },
        Some(reply) => reply,
    };
    if check_page(site, path, reply).is_err() {
        return Ok(None);
    }
    match records_line(site, path) {
        Ok(line) => Ok(Some(Ask::Records(line))),
        Err(e) => Err(e),
    }
}

/// A page that a pinned route gives is vouched for: by a record of the pinned
/// site, for the path and the content of the page, that holds now.
pub proof fn law_pinned_pages_are_vouched_for(
    routes: Map<Seq<char>, RouteView>,
    site: Seq<char>,
    path: Seq<char>,
    chain: RecordsReply,
    records: Seq<SignedView>,
    r: PageReply,
    now: u64,
)
    ensures
        first_route(routes, site) matches Ok((_, Some(pin))) ==> {
            &&& navigated(routes, site, path, records, r, now) is Ok ==> is_vouched(
                r.canonical@,
                pin,
                path,
                records,
                now,
            )
            &&& navigated_verified(routes, site, path, chain, r, now) is Ok ==> (fetched_records(
                site,
                path,
                chain,
            ) matches Ok(sent) && is_vouched(r.canonical@, pin, path, sent, now))
        },
{
}

/// A pinned route without a chain is refused whatever the page is; and where
/// the page is not asked for, no reply to that changes the outcome.
pub proof fn law_no_chain_no_page(
    routes: Map<Seq<char>, RouteView>,
    site: Seq<char>,
    path: Seq<char>,
    chain: RecordsReply,
    r: PageReply,
    now: u64,
)
    ensures
        first_route(routes, site) matches Ok((_, pin)) ==> {
            &&& next_ask(site, path, pin, Some(chain)) matches Err(e) ==> navigated_verified(
                routes,
                site,
                path,
                chain,
                r,
                now,
            ) == Err::<PageView, BrowserErrorView>(e)
            &&& pin matches Some(p) ==> navigated(routes, site, path, Seq::empty(), r, now) is Err
        },
{
}

/// A site is asked at the first endpoint of its own route, under the pin of
/// that route.
pub proof fn law_the_first_endpoint_is_asked(
    routes: Map<Seq<char>, RouteView>,
    site: Seq<char>,
)
    ensures
        first_route(routes, site) is Ok <==> looked_up(routes, site) is Ok
            && routes[site].endpoints.len() > 0,
        first_route(routes, site) matches Ok((endpoint, pin)) ==> endpoint
            == routes[site].endpoints[0] && pin == routes[site].pinned_site_id,
        looked_up(routes, site) matches Err(e) ==> first_route(routes, site) == Err::<
            (Seq<char>, Option<Seq<char>>),
            BrowserErrorView,
        >(BrowserErrorView::Resolve(e)),
{
}

/// A page is shown exactly where it is a good one and, under a pin, there are
/// records and they vouch for it; what is shown is the page that was sent.
pub proof fn law_when_pages_are_shown(
    routes: Map<Seq<char>, RouteView>,
    site: Seq<char>,
    path: Seq<char>,
    records: Seq<SignedView>,
    r: PageReply,
    now: u64,
)
    ensures
        first_route(routes, site) matches Ok((_, pin)) ==> {
            &&& navigated(routes, site, path, records, r, now) is Ok <==> page_fault(
                site,
                path,
                r,
            ) is None && (pin matches Some(p) ==> records.len() > 0 && pin_fault(
                r.canonical@,
                p,
                path,
                records,
                now,
            ) is None)
            &&& navigated(routes, site, path, records, r, now) matches Ok(p) ==> (
            r.page matches Ok(page) && p == page@)
            &&& pin is Some && records.len() == 0 && page_fault(site, path, r) is None ==> navigated(
                routes,
                site,
                path,
                records,
                r,
                now,
            ) == Err::<PageView, BrowserErrorView>(
                BrowserErrorView::PinRecordsRequired(pin->0),
            )
        },
        first_route(routes, site) matches Err(e) ==> navigated(
            routes,
            site,
            path,
            records,
            r,
            now,
        ) == Err::<PageView, BrowserErrorView>(e),
{
}

/// With the records that the server sends, a page is shown exactly where it
/// would be with these records given; without a pin none are asked for.
pub proof fn law_verified_navigation(
    routes: Map<Seq<char>, RouteView>,
    site: Seq<char>,
    path: Seq<char>,
    chain: RecordsReply,
    r: PageReply,
    now: u64,
)
    ensures
        first_route(routes, site) matches Ok((_, None)) ==> navigated_verified(
            routes,
            site,
            path,
            chain,
            r,
            now,
        ) == fetched_page(site, path, r),
        first_route(routes, site) matches Ok((_, Some(pin))) ==> match fetched_records(
            site,
            path,
            chain,
        ) {
            Err(e) => navigated_verified(routes, site, path, chain, r, now) == Err::<
                PageView,
                BrowserErrorView,
            >(e),
            Ok(records) => {
                &&& records.len() == 0 ==> navigated_verified(routes, site, path, chain, r, now)
                    == Err::<PageView, BrowserErrorView>(BrowserErrorView::PinRecordsRequired(pin))
                &&& records.len() > 0 ==> navigated_verified(routes, site, path, chain, r, now)
                    == navigated(routes, site, path, records, r, now)
            },
        },
{
}

/// Under a pin the records are asked for first, and the page only once there
/// are some; without one the page alone.
pub proof fn law_records_are_asked_for_first(
    site: Seq<char>,
    path: Seq<char>,
    pin: Seq<char>,
    chain: RecordsReply,
    reply: PageReply,
)
    requires
        valid_site(site),
        valid_path(path),
    ensures
        next_ask(site, path, None, None) == Ok::<AskView, BrowserErrorView>(
            AskView::Page("NXP/0.1 FETCH "@ + site + " "@ + path + "\n"@),
        ),
        next_ask(site, path, Some(pin), None) == Ok::<AskView, BrowserErrorView>(
            AskView::Records("NXP/0.1 RECORDS "@ + site + " "@ + path + "\n"@),
        ),
        next_ask(site, path, Some(pin), Some(chain)) is Ok <==> (fetched_records(
            site,
            path,
            chain,
        ) matches Ok(records) && records.len() > 0),
        next_ask(site, path, Some(pin), Some(chain)) matches Ok(a) ==> a == AskView::Page(
            "NXP/0.1 FETCH "@ + site + " "@ + path + "\n"@,
        ),
        next_cached_ask(site, path, None) == Ok::<Option<AskView>, BrowserErrorView>(
            Some(AskView::Page("NXP/0.1 FETCH "@ + site + " "@ + path + "\n"@)),
        ),
        next_cached_ask(site, path, Some(reply)) == if page_fault(site, path, reply) is None {
            Ok::<Option<AskView>, BrowserErrorView>(
                Some(AskView::Records("NXP/0.1 RECORDS "@ + site + " "@ + path + "\n"@)),
            )
        } else {
            Ok(None)
        },
{
    crate::protocol::law_request_lines(site, path);
}

/// A page is taken where nothing is wrong with it and, under a pin, where
/// records vouch for it; without a pin no records are needed.
pub proof fn law_when_pages_are_taken(
    site: Seq<char>,
    path: Seq<char>,
    pin: Seq<char>,
    records: Seq<SignedView>,
    r: PageReply,
    now: u64,
)
    ensures
        page_fault(site, path, r) matches Some(e) ==> pinned_page(
            site,
            path,
            None,
            records,
            r,
            now,
        ) == Err::<PageView, BrowserErrorView>(e) && pinned_page(
            site,
            path,
            Some(pin),
            records,
            r,
            now,
        ) == Err::<PageView, BrowserErrorView>(e),
        page_fault(site, path, r) is None ==> pinned_page(site, path, None, records, r, now)
            == Ok::<PageView, BrowserErrorView>(r.page->Ok_0@),
        page_fault(site, path, r) is None && records.len() == 0 ==> pinned_page(
            site,
            path,
            Some(pin),
            records,
            r,
            now,
        ) == Err::<PageView, BrowserErrorView>(BrowserErrorView::PinRecordsRequired(pin)),
        page_fault(site, path, r) is None && records.len() > 0 ==> pinned_page(
            site,
            path,
            Some(pin),
            records,
            r,
            now,
        ) == match pin_fault(r.canonical@, pin, path, records, now) {
            Some(e) => Err::<PageView, BrowserErrorView>(e),
            None => Ok(r.page->Ok_0@),
        },
{
}

/// What is to be written is told apart: the chain stands before the page, and
/// a page is never written without its chain.
pub proof fn law_writes_hold_their_bytes(
    writes: Seq<BlobWrite>,
    stored: bool,
    page_stored: bool,
    chain: Seq<u8>,
    page: Seq<u8>,
)
    ensures
        one_write(writes, stored, page) <==> writes.len() == (if stored {
            1nat
        } else {
            0nat
        }) && (stored ==> writes[0].bytes@ == page && writes[0].id@ == content_id(page)
            && writes[0].shard@ == content_id(page).subrange(3, 5) && writes[0].rest@
            == content_id(page).subrange(5, 67)),
        two_writes(writes, stored, page_stored, chain, page) ==> writes.len() == (if !stored {
            0nat
        } else if page_stored {
            2nat
        } else {
            1nat
        }) && (stored ==> writes[0].bytes@ == chain && writes[0].id@ == content_id(chain)) && (
        stored && page_stored ==> writes[1].bytes@ == page && writes[1].id@ == content_id(page)),
{
}

} // verus!
