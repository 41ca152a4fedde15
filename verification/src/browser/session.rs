//! A browsing session: names, history, and how pages are fetched.

use crate::browser::cache::{CacheStatus, OfflineCache};
use crate::browser::history::{
    can_go_back, can_go_forward, gone_back, gone_forward, no_visits, past_and_present, visited,
    with_page, History, HistoryView, Visit, VisitView,
};
use crate::browser::navigate::{first_endpoint, first_route};
use crate::browser::{parse_target, parsed_target, BrowserError, BrowserErrorView};
use crate::content::{copy_opt, opt_text, texts, Page, PageView};
use crate::protocol::{is_valid_site, valid_site};
use crate::renderer::{page_text, render_text};
use crate::resolver::{LocalResolver, Route, RouteView};
use vstd::prelude::*;
use vstd::string::*;

verus! {

/// A session against one server. Every site that is visited gets a route to
/// that server, pinned where the session is.
#[derive(Debug)]
pub struct ClientSession {
    resolver: LocalResolver,
    server: String,
    pin: Option<String>,
    statuses: Vec<Option<CacheStatus>>,
    /// The offline cache, where pages are fetched through one.
    pub cache: Option<OfflineCache>,
    pub history: History,
}

/// The mathematical value of a [`ClientSession`].
pub struct SessionView {
    pub routes: Map<Seq<char>, RouteView>,
    pub server: Seq<char>,
    pub pin: Option<Seq<char>>,
    pub cache: Option<OfflineCache>,
    /// How the visits were obtained, oldest first, as far as they were
    /// fetched.
    pub statuses: Seq<Option<CacheStatus>>,
    pub history: HistoryView,
}

impl View for ClientSession {
    type V = SessionView;

    closed spec fn view(&self) -> SessionView {
        SessionView {
            routes: self.resolver@,
            server: self.server@,
            pin: opt_text(self.pin),
            cache: self.cache,
            statuses: self.statuses@,
            history: self.history@,
        }
    }
}

/// A page to be fetched, and from where. A pinned page has to be verified; a
/// cached one is fetched through the cache.
#[derive(Debug, Clone, PartialEq, Eq)]
pub struct Errand {
    pub site: String,
    pub path: String,
    pub endpoint: String,
    pub pin: Option<String>,
    pub cached: bool,
}

/// The mathematical value of an [`Errand`].
pub struct ErrandView {
    pub site: Seq<char>,
    pub path: Seq<char>,
    pub endpoint: Seq<char>,
    pub pin: Option<Seq<char>>,
    pub cached: bool,
}

impl View for Errand {
    type V = ErrandView;

    open spec fn view(&self) -> ErrandView {
        ErrandView {
            site: self.site@,
            path: self.path@,
            endpoint: self.endpoint@,
            pin: opt_text(self.pin),
            cached: self.cached,
        }
    }
}

/// How the present page was obtained, where it was fetched.
pub open spec fn present_status(v: SessionView) -> Option<CacheStatus> {
    let i = v.history.past.len() as int;
    if v.history.present is Some && i < v.statuses.len() {
        v.statuses[i]
    } else {
        None
    }
}

/// The statuses once visit `i` was obtained anew, up to a number of visits.
pub open spec fn noted(
    statuses: Seq<Option<CacheStatus>>,
    i: nat,
    status: CacheStatus,
    n: nat,
) -> Seq<Option<CacheStatus>> {
    Seq::new(
        n,
        |j: int|
            if j == i {
                Some(status)
            } else if j < statuses.len() {
                statuses[j]
            } else {
                None
            },
    )
}

/// The statuses after a new visit: those of the visits that it drops are gone.
pub open spec fn noted_visit(v: SessionView, status: CacheStatus) -> Seq<Option<CacheStatus>> {
    let i = past_and_present(v.history).len();
    noted(v.statuses, i, status, i + 1)
}

/// The statuses after a reload of the present page.
pub open spec fn noted_reload(v: SessionView, status: CacheStatus) -> Seq<Option<CacheStatus>> {
    let i = v.history.past.len();
    noted(
        v.statuses,
        i,
        status,
        if v.statuses.len() > i {
            v.statuses.len()
        } else {
            i + 1
        },
    )
}

/// The session after a site got its route, where it had none.
pub open spec fn routed(v: SessionView, site: Seq<char>) -> SessionView {
    if valid_site(site) && !v.routes.dom().contains(site) {
        SessionView {
            routes: v.routes.insert(
                site,
                RouteView { endpoints: seq![v.server], pinned_site_id: v.pin },
            ),
            ..v
        }
    } else {
        v
    }
}

/// What is to be fetched for a page.
pub open spec fn errand_for(v: SessionView, site: Seq<char>, path: Seq<char>) -> Result<
    ErrandView,
    BrowserErrorView,
> {
    match first_route(routed(v, site).routes, site) {
        Err(e) => Err(e),
        Ok((endpoint, pin)) => Ok(ErrandView { site, path, endpoint, pin, cached: v.cache is Some }),
    }
}

/// A page with how it was obtained, or why there is none.
pub open spec fn fetched_view(f: Result<(Page, CacheStatus), BrowserError>) -> Result<
    (PageView, CacheStatus),
    BrowserErrorView,
> {
    match f {
        Ok(p) => Ok((p.0@, p.1)),
        Err(e) => Err(e@),
    }
}

/// What comes of opening a target with what was fetched for it: a failure
/// leaves the history as it is.
pub open spec fn opened(
    v: SessionView,
    target: Seq<char>,
    fetched: Result<(PageView, CacheStatus), BrowserErrorView>,
) -> (SessionView, Option<BrowserErrorView>) {
    match parsed_target(target) {
        Err(e) => (v, Some(e)),
        Ok((site, path)) => match (errand_for(v, site, path), fetched) {
            (Err(e), _) => (routed(v, site), Some(e)),
            (Ok(_), Err(e)) => (routed(v, site), Some(e)),
            (Ok(_), Ok((page, status))) => (
                SessionView {
                    statuses: noted_visit(v, status),
                    history: visited(v.history, VisitView { site, path, page }),
                    ..routed(v, site)
                },
                None,
            ),
        },
    }
}

/// What comes of a reload with what was fetched for it: the page is replaced
/// in place.
pub open spec fn reloaded(
    v: SessionView,
    fetched: Result<(PageView, CacheStatus), BrowserErrorView>,
) -> (SessionView, Option<BrowserErrorView>) {
    match v.history.present {
        None => (v, Some(BrowserErrorView::Content("nothing loaded yet"@))),
        Some(visit) => match (errand_for(v, visit.site, visit.path), fetched) {
            (Err(e), _) => (routed(v, visit.site), Some(e)),
            (Ok(_), Err(e)) => (routed(v, visit.site), Some(e)),
            (Ok(_), Ok((page, status))) => (
                SessionView {
                    statuses: noted_reload(v, status),
                    history: with_page(v.history, page),
                    ..routed(v, visit.site)
                },
                None,
            ),
        },
    }
}

/// The error of a result, if any.
pub open spec fn failure(r: Result<(), BrowserError>) -> Option<BrowserErrorView> {
    match r {
        Ok(_) => None,
        Err(e) => Some(e@),
    }
}

/// A new session.
pub open spec fn new_session(server: Seq<char>) -> SessionView {
    SessionView {
        routes: Map::empty(),
        server,
        pin: None,
        cache: None,
        statuses: Seq::empty(),
        history: no_visits(),
    }
}

impl ClientSession {
    /// A session against a server.
    pub fn new(server: &str) -> (s: Self)
        ensures
            s@ == new_session(server@),
    {
        ClientSession {
            resolver: LocalResolver::new(),
            server: server.to_owned(),
            pin: None,
            statuses: Vec::new(),
            cache: None,
            history: History::new(),
        }
    }

    /// The session with a cache: pages are fetched through it.
    pub fn with_cache(self, cache: OfflineCache) -> (s: Self)
        ensures
            s@ == (SessionView { cache: Some(cache), ..self@ }),
    {
        ClientSession {
            resolver: self.resolver,
            server: self.server,
            pin: self.pin,
            statuses: self.statuses,
            cache: Some(cache),
            history: self.history,
        }
    }

    /// The session with a pin: the routes that it makes from now on are
    /// pinned to the site key.
    pub fn with_pin(self, pin: Option<String>) -> (s: Self)
        ensures
            s@ == (SessionView { pin: opt_text(pin), ..self@ }),
    {
        ClientSession {
            resolver: self.resolver,
            server: self.server,
            pin,
            statuses: self.statuses,
            cache: self.cache,
            history: self.history,
        }
    }

    /// How the present page was obtained, where it was fetched.
    pub fn last_status(&self) -> (out: Option<CacheStatus>)
        ensures
            out == present_status(self@),
    {
        let i = self.history.position();
        if self.history.current().is_some() && i < self.statuses.len() {
            self.statuses[i]
        } else {
            None
        }
    }

    /// Notes how visit `i` was obtained; the statuses of later ones stay.
    fn note(&mut self, i: usize, status: CacheStatus)
        ensures
            final(self)@ == (SessionView {
                statuses: noted(
                    old(self)@.statuses,
                    i as nat,
                    status,
                    if old(self)@.statuses.len() > i {
                        old(self)@.statuses.len()
                    } else {
                        i as nat + 1
                    },
                ),
                ..old(self)@
            }),
            final(self).history == old(self).history,
    {
        let ghost before = self.statuses@;
        while self.statuses.len() < i
            invariant
                *self == (ClientSession { statuses: self.statuses, ..*old(self) }),
                before == old(self).statuses@,
                before.len() <= self.statuses@.len(),
                self.statuses@.len() <= i || self.statuses@.len() == before.len(),
                forall|j: int|
                    0 <= j < self.statuses@.len() ==> #[trigger] self.statuses@[j] == if j
                        < before.len() {
                        before[j]
                    } else {
                        None
                    },
            decreases i - self.statuses@.len(),
        {
            self.statuses.push(None);
        }
        if self.statuses.len() == i {
            self.statuses.push(Some(status));
        } else {
            self.statuses.set(i, Some(status));
        }
        assert(self.statuses@ =~= noted(
            before,
            i as nat,
            status,
            if before.len() > i {
                before.len()
            } else {
                i as nat + 1
            },
        ));
    }

    /// The site key that the session pins.
    pub fn pin(&self) -> (out: Option<&str>)
        ensures
            match out {
                Some(p) => self@.pin == Some(p@),
                None => self@.pin is None,
            },
    {
        match &self.pin {
            Some(p) => Some(p.as_str()),
            None => None,
        }
    }

    /// The history, as a value of its own.
    pub fn visits(&self) -> (h: &History)
        ensures
            h@ == self@.history,
    {
        &self.history
    }

    /// What is to be fetched for a page; its site gets a route, where it had
    /// none.
    fn errand(&mut self, site: &str, path: &str) -> (out: Result<Errand, BrowserError>)
        ensures
            final(self)@ == routed(old(self)@, site@),
            match out {
                Ok(e) => errand_for(old(self)@, site@, path@) == Ok::<
                    ErrandView,
                    BrowserErrorView,
                >(e@),
                Err(e) => errand_for(old(self)@, site@, path@) == Err::<
                    ErrandView,
                    BrowserErrorView,
                >(e@),
            },
    {
        if is_valid_site(site) && self.resolver.get(site).is_none() {
            let mut endpoints: Vec<String> = Vec::new();
            endpoints.push(self.server.clone());
            assert(texts(endpoints@) =~= seq![self.server@]);
            let route = Route { endpoints, pinned_site_id: copy_opt(&self.pin) };
            let done = self.resolver.insert(site, route);
            assert(done is Ok);
        }
        match first_endpoint(&self.resolver, site) {
            Err(e) => Err(e),
            Ok((endpoint, pin)) => Ok(
                Errand {
                    site: site.to_owned(),
                    path: path.to_owned(),
                    endpoint,
                    pin,
                    cached: self.cache.is_some(),
                },
            ),
        }
    }

    /// What is to be fetched to open a target.
    pub fn plan_open(&mut self, target: &str) -> (out: Result<Errand, BrowserError>)
        ensures
            match parsed_target(target@) {
                Err(e) => final(self)@ == old(self)@ && (out matches Err(f) && f@ == e),
                Ok((site, path)) => final(self)@ == routed(old(self)@, site) && match out {
                    Ok(e) => errand_for(old(self)@, site, path) == Ok::<
                        ErrandView,
                        BrowserErrorView,
                    >(e@),
                    Err(e) => errand_for(old(self)@, site, path) == Err::<
                        ErrandView,
                        BrowserErrorView,
                    >(e@),
                },
            },
    {
        match parse_target(target) {
            Err(e) => Err(e),
            Ok((site, path)) => self.errand(site.as_str(), path.as_str()),
        }
    }

    /// Opens a target with what was fetched for it.
    pub fn open(
        &mut self,
        target: &str,
        fetched: Result<(Page, CacheStatus), BrowserError>,
    ) -> (out: Result<(), BrowserError>)
        ensures
            (final(self)@, failure(out)) == opened(old(self)@, target@, fetched_view(fetched)),
    {
        let (site, path) = match parse_target(target) {
            Err(e) => return Err(e),
            Ok(t) => t,
        };
        match self.errand(site.as_str(), path.as_str()) {
            Err(e) => return Err(e),
            Ok(_) => {},
        }
        match fetched {
            Err(e) => Err(e),
            Ok((page, status)) => {
                self.history.push(Visit { site, path, page });
                let i = self.history.position();
                if i < self.statuses.len() {
                    self.statuses.truncate(i);
                }
                self.note(i, status);
                assert(self@.statuses =~= noted_visit(old(self)@, status));
                Ok(())
            },
        }
    }

    /// Steps back in the history.
    pub fn back(&mut self) -> (out: Result<(), BrowserError>)
        ensures
            match out {
                Ok(_) => can_go_back(old(self)@.history) && final(self)@ == (SessionView {
                    history: gone_back(old(self)@.history),
                    ..old(self)@
                }),
                Err(e) => !can_go_back(old(self)@.history) && final(self)@ == old(self)@ && e@
                    == BrowserErrorView::Content("at the start of history"@),
            },
    {
        let done = self.history.back().is_some();
        if !done {
            return Err(BrowserError::Content("at the start of history".to_owned()));
        }
        Ok(())
    }

    /// Steps forward in the history.
    pub fn forward(&mut self) -> (out: Result<(), BrowserError>)
        ensures
            match out {
                Ok(_) => can_go_forward(old(self)@.history) && final(self)@ == (SessionView {
                    history: gone_forward(old(self)@.history),
                    ..old(self)@
                }),
                Err(e) => !can_go_forward(old(self)@.history) && final(self)@ == old(self)@ && e@
                    == BrowserErrorView::Content("at the end of history"@),
            },
    {
        let done = self.history.forward().is_some();
        if !done {
            return Err(BrowserError::Content("at the end of history".to_owned()));
        }
        Ok(())
    }

    /// What is to be fetched to load the present page again.
    pub fn plan_reload(&mut self) -> (out: Result<Errand, BrowserError>)
        ensures
            match old(self)@.history.present {
                None => final(self)@ == old(self)@ && (out matches Err(e) && e@
                    == BrowserErrorView::Content("nothing loaded yet"@)),
                Some(v) => final(self)@ == routed(old(self)@, v.site) && match out {
                    Ok(e) => errand_for(old(self)@, v.site, v.path) == Ok::<
                        ErrandView,
                        BrowserErrorView,
                    >(e@),
                    Err(e) => errand_for(old(self)@, v.site, v.path) == Err::<
                        ErrandView,
                        BrowserErrorView,
                    >(e@),
                },
            },
    {
        let (site, path) = match self.history.current() {
            None => return Err(BrowserError::Content("nothing loaded yet".to_owned())),
            Some(v) => (v.site.clone(), v.path.clone()),
        };
        self.errand(site.as_str(), path.as_str())
    }

    /// Replaces the present page by what was fetched for it; no new visit.
    pub fn reload(&mut self, fetched: Result<(Page, CacheStatus), BrowserError>) -> (out: Result<
        (),
        BrowserError,
    >)
        ensures
            (final(self)@, failure(out)) == reloaded(old(self)@, fetched_view(fetched)),
    {
        match self.plan_reload() {
            Err(e) => return Err(e),
            Ok(_) => {},
        }
        match fetched {
            Err(e) => Err(e),
            Ok((page, status)) => {
                let i = self.history.position();
                self.note(i, status);
                self.history.replace_current(page);
                Ok(())
            },
        }
    }

    /// The present page as text; nothing without one.
    pub fn render_current(&self) -> (out: String)
        ensures
            out@ == match self@.history.present {
                Some(v) => page_text(v.page),
                None => Seq::empty(),
            },
    {
        match self.history.current() {
            Some(v) => render_text(&v.page),
            None => String::new(),
        }
    }
}

/// In a pinned session every page is fetched under the pin, unless its site
/// had a route before.
pub proof fn law_pinned_sessions_pin_every_route(v: SessionView, site: Seq<char>, path: Seq<char>)
    requires
        valid_site(site),
        !v.routes.dom().contains(site),
    ensures
        errand_for(v, site, path) == Ok::<ErrandView, BrowserErrorView>(
            ErrandView { site, path, endpoint: v.server, pin: v.pin, cached: v.cache is Some },
        ),
        errand_for(routed(v, site), site, path) == errand_for(v, site, path),
{
}

/// The status is that of the present page: a page that was opened or loaded
/// again has the status of its fetch, and a step back from an opened page
/// gives the status of the page before.
pub proof fn law_the_status_is_of_the_present_page(
    v: SessionView,
    target: Seq<char>,
    fetched: Result<(PageView, CacheStatus), BrowserErrorView>,
)
    ensures
        opened(v, target, fetched).1 is None ==> present_status(opened(v, target, fetched).0)
            == Some((fetched->Ok_0).1),
        reloaded(v, fetched).1 is None ==> present_status(reloaded(v, fetched).0) == Some(
            (fetched->Ok_0).1,
        ),
        opened(v, target, fetched).1 is None && v.history.present is Some ==> present_status(
            SessionView {
                history: gone_back(opened(v, target, fetched).0.history),
                ..opened(v, target, fetched).0
            },
        ) == present_status(v),
{
    if opened(v, target, fetched).1 is None && v.history.present is Some {
        assert(gone_back(opened(v, target, fetched).0.history).past =~= v.history.past);
    }
}

/// A failed open or reload changes nothing of what is shown: neither the
/// history nor how its pages were obtained.
pub proof fn law_failures_keep_the_page(
    v: SessionView,
    target: Seq<char>,
    fetched: Result<(PageView, CacheStatus), BrowserErrorView>,
)
    ensures
        opened(v, target, fetched).1 is Some ==> opened(v, target, fetched).0.history == v.history
            && opened(v, target, fetched).0.statuses == v.statuses,
        reloaded(v, fetched).1 is Some ==> reloaded(v, fetched).0.history == v.history && reloaded(
            v,
            fetched,
        ).0.statuses == v.statuses,
{
}

/// A session asks its own server for every site that it has no route for,
/// under its own pin; routes that are there stay as they are.
pub proof fn law_routes_are_made_once(v: SessionView, site: Seq<char>, other: Seq<char>)
    ensures
        ({
            let w = routed(v, site);
            &&& valid_site(site) && !v.routes.dom().contains(site) ==> w.routes == v.routes.insert(
                site,
                RouteView { endpoints: seq![v.server], pinned_site_id: v.pin },
            )
            &&& v.routes.dom().contains(other) ==> w.routes.dom().contains(other)
                && w.routes[other] == v.routes[other]
            &&& other != site ==> (w.routes.dom().contains(other) <==> v.routes.dom().contains(
                other,
            ))
            &&& !valid_site(site) ==> w == v
            &&& w.history == v.history && w.statuses == v.statuses && w.server == v.server && w.pin
                == v.pin && w.cache == v.cache
        }),
{
}

/// What is fetched for a page is that page, at the first endpoint of its
/// site's route, under the pin of that route, and through the cache where the
/// session has one.
pub proof fn law_errands_follow_the_route(v: SessionView, site: Seq<char>, path: Seq<char>)
    ensures
        match errand_for(v, site, path) {
            Ok(e) => {
                let r = routed(v, site).routes[site];
                &&& e.site == site
                &&& e.path == path
                &&& r.endpoints.len() > 0
                &&& e.endpoint == r.endpoints[0]
                &&& e.pin == r.pinned_site_id
                &&& e.cached == v.cache is Some
            },
            Err(e) => first_route(routed(v, site).routes, site) == Err::<
                (Seq<char>, Option<Seq<char>>),
                BrowserErrorView,
            >(e),
        },
        !valid_site(site) ==> errand_for(v, site, path) is Err,
{
}

/// Opening a target that was fetched makes its page the present one, under
/// the site and path of the target; a target that cannot be read or fetched
/// changes nothing that is shown.
pub proof fn law_opening_shows_the_target(
    v: SessionView,
    target: Seq<char>,
    fetched: Result<(PageView, CacheStatus), BrowserErrorView>,
)
    ensures
        ({
            let (w, e) = opened(v, target, fetched);
            match parsed_target(target) {
                Err(bad) => w == v && e == Some(bad),
                Ok((site, path)) => match errand_for(v, site, path) {
                    Err(f) => e == Some(f) && w.history == v.history,
                    Ok(_) => match fetched {
                        Err(f) => e == Some(f) && w.history == v.history,
                        Ok((page, status)) => {
                            &&& e is None
                            &&& w.history == visited(v.history, VisitView { site, path, page })
                            &&& w.routes == routed(v, site).routes
                            &&& w.server == v.server && w.pin == v.pin && w.cache == v.cache
                            &&& present_status(w) == Some(status)
                        },
                    },
                },
            }
        }),
{
    law_the_status_is_of_the_present_page(v, target, fetched);
}

/// A reload that was fetched puts its page into the present visit; without a
/// page, or where the fetch failed, nothing that is shown changes.
pub proof fn law_reloading_shows_the_same_place(
    v: SessionView,
    fetched: Result<(PageView, CacheStatus), BrowserErrorView>,
)
    ensures
        ({
            let (w, e) = reloaded(v, fetched);
            match v.history.present {
                None => w == v && (e matches Some(f) && f is Content),
                Some(visit) => match errand_for(v, visit.site, visit.path) {
                    Err(f) => e == Some(f) && w.history == v.history,
                    Ok(_) => match fetched {
                        Err(f) => e == Some(f) && w.history == v.history,
                        Ok((page, status)) => {
                            &&& e is None
                            &&& w.history == with_page(v.history, page)
                            &&& w.routes == routed(v, visit.site).routes
                            &&& present_status(w) == Some(status)
                        },
                    },
                },
            }
        }),
{
    law_the_status_is_of_the_present_page(v, Seq::empty(), fetched);
}

/// How the other pages were obtained stays as it was noted: a new page drops
/// that of the pages that it drops, and a reload changes that of the present
/// page only.
pub proof fn law_statuses_stay_with_their_pages(
    v: SessionView,
    target: Seq<char>,
    fetched: Result<(PageView, CacheStatus), BrowserErrorView>,
    i: int,
)
    requires
        0 <= i < v.statuses.len(),
    ensures
        opened(v, target, fetched).1 is None ==> ({
            let n: int = if v.history.present is Some {
                v.history.past.len() as int + 1
            } else {
                v.history.past.len() as int
            };
            let w = opened(v, target, fetched).0;
            w.statuses.len() == n + 1 && (i < n ==> w.statuses[i] == v.statuses[i])
        }),
        reloaded(v, fetched).1 is None && i != v.history.past.len() ==> reloaded(
            v,
            fetched,
        ).0.statuses.len() >= v.statuses.len() && reloaded(v, fetched).0.statuses[i]
            == v.statuses[i],
{
}

/// A new session has no page, no route, no pin and no cache: what it fetches
/// first it asks of its server.
pub proof fn law_new_sessions(server: Seq<char>, site: Seq<char>, path: Seq<char>)
    ensures
        new_session(server).history.present is None,
        !can_go_back(new_session(server).history) && !can_go_forward(new_session(server).history),
        present_status(new_session(server)) is None,
        valid_site(site) ==> errand_for(new_session(server), site, path) == Ok::<
            ErrandView,
            BrowserErrorView,
        >(ErrandView { site, path, endpoint: server, pin: None, cached: false }),
{
}

} // verus!
