//! Petname-first resolution: from a name to a route.
//!
//! - `model`: the signed-record envelope and its wire form
//! - `crypto`: the seam for signature schemes
//! - `store`: the local store of records by zone
//! - `backend`: transports for signed records
//! - `resolve`: signed endpoint records, the verified store, and the
//!   resolver that chains the petname table with record backends

use crate::content::{copy_opt, opt_text, texts};
use crate::protocol::{is_valid_site, valid_site};
use crate::table::{strictly_sorted, TextMap};
use crate::text::{dec_chars, decimal};
use vstd::prelude::*;
use vstd::string::*;

pub use crate::protocol::is_valid_site as is_valid_name;

pub mod backend;
pub mod crypto;
pub mod model;
pub mod resolve;
pub mod store;

verus! {

/// Why a name does not resolve.
#[derive(Debug, Clone, PartialEq, Eq)]
pub enum ResolveError {
    /// The name has no route and no verified record.
    UnknownSite(String),
    /// The name is no valid site name.
    InvalidName(String),
    /// The route cannot be used.
    Misconfigured(String),
    /// The signature is invalid, cannot be read, or is of another key.
    BadSignature(String),
    /// The record expired, at the first time, before the second.
    Expired(u64, u64),
}

/// The mathematical value of a [`ResolveError`].
pub enum ResolveErrorView {
    UnknownSite(Seq<char>),
    InvalidName(Seq<char>),
    Misconfigured(Seq<char>),
    BadSignature(Seq<char>),
    Expired(u64, u64),
}

impl View for ResolveError {
    type V = ResolveErrorView;

    open spec fn view(&self) -> ResolveErrorView {
        match self {
            ResolveError::UnknownSite(s) => ResolveErrorView::UnknownSite(s@),
            ResolveError::InvalidName(s) => ResolveErrorView::InvalidName(s@),
            ResolveError::Misconfigured(s) => ResolveErrorView::Misconfigured(s@),
            ResolveError::BadSignature(s) => ResolveErrorView::BadSignature(s@),
            ResolveError::Expired(at, now) => ResolveErrorView::Expired(*at, *now),
        }
    }
}

/// What a [`ResolveError`] says to a reader.
pub open spec fn error_text(e: ResolveErrorView) -> Seq<char> {
    match e {
        ResolveErrorView::UnknownSite(s) => "unknown site: "@ + s,
        ResolveErrorView::InvalidName(s) => "invalid name: "@ + s,
        ResolveErrorView::Misconfigured(s) => "resolver misconfigured: "@ + s,
        ResolveErrorView::BadSignature(s) => "signature verification failed: "@ + s,
        ResolveErrorView::Expired(at, now) => "record expired at "@ + dec_chars(at as nat)
            + " (now "@ + dec_chars(now as nat) + ")"@,
    }
}

impl ResolveError {
    /// What the error says to a reader.
    pub fn to_string(&self) -> (out: String)
        ensures
            out@ == error_text(self@),
    {
        match self {
            ResolveError::UnknownSite(s) => "unknown site: ".to_owned().concat(s.as_str()),
            ResolveError::InvalidName(s) => "invalid name: ".to_owned().concat(s.as_str()),
            ResolveError::Misconfigured(s) => "resolver misconfigured: ".to_owned().concat(
                s.as_str(),
            ),
            ResolveError::BadSignature(s) => "signature verification failed: ".to_owned().concat(
                s.as_str(),
            ),
            ResolveError::Expired(at, now) => "record expired at ".to_owned().concat(
                decimal(*at).as_str(),
            ).concat(" (now ").concat(decimal(*now).as_str()).concat(")"),
        }
    }
}

/// Where a site can be reached.
#[derive(Debug, PartialEq, Eq)]
pub struct Route {
    /// Endpoints as host and port.
    pub endpoints: Vec<String>,
    /// Expected site id, for pinning.
    pub pinned_site_id: Option<String>,
}

/// The mathematical value of a [`Route`].
pub struct RouteView {
    pub endpoints: Seq<Seq<char>>,
    pub pinned_site_id: Option<Seq<char>>,
}

impl View for Route {
    type V = RouteView;

    open spec fn view(&self) -> RouteView {
        RouteView {
            endpoints: texts(self.endpoints@),
            pinned_site_id: opt_text(self.pinned_site_id),
        }
    }
}

/// Copies of texts.
pub fn copy_texts(list: &Vec<String>) -> (out: Vec<String>)
    ensures
        texts(out@) == texts(list@),
{
    let mut out: Vec<String> = Vec::new();
    let mut i: usize = 0;
    while i < list.len()
        invariant
            i <= list@.len(),
            out@.len() == i,
            forall|j: int| 0 <= j < i ==> #[trigger] out@[j]@ == list@[j]@,
        decreases list@.len() - i,
    {
        out.push(list[i].clone());
        i = i + 1;
    }
    assert(texts(out@) =~= texts(list@));
    out
}

impl Clone for Route {
    fn clone(&self) -> (out: Self)
        ensures
            out@ == self@,
    {
        Route {
            endpoints: copy_texts(&self.endpoints),
            pinned_site_id: copy_opt(&self.pinned_site_id),
        }
    }
}

impl Route {
    /// A route to a port of the local machine.
    pub fn local(port: u16) -> (r: Self)
        ensures
            r@ == (RouteView {
                endpoints: seq!["127.0.0.1:"@ + dec_chars(port as nat)],
                pinned_site_id: None,
            }),
    {
        let mut endpoints: Vec<String> = Vec::new();
        endpoints.push("127.0.0.1:".to_owned().concat(decimal(port as u64).as_str()));
        let r = Route { endpoints, pinned_site_id: None };
        assert(r@.endpoints =~= seq!["127.0.0.1:"@ + dec_chars(port as nat)]);
        r
    }
}

/// What a table of routes answers for a name.
pub open spec fn looked_up(routes: Map<Seq<char>, RouteView>, name: Seq<char>) -> Result<
    RouteView,
    ResolveErrorView,
> {
    if !valid_site(name) {
        Err(ResolveErrorView::InvalidName(name))
    } else if routes.dom().contains(name) {
        Ok(routes[name])
    } else {
        Err(ResolveErrorView::UnknownSite(name))
    }
}

/// The result in mathematical values.
pub open spec fn route_outcome(r: Result<Route, ResolveError>) -> Result<
    RouteView,
    ResolveErrorView,
> {
    match r {
        Ok(v) => Ok(v@),
        Err(e) => Err(e@),
    }
}

/// From names to routes.
pub trait Resolver {
    /// The routes that the resolver knows.
    spec fn routes(&self) -> Map<Seq<char>, RouteView>;

    /// The route of a name. Invalid names and unknown names are errors.
    fn resolve(&self, name: &str) -> (out: Result<Route, ResolveError>)
        ensures
            route_outcome(out) == looked_up(self.routes(), name@),
    ;

    /// All names that the resolver can answer, in their order.
    fn list_names(&self) -> (out: Vec<String>)
        ensures
            strictly_sorted(texts(out@)),
            forall|n: Seq<char>| #[trigger]
                texts(out@).contains(n) <==> self.routes().dom().contains(n),
    ;
}

/// The values of routes by name.
pub open spec fn routes_view(m: Map<Seq<char>, Route>) -> Map<Seq<char>, RouteView> {
    m.map_values(|r: Route| r@)
}

/// The static petname table. Every name in it is valid, every route has an
/// endpoint.
#[derive(Debug)]
pub struct LocalResolver {
    table: TextMap<Route>,
}

impl View for LocalResolver {
    type V = Map<Seq<char>, RouteView>;

    closed spec fn view(&self) -> Map<Seq<char>, RouteView> {
        routes_view(self.table@)
    }
}

impl Default for LocalResolver {
    fn default() -> (r: Self)
        ensures
            r@ == Map::<Seq<char>, RouteView>::empty(),
    {
        Self::new()
    }
}

impl Clone for LocalResolver {
    fn clone(&self) -> (out: Self)
        ensures
            out@ == self@,
    {
        proof {
            use_type_invariant(self);
        }
        let table = self.table.clone();
        proof {
            let a = self.table@;
            let b = table@;
            assert forall|k: Seq<char>| a.dom().contains(k) implies (#[trigger] a[k])@
                == b[k]@ by {
                assert(cloned(a[k], b[k]));
            }
            assert(routes_view(a) =~= routes_view(b));
            assert forall|k: Seq<char>| #[trigger] b.dom().contains(k) implies valid_site(k)
                && b[k].endpoints@.len() > 0 by {
                assert(a.dom().contains(k));
                assert(a[k]@ == b[k]@);
                assert(a[k]@.endpoints.len() == b[k]@.endpoints.len());
            }
        }
        LocalResolver { table }
    }
}

impl LocalResolver {
    #[verifier::type_invariant]
    spec fn usable(self) -> bool {
        forall|k: Seq<char>| #[trigger]
            self.table@.dom().contains(k) ==> valid_site(k) && self.table@[k].endpoints@.len() > 0
    }

    /// An empty table.
    pub fn new() -> (r: Self)
        ensures
            r@ == Map::<Seq<char>, RouteView>::empty(),
    {
        let r = LocalResolver { table: TextMap::new() };
        assert(r@ =~= Map::<Seq<char>, RouteView>::empty());
        r
    }

    /// Binds a name to a route. Invalid names and routes without an endpoint
    /// are refused.
    pub fn insert(&mut self, name: &str, route: Route) -> (out: Result<(), ResolveError>)
        ensures
            match out {
                Ok(_) => valid_site(name@) && route@.endpoints.len() > 0 && final(self)@
                    == old(self)@.insert(name@, route@),
                Err(e) => final(self)@ == old(self)@ && if !valid_site(name@) {
                    e@ == ResolveErrorView::InvalidName(name@)
                } else {
                    route@.endpoints.len() == 0 && e@ == ResolveErrorView::Misconfigured(
                        "route has no endpoints"@,
                    )
                },
            },
    {
        if !is_valid_site(name) {
            return Err(ResolveError::InvalidName(name.to_owned()));
        }
        if route.endpoints.len() == 0 {
            return Err(ResolveError::Misconfigured("route has no endpoints".to_owned()));
        }
        proof {
            use_type_invariant(&*self);
        }
        let ghost rv = route@;
        let mut table: TextMap<Route> = TextMap::new();
        std::mem::swap(&mut self.table, &mut table);
        table.insert(name.to_owned(), route);
        self.table = table;
        assert(self@ =~= old(self)@.insert(name@, rv));
        Ok(())
    }

    /// Drops a name, where it is there.
    pub fn remove(&mut self, name: &str)
        ensures
            final(self)@ == old(self)@.remove(name@),
    {
        proof {
            use_type_invariant(&*self);
        }
        let mut table: TextMap<Route> = TextMap::new();
        std::mem::swap(&mut self.table, &mut table);
        table.remove(name);
        self.table = table;
        assert(self@ =~= old(self)@.remove(name@));
    }

    /// The route in the table, where there is one.
    pub fn get(&self, name: &str) -> (out: Option<&Route>)
        ensures
            out is Some <==> self@.dom().contains(name@),
            out matches Some(r) ==> r@ == self@[name@] && r@.endpoints.len() > 0 && valid_site(
                name@,
            ),
    {
        proof {
            use_type_invariant(self);
        }
        self.table.get(name)
    }

    /// The names in the table, in their order.
    pub fn names(&self) -> (out: Vec<String>)
        ensures
            strictly_sorted(texts(out@)),
            forall|n: Seq<char>| #[trigger] texts(out@).contains(n) <==> self@.dom().contains(n),
    {
        let out = self.table.keys();
        proof {
            assert(texts(out@) =~= self.table.key_order());
            assert forall|n: Seq<char>| #[trigger] texts(out@).contains(n) <==> self@.dom().contains(
                n,
            ) by {
                assert(self@.dom().contains(n) <==> self.table@.dom().contains(n));
            }
        }
        out
    }
}

impl Resolver for LocalResolver {
    open spec fn routes(&self) -> Map<Seq<char>, RouteView> {
        self@
    }

    fn resolve(&self, name: &str) -> (out: Result<Route, ResolveError>) {
        if !is_valid_site(name) {
            return Err(ResolveError::InvalidName(name.to_owned()));
        }
        match self.get(name) {
            Some(route) => Ok(route.clone()),
            None => Err(ResolveError::UnknownSite(name.to_owned())),
        }
    }

    fn list_names(&self) -> (out: Vec<String>) {
        self.names()
    }
}

/// A name that is bound resolves to its route, and to nothing once it is
/// dropped; other names are not touched.
pub proof fn law_bound_names_resolve(
    table: Map<Seq<char>, RouteView>,
    name: Seq<char>,
    route: RouteView,
    other: Seq<char>,
)
    requires
        valid_site(name),
        other != name,
    ensures
        looked_up(table.insert(name, route), name) == Ok::<RouteView, ResolveErrorView>(route),
        looked_up(table.remove(name), name) == Err::<RouteView, ResolveErrorView>(
            ResolveErrorView::UnknownSite(name),
        ),
        looked_up(table.insert(name, route), other) == looked_up(table, other),
        looked_up(table.remove(name), other) == looked_up(table, other),
{
}

/// A name is looked up in the table under itself and under nothing else; an
/// invalid one never is.
pub proof fn law_names_are_looked_up_as_they_are(
    table: Map<Seq<char>, RouteView>,
    name: Seq<char>,
)
    ensures
        looked_up(table, name) is Ok <==> valid_site(name) && table.dom().contains(name),
        looked_up(table, name) matches Ok(r) ==> r == table[name],
        !valid_site(name) ==> looked_up(table, name) == Err::<RouteView, ResolveErrorView>(
            ResolveErrorView::InvalidName(name),
        ),
        valid_site(name) && !table.dom().contains(name) ==> looked_up(table, name) == Err::<
            RouteView,
            ResolveErrorView,
        >(ResolveErrorView::UnknownSite(name)),
{
}

/// The text of an error names its kind and gives what it is about; times are
/// in decimal.
pub proof fn law_error_texts(at: u64, now: u64, s: Seq<char>)
    ensures
        error_text(ResolveErrorView::UnknownSite(s)) == "unknown site: "@ + s,
        error_text(ResolveErrorView::InvalidName(s)) == "invalid name: "@ + s,
        error_text(ResolveErrorView::Misconfigured(s)) == "resolver misconfigured: "@ + s,
        error_text(ResolveErrorView::BadSignature(s)) == "signature verification failed: "@ + s,
        error_text(ResolveErrorView::Expired(at, now)) == "record expired at "@ + dec_chars(
            at as nat,
        ) + " (now "@ + dec_chars(now as nat) + ")"@,
{
}

} // verus!
