//! Filling the store: from a directory of files, or from a pack of blobs.

use crate::content::{form_fault, opt_text, Page};
use crate::json::{chain_from_json, entries_in_json, entries_view, ChainEntry};
use crate::protocol::{is_valid_path, is_valid_site, valid_path, valid_site};
use crate::server::{stored, ServerError, ServerErrorView, SiteStore, SiteView, StoredView};
use crate::storage::{unpacked, FsStore};
use crate::table::{lemma_text_lt_total, text_lt};
use crate::text::same_text;
use vstd::prelude::*;
use vstd::slice::slice_to_vec;
use vstd::string::*;

verus! {

/// A file of a directory, as it was read.
#[derive(Debug)]
pub struct DirFile {
    /// The path, to name the file in errors.
    pub display: String,
    /// What stands behind the last dot of the name, where it is text.
    pub extension: Option<String>,
    /// What stands before it, where it is text.
    pub stem: Option<String>,
    /// The contents, or why they cannot be read.
    pub bytes: Result<Vec<u8>, String>,
}

/// A file of a site directory, with what the JSON reader made of it and the
/// canonical form of that.
#[derive(Debug)]
pub struct SiteFile {
    pub file: DirFile,
    pub page: Result<Page, String>,
    pub canonical: Vec<u8>,
}

/// A file counts only where its name ends in `.json`.
pub open spec fn is_json_file(f: DirFile) -> bool {
    opt_text(f.extension) == Some("json"@)
}

/// What a file of a site directory adds: nothing where it is no JSON file;
/// else a page under its stem, which has to be the page's own path, as the
/// site has to be the page's own site.
pub open spec fn staged_page(site: Seq<char>, f: Result<SiteFile, String>) -> Result<
    Option<(Seq<char>, StoredView)>,
    ServerErrorView,
> {
    match f {
        Err(e) => Err(ServerErrorView::Content(e@)),
        Ok(f) => if !is_json_file(f.file) {
            Ok(None)
        } else {
            match (f.file.stem, f.file.bytes) {
                (None, _) => Err(ServerErrorView::Content("bad filename"@)),
                (Some(_), Err(e)) => Err(ServerErrorView::Content(e@)),
                (Some(stem), Ok(bytes)) => match form_fault(bytes@, f.page) {
                    Some(e) => Err(ServerErrorView::Content(crate::content::error_text(e))),
                    None => if f.page->Ok_0@.site != site || f.page->Ok_0@.path != stem@ {
                        Err(
                            ServerErrorView::Content(
                                "metadata mismatch in "@ + f.file.display@ + ": expected "@ + site
                                    + "/"@ + stem@,
                            ),
                        )
                    } else {
                        Ok(Some((stem@, stored(bytes@, Ok(f.canonical@)))))
                    },
                },
            }
        },
    }
}

/// What the files of a site directory add, in turn; the first error where
/// there is one.
pub open spec fn staged_pages(site: Seq<char>, files: Seq<Result<SiteFile, String>>) -> Result<
    Seq<(Seq<char>, StoredView)>,
    ServerErrorView,
>
    decreases files.len(),
{
    if files.len() == 0 {
        Ok(Seq::empty())
    } else {
        match staged_pages(site, files.drop_last()) {
            Err(e) => Err(e),
            Ok(list) => match staged_page(site, files.last()) {
                Err(e) => Err(e),
                Ok(None) => Ok(list),
                Ok(Some(p)) => Ok(list.push(p)),
            },
        }
    }
}

/// What a file of the endpoints directory adds: the records of the name that
/// its stem is. It has to be a JSON array; whoever reads it checks the rest.
pub open spec fn staged_chain(f: Result<DirFile, String>) -> Result<
    Option<(Seq<char>, Seq<u8>)>,
    ServerErrorView,
> {
    match f {
        Err(e) => Err(ServerErrorView::Content(e@)),
        Ok(f) => if !is_json_file(f) {
            Ok(None)
        } else {
            match (f.stem, f.bytes) {
                (None, _) => Err(ServerErrorView::Content("bad endpoint filename"@)),
                (Some(name), bytes) => if !valid_site(name@) {
                    Err(ServerErrorView::Content("bad endpoint name in "@ + f.display@))
                } else {
                    match bytes {
                        Err(e) => Err(ServerErrorView::Content(e@)),
                        Ok(b) => match entries_in_json(b@) {
                            Err(e) => Err(ServerErrorView::Content(f.display@ + ": "@ + e)),
                            Ok(None) => Err(
                                ServerErrorView::Content(
                                    f.display@ + ": endpoint chain must be a JSON array"@,
                                ),
                            ),
                            Ok(Some(_)) => Ok(Some((name@, b@))),
                        },
                    }
                },
            }
        },
    }
}

/// What the files of the endpoints directory add, in turn.
pub open spec fn staged_chains(files: Seq<Result<DirFile, String>>) -> Result<
    Seq<(Seq<char>, Seq<u8>)>,
    ServerErrorView,
>
    decreases files.len(),
{
    if files.len() == 0 {
        Ok(Seq::empty())
    } else {
        match staged_chains(files.drop_last()) {
            Err(e) => Err(e),
            Ok(list) => match staged_chain(files.last()) {
                Err(e) => Err(e),
                Ok(None) => Ok(list),
                Ok(Some(c)) => Ok(list.push(c)),
            },
        }
    }
}

/// A store with pages of a site added in turn.
pub open spec fn with_pages(
    v: SiteView,
    site: Seq<char>,
    list: Seq<(Seq<char>, StoredView)>,
) -> SiteView
    decreases list.len(),
{
    if list.len() == 0 {
        v
    } else {
        let before = with_pages(v, site, list.drop_last());
        SiteView { pages: before.pages.insert((site, list.last().0), list.last().1), ..before }
    }
}

/// A store with endpoint records added in turn.
pub open spec fn with_chains(v: SiteView, list: Seq<(Seq<char>, Seq<u8>)>) -> SiteView
    decreases list.len(),
{
    if list.len() == 0 {
        v
    } else {
        let before = with_chains(v, list.drop_last());
        SiteView { endpoints: before.endpoints.insert(list.last().0, list.last().1), ..before }
    }
}

/// What a directory adds to a store, and how many pages; an error anywhere
/// leaves the store as it was.
pub open spec fn loaded_dir(
    v: SiteView,
    site: Seq<char>,
    files: Seq<Result<SiteFile, String>>,
    endpoints: Result<Vec<Result<DirFile, String>>, String>,
) -> Result<(SiteView, nat), ServerErrorView> {
    match (staged_pages(site, files), endpoints) {
        (Err(e), _) => Err(e),
        (Ok(_), Err(e)) => Err(ServerErrorView::Content(e@)),
        (Ok(pages), Ok(chains)) => match staged_chains(chains@) {
            Err(e) => Err(e),
            Ok(chains) => Ok(
                (with_chains(with_pages(v, site, pages), chains), pages.len()),
            ),
        },
    }
}

/// A page that was read and checked, to be stored.
struct Staged {
    stem: String,
    bytes: Vec<u8>,
    canonical: Vec<u8>,
}

impl View for Staged {
    type V = (Seq<char>, StoredView);

    closed spec fn view(&self) -> (Seq<char>, StoredView) {
        (self.stem@, stored(self.bytes@, Ok(self.canonical@)))
    }
}

/// Whether a file is a JSON file.
fn has_json_name(f: &DirFile) -> (yes: bool)
    ensures
        yes == is_json_file(*f),
{
    match &f.extension {
        Some(e) => same_text(e.as_str(), "json"),
        None => false,
    }
}

/// What a file of a site directory adds.
fn stage_page(site: &str, f: &Result<SiteFile, String>) -> (out: Result<
    Option<Staged>,
    ServerError,
>)
    ensures
        match out {
            Ok(Some(s)) => staged_page(site@, *f) == Ok::<
                Option<(Seq<char>, StoredView)>,
                ServerErrorView,
            >(Some(s@)),
            Ok(None) => staged_page(site@, *f) == Ok::<
                Option<(Seq<char>, StoredView)>,
                ServerErrorView,
            >(None),
            Err(e) => staged_page(site@, *f) == Err::<
                Option<(Seq<char>, StoredView)>,
                ServerErrorView,
            >(e@),
        },
{
    let f = match f {
        Ok(f) => f,
        Err(e) => return Err(ServerError::Content(e.clone())),
    };
    if !has_json_name(&f.file) {
        return Ok(None);
    }
    let stem = match &f.file.stem {
        Some(s) => s,
        None => return Err(ServerError::Content("bad filename".to_owned())),
    };
    let bytes = match &f.file.bytes {
        Ok(b) => b,
        Err(e) => return Err(ServerError::Content(e.clone())),
    };
    match Page::check_form(bytes.as_slice(), &f.page) {
        Ok(_) => {},
        Err(e) => return Err(ServerError::Content(e.to_string())),
    }
    let fits = match &f.page {
        Ok(p) => same_text(p.metadata.site.as_str(), site) && same_text(
            p.metadata.path.as_str(),
            stem.as_str(),
        ),
        Err(_) => false,
    };
    if !fits {
        return Err(
            ServerError::Content(
                "metadata mismatch in ".to_owned().concat(f.file.display.as_str()).concat(
                    ": expected ",
                ).concat(site).concat("/").concat(stem.as_str()),
            ),
        );
    }
    Ok(
        Some(
            Staged {
                stem: stem.clone(),
                bytes: slice_to_vec(bytes.as_slice()),
                canonical: slice_to_vec(f.canonical.as_slice()),
            },
        ),
    )
}

/// What a file of the endpoints directory adds.
fn stage_chain(f: &Result<DirFile, String>) -> (out: Result<
    Option<(String, Vec<u8>)>,
    ServerError,
>)
    ensures
        match out {
            Ok(Some(c)) => staged_chain(*f) == Ok::<
                Option<(Seq<char>, Seq<u8>)>,
                ServerErrorView,
            >(Some((c.0@, c.1@))),
            Ok(None) => staged_chain(*f) == Ok::<
                Option<(Seq<char>, Seq<u8>)>,
                ServerErrorView,
            >(None),
            Err(e) => staged_chain(*f) == Err::<
                Option<(Seq<char>, Seq<u8>)>,
                ServerErrorView,
            >(e@),
        },
{
    let f = match f {
        Ok(f) => f,
        Err(e) => return Err(ServerError::Content(e.clone())),
    };
    if !has_json_name(f) {
        return Ok(None);
    }
    let name = match &f.stem {
        Some(s) => s,
        None => return Err(ServerError::Content("bad endpoint filename".to_owned())),
    };
    if !is_valid_site(name.as_str()) {
        return Err(
            ServerError::Content("bad endpoint name in ".to_owned().concat(f.display.as_str())),
        );
    }
    let bytes = match &f.bytes {
        Ok(b) => b,
        Err(e) => return Err(ServerError::Content(e.clone())),
    };
    match chain_from_json(bytes.as_slice()) {
        Err(e) => Err(
            ServerError::Content(f.display.clone().concat(": ").concat(e.as_str())),
        ),
        Ok(None) => Err(
            ServerError::Content(
                f.display.clone().concat(": endpoint chain must be a JSON array"),
            ),
        ),
        Ok(Some(_)) => Ok(Some((name.clone(), slice_to_vec(bytes.as_slice())))),
    }
}

/// The values of staged pages.
spec fn staged_view(s: Seq<Staged>) -> Seq<(Seq<char>, StoredView)> {
    Seq::new(s.len(), |i: int| s[i]@)
}

/// The values of staged records.
spec fn chains_view(s: Seq<(String, Vec<u8>)>) -> Seq<(Seq<char>, Seq<u8>)> {
    Seq::new(s.len(), |i: int| (s[i].0@, s[i].1@))
}

proof fn lemma_pages_error(site: Seq<char>, files: Seq<Result<SiteFile, String>>, n: int)
    requires
        0 <= n <= files.len(),
        staged_pages(site, files.take(n)) is Err,
    ensures
        staged_pages(site, files) == staged_pages(site, files.take(n)),
    decreases files.len() - n,
{
    if n < files.len() {
        assert(files.take(n + 1).drop_last() =~= files.take(n));
        lemma_pages_error(site, files, n + 1);
    } else {
        assert(files.take(n) =~= files);
    }
}

proof fn lemma_chains_error(files: Seq<Result<DirFile, String>>, n: int)
    requires
        0 <= n <= files.len(),
        staged_chains(files.take(n)) is Err,
    ensures
        staged_chains(files) == staged_chains(files.take(n)),
    decreases files.len() - n,
{
    if n < files.len() {
        assert(files.take(n + 1).drop_last() =~= files.take(n));
        lemma_chains_error(files, n + 1);
    } else {
        assert(files.take(n) =~= files);
    }
}

/// What the files of a site directory add.
fn stage_pages(site: &str, files: &Vec<Result<SiteFile, String>>) -> (out: Result<
    Vec<Staged>,
    ServerError,
>)
    ensures
        match out {
            Ok(list) => staged_pages(site@, files@) == Ok::<
                Seq<(Seq<char>, StoredView)>,
                ServerErrorView,
            >(staged_view(list@)),
            Err(e) => staged_pages(site@, files@) == Err::<
                Seq<(Seq<char>, StoredView)>,
                ServerErrorView,
            >(e@),
        },
{
    let mut list: Vec<Staged> = Vec::new();
    let mut i: usize = 0;
    assert(files@.take(0) =~= Seq::empty());
    assert(staged_view(list@) =~= Seq::empty());
    while i < files.len()
        invariant
            i <= files@.len(),
            staged_pages(site@, files@.take(i as int)) == Ok::<
                Seq<(Seq<char>, StoredView)>,
                ServerErrorView,
            >(staged_view(list@)),
        decreases files@.len() - i,
    {
        proof {
            assert(files@.take(i + 1).drop_last() =~= files@.take(i as int));
        }
        let ghost before = staged_view(list@);
        match stage_page(site, &files[i]) {
            Ok(Some(s)) => {
                list.push(s);
                assert(staged_view(list@) =~= before.push(s@));
            },
            Ok(None) => {},
            Err(e) => {
                proof {
                    lemma_pages_error(site@, files@, i + 1);
                }
                return Err(e);
            },
        }
        i = i + 1;
    }
    assert(files@.take(i as int) =~= files@);
    Ok(list)
}

/// What the files of the endpoints directory add.
fn stage_chains(files: &Vec<Result<DirFile, String>>) -> (out: Result<
    Vec<(String, Vec<u8>)>,
    ServerError,
>)
    ensures
        match out {
            Ok(list) => staged_chains(files@) == Ok::<
                Seq<(Seq<char>, Seq<u8>)>,
                ServerErrorView,
            >(chains_view(list@)),
            Err(e) => staged_chains(files@) == Err::<
                Seq<(Seq<char>, Seq<u8>)>,
                ServerErrorView,
            >(e@),
        },
{
    let mut list: Vec<(String, Vec<u8>)> = Vec::new();
    let mut i: usize = 0;
    assert(files@.take(0) =~= Seq::empty());
    assert(chains_view(list@) =~= Seq::empty());
    while i < files.len()
        invariant
            i <= files@.len(),
            staged_chains(files@.take(i as int)) == Ok::<
                Seq<(Seq<char>, Seq<u8>)>,
                ServerErrorView,
            >(chains_view(list@)),
        decreases files@.len() - i,
    {
        proof {
            assert(files@.take(i + 1).drop_last() =~= files@.take(i as int));
        }
        let ghost before = chains_view(list@);
        match stage_chain(&files[i]) {
            Ok(Some(c)) => {
                list.push(c);
                assert(chains_view(list@) =~= before.push((c.0@, c.1@)));
            },
            Ok(None) => {},
            Err(e) => {
                proof {
                    lemma_chains_error(files@, i + 1);
                }
                return Err(e);
            },
        }
        i = i + 1;
    }
    assert(files@.take(i as int) =~= files@);
    Ok(list)
}

impl SiteStore {
    /// Loads the files of a site directory, and those of its endpoints
    /// directory, as they were read; returns the number of pages. What is
    /// invalid fails the whole load, and then nothing of it is served.
    pub fn load_dir(
        &mut self,
        site: &str,
        files: &Vec<Result<SiteFile, String>>,
        endpoints: &Result<Vec<Result<DirFile, String>>, String>,
    ) -> (out: Result<usize, ServerError>)
        ensures
            match out {
                Ok(n) => loaded_dir(old(self)@, site@, files@, *endpoints) == Ok::<
                    (SiteView, nat),
                    ServerErrorView,
                >((final(self)@, n as nat)),
                Err(e) => loaded_dir(old(self)@, site@, files@, *endpoints) == Err::<
                    (SiteView, nat),
                    ServerErrorView,
                >(e@) && final(self)@ == old(self)@,
            },
    {
        let pages = match stage_pages(site, files) {
            Ok(list) => list,
            Err(e) => return Err(e),
        };
        let chains = match endpoints {
            Ok(list) => match stage_chains(list) {
                Ok(list) => list,
                Err(e) => return Err(e),
            },
            Err(e) => return Err(ServerError::Content(e.clone())),
        };
        let ghost first = self@;
        let ghost pv = staged_view(pages@);
        let ghost cv = chains_view(chains@);
        let mut i: usize = 0;
        assert(pv.take(0) =~= Seq::empty());
        while i < pages.len()
            invariant
                i <= pages@.len(),
                pv == staged_view(pages@),
                self@ == with_pages(first, site@, pv.take(i as int)),
            decreases pages@.len() - i,
        {
            proof {
                assert(pv.take(i + 1).drop_last() =~= pv.take(i as int));
            }
            let p = &pages[i];
            self.insert(
                site,
                p.stem.as_str(),
                slice_to_vec(p.bytes.as_slice()),
                Ok(slice_to_vec(p.canonical.as_slice())),
            );
            i = i + 1;
        }
        assert(pv.take(i as int) =~= pv);
        let ghost second = self@;
        let mut j: usize = 0;
        assert(cv.take(0) =~= Seq::empty());
        while j < chains.len()
            invariant
                j <= chains@.len(),
                cv == chains_view(chains@),
                self@ == with_chains(second, cv.take(j as int)),
            decreases chains@.len() - j,
        {
            proof {
                assert(cv.take(j + 1).drop_last() =~= cv.take(j as int));
            }
            self.insert_endpoint_records(
                chains[j].0.as_str(),
                slice_to_vec(chains[j].1.as_slice()),
            );
            j = j + 1;
        }
        assert(cv.take(j as int) =~= cv);
        Ok(pages.len())
    }
}

/// What came of a pack.
#[derive(Debug, Clone, Copy, PartialEq, Eq, Structural)]
pub struct PackReport {
    /// Pages that were taken in.
    pub pages: usize,
    /// Record chains that were taken in.
    pub chains: usize,
    /// Blobs that are neither.
    pub skipped: usize,
}

/// What the JSON reader made of a blob, and the canonical form of that.
#[derive(Debug)]
pub struct PackedPage {
    pub page: Result<Page, String>,
    pub canonical: Vec<u8>,
}

/// The text of a field that may be missing.
pub open spec fn field(t: Option<Seq<char>>) -> Seq<char> {
    match t {
        Some(s) => s,
        None => Seq::empty(),
    }
}

/// A path of a signed record: a content path, or `@` and a site name.
pub open spec fn record_path(p: Seq<char>) -> bool {
    valid_path(p) || (p.len() > 0 && p[0] == '@' && valid_site(p.skip(1)))
}

/// A record chain: at least one record, each with a valid site and path and a
/// signature, all for one and the same route.
pub open spec fn is_chain(
    list: Seq<(Option<Seq<char>>, Option<Seq<char>>, Option<Seq<char>>)>,
) -> bool {
    &&& list.len() > 0
    &&& forall|i: int|
        0 <= i < list.len() ==> {
            let e = #[trigger] list[i];
            &&& valid_site(field(e.0))
            &&& record_path(field(e.1))
            &&& field(e.2).len() > 0
            &&& field(e.0) == field(list[0].0)
            &&& field(e.1) == field(list[0].1)
        }
}

/// What a blob of a pack is.
pub enum BlobKind {
    Page { site: Seq<char>, path: Seq<char>, page: StoredView },
    Chain { site: Seq<char>, path: Seq<char> },
    Other,
}

/// A blob is a page where it is valid and its own site and path are.
pub open spec fn page_in(blob: Seq<u8>, p: PackedPage) -> bool {
    form_fault(blob, p.page) is None && valid_site(p.page->Ok_0@.site) && valid_path(
        p.page->Ok_0@.path,
    )
}

/// What a blob of a pack is; a blob that is no page may be a chain.
pub open spec fn kind_of(blob: Seq<u8>, p: Option<PackedPage>) -> BlobKind {
    if p is Some && page_in(blob, p->0) {
        BlobKind::Page {
            site: p->0.page->Ok_0@.site,
            path: p->0.page->Ok_0@.path,
            page: stored(blob, Ok(p->0.canonical@)),
        }
    } else {
        match entries_in_json(blob) {
            Ok(Some(list)) if is_chain(list) => BlobKind::Chain {
                site: field(list[0].0),
                path: field(list[0].1),
            },
            _ => BlobKind::Other,
        }
    }
}

/// The store and the chains after the pages of blobs were taken in.
pub struct PassView {
    pub site: SiteView,
    /// Site, path and blob of each chain.
    pub chains: Seq<(Seq<char>, Seq<char>, Seq<u8>)>,
    pub pages: nat,
    pub skipped: nat,
}

/// What came of the first blobs of a pack: pages are stored under their own
/// site and path, chains wait until all pages are there.
pub open spec fn sorted_out(v: SiteView, blobs: Seq<Seq<u8>>, parsed: Seq<PackedPage>) -> PassView
    decreases blobs.len(),
{
    if blobs.len() == 0 {
        PassView { site: v, chains: Seq::empty(), pages: 0, skipped: 0 }
    } else {
        let before = sorted_out(v, blobs.drop_last(), parsed);
        let i = blobs.len() - 1;
        match kind_of(
            blobs.last(),
            if i < parsed.len() {
                Some(parsed[i])
            } else {
                None
            },
        ) {
            BlobKind::Page { site, path, page } => PassView {
                site: SiteView {
                    pages: before.site.pages.insert((site, path), page),
                    ..before.site
                },
                pages: before.pages + 1,
                ..before
            },
            BlobKind::Chain { site, path } => PassView {
                chains: before.chains.push((site, path, blobs.last())),
                ..before
            },
            BlobKind::Other => PassView { skipped: before.skipped + 1, ..before },
        }
    }
}

/// The first site, in order, with a page of a path.
pub open spec fn is_first_site(v: SiteView, path: Seq<char>, site: Seq<char>) -> bool {
    &&& v.pages.dom().contains((site, path))
    &&& forall|s: Seq<char>| #[trigger] v.pages.dom().contains((s, path)) ==> !text_lt(s, site)
}

/// The route that a chain vouches for: the page with its path, of the first
/// site that has one; without such a page the chain's own site.
pub open spec fn route_site(v: SiteView, own: Seq<char>, path: Seq<char>) -> Seq<char> {
    if exists|s: Seq<char>| is_first_site(v, path, s) {
        choose|s: Seq<char>| is_first_site(v, path, s)
    } else {
        own
    }
}

/// A store with chains bound to their routes in turn.
pub open spec fn with_bound(v: SiteView, chains: Seq<(Seq<char>, Seq<char>, Seq<u8>)>) -> SiteView
    decreases chains.len(),
{
    if chains.len() == 0 {
        v
    } else {
        let before = with_bound(v, chains.drop_last());
        let (own, path, blob) = chains.last();
        SiteView {
            records: before.records.insert((route_site(v, own, path), path), blob),
            ..before
        }
    }
}

/// What a pack makes of a store.
pub open spec fn loaded_pack(v: SiteView, pack: Seq<u8>, parsed: Seq<PackedPage>) -> Result<
    (SiteView, PackReport),
    ServerErrorView,
> {
    match unpacked(pack) {
        Err(e) => Err(ServerErrorView::Content(crate::storage::error_text(e))),
        Ok(blobs) => {
            let p = sorted_out(v, blobs, parsed);
            Ok(
                (
                    with_bound(p.site, p.chains),
                    PackReport {
                        pages: p.pages as usize,
                        chains: p.chains.len() as usize,
                        skipped: p.skipped as usize,
                    },
                ),
            )
        },
    }
}

/// The text of a field that may be missing.
fn field_text(t: &Option<String>) -> (out: String)
    ensures
        out@ == field(opt_text(*t)),
{
    match t {
        Some(s) => s.clone(),
        None => String::new(),
    }
}

/// Whether a path may stand in a signed record.
fn is_record_path(p: &str) -> (yes: bool)
    ensures
        yes == record_path(p@),
{
    if is_valid_path(p) {
        return true;
    }
    let n = p.unicode_len();
    if n == 0 || p.get_char(0) != '@' {
        return false;
    }
    assert(p@.subrange(1, n as int) =~= p@.skip(1));
    is_valid_site(p.substring_char(1, n))
}

/// Whether a list of records is a chain.
pub fn valid_chain(records: &Vec<ChainEntry>) -> (yes: bool)
    ensures
        yes == is_chain(entries_view(records@)),
{
    if records.len() == 0 {
        return false;
    }
    let ghost list = entries_view(records@);
    let site = field_text(&records[0].site);
    let path = field_text(&records[0].path);
    assert(list[0] == records@[0]@);
    let mut i: usize = 0;
    while i < records.len()
        invariant
            i <= records@.len(),
            records@.len() > 0,
            list == entries_view(records@),
            site@ == field(list[0].0),
            path@ == field(list[0].1),
            forall|j: int|
                0 <= j < i ==> {
                    let e = #[trigger] list[j];
                    &&& valid_site(field(e.0))
                    &&& record_path(field(e.1))
                    &&& field(e.2).len() > 0
                    &&& field(e.0) == field(list[0].0)
                    &&& field(e.1) == field(list[0].1)
                },
        decreases records@.len() - i,
    {
        let r = &records[i];
        assert(list[i as int] == r@);
        let s = field_text(&r.site);
        let p = field_text(&r.path);
        let sig = field_text(&r.signature);
        if !is_valid_site(s.as_str()) || !is_record_path(p.as_str()) || sig.as_str().unicode_len()
            == 0 || s != site || p != path {
            return false;
        }
        i = i + 1;
    }
    true
}

/// The values of chains that wait.
spec fn waiting_view(s: Seq<(String, String, Vec<u8>)>) -> Seq<(Seq<char>, Seq<char>, Seq<u8>)> {
    Seq::new(s.len(), |i: int| (s[i].0@, s[i].1@, s[i].2@))
}

/// Site and path of the chain that a blob is.
fn chain_route(blob: &[u8]) -> (out: Option<(String, String)>)
    ensures
        match entries_in_json(blob@) {
            Ok(Some(list)) if is_chain(list) => out matches Some(r) && r.0@ == field(list[0].0)
                && r.1@ == field(list[0].1),
            _ => out is None,
        },
{
    match chain_from_json(blob) {
        Ok(Some(list)) => {
            if valid_chain(&list) {
                assert(entries_view(list@)[0] == list@[0]@);
                Some((field_text(&list[0].site), field_text(&list[0].path)))
            } else {
                None
            }
        },
        _ => None,
    }
}

proof fn lemma_first_site(v: SiteView, own: Seq<char>, path: Seq<char>, site: Seq<char>)
    requires
        is_first_site(v, path, site),
    ensures
        route_site(v, own, path) == site,
{
    let other = route_site(v, own, path);
    assert(is_first_site(v, path, other));
    lemma_text_lt_total(site, other);
}

/// Site and path of the page that a blob is.
fn page_route(blob: &[u8], p: &PackedPage) -> (out: Option<(String, String)>)
    ensures
        match out {
            Some(r) => page_in(blob@, *p) && r.0@ == p.page->Ok_0@.site && r.1@
                == p.page->Ok_0@.path,
            None => !page_in(blob@, *p),
        },
{
    if Page::check_form(blob, &p.page).is_err() {
        return None;
    }
    match &p.page {
        Ok(page) => {
            if is_valid_site(page.metadata.site.as_str()) && is_valid_path(
                page.metadata.path.as_str(),
            ) {
                Some((page.metadata.site.clone(), page.metadata.path.clone()))
            } else {
                None
            }
        },
        Err(_) => None,
    }
}

impl SiteStore {
    /// Takes in a pack of blobs, with what the JSON reader made of each. A
    /// pack that is not right in every entry changes nothing. Pages are
    /// stored under their own site and path; a chain of records under the
    /// route that it vouches for. Other blobs are counted only.
    pub fn load_pack(&mut self, pack: &[u8], parsed: &Vec<PackedPage>) -> (out: Result<
        PackReport,
        ServerError,
    >)
        ensures
            match out {
                Ok(report) => loaded_pack(old(self)@, pack@, parsed@) == Ok::<
                    (SiteView, PackReport),
                    ServerErrorView,
                >((final(self)@, report)),
                Err(e) => loaded_pack(old(self)@, pack@, parsed@) == Err::<
                    (SiteView, PackReport),
                    ServerErrorView,
                >(e@) && final(self)@ == old(self)@,
            },
    {
        let blobs = match FsStore::unpack(pack) {
            Ok(b) => b,
            Err(e) => return Err(ServerError::Content(e.to_string())),
        };
        let ghost first = self@;
        let ghost all = Seq::new(blobs@.len(), |i: int| blobs@[i].1@);
        let mut chains: Vec<(String, String, Vec<u8>)> = Vec::new();
        let mut pages: usize = 0;
        let mut skipped: usize = 0;
        let mut i: usize = 0;
        assert(all.take(0) =~= Seq::empty());
        assert(waiting_view(chains@) =~= Seq::empty());
        while i < blobs.len()
            invariant
                i <= blobs@.len(),
                pages + skipped + chains@.len() == i,
                all == Seq::new(blobs@.len(), |i: int| blobs@[i].1@),
                sorted_out(first, all.take(i as int), parsed@) == (PassView {
                    site: self@,
                    chains: waiting_view(chains@),
                    pages: pages as nat,
                    skipped: skipped as nat,
                }),
            decreases blobs@.len() - i,
        {
            let blob = blobs[i].1.as_slice();
            let ghost before = waiting_view(chains@);
            proof {
                assert(all.take(i + 1).drop_last() =~= all.take(i as int));
                assert(all.take(i + 1).last() == blob@);
            }
            let page = if i < parsed.len() {
                page_route(blob, &parsed[i])
            } else {
                None
            };
            match page {
                Some(r) => {
                    self.insert(
                        r.0.as_str(),
                        r.1.as_str(),
                        slice_to_vec(blob),
                        Ok(slice_to_vec(parsed[i].canonical.as_slice())),
                    );
                    pages = pages + 1;
                },
                None => match chain_route(blob) {
                    Some(r) => {
                        let ghost item = (r.0@, r.1@, blob@);
                        chains.push((r.0, r.1, slice_to_vec(blob)));
                        assert(waiting_view(chains@) =~= before.push(item));
                    },
                    None => {
                        skipped = skipped + 1;
                    },
                },
            }
            i = i + 1;
        }
        assert(all.take(i as int) =~= all);
        let ghost second = self@;
        let ghost waiting = waiting_view(chains@);
        let mut j: usize = 0;
        assert(waiting.take(0) =~= Seq::empty());
        while j < chains.len()
            invariant
                j <= chains@.len(),
                waiting == waiting_view(chains@),
                self@ == with_bound(second, waiting.take(j as int)),
                self@.pages == second.pages,
            decreases chains@.len() - j,
        {
            proof {
                assert(waiting.take(j + 1).drop_last() =~= waiting.take(j as int));
            }
            let item = &chains[j];
            let site = match self.first_site(item.1.as_str()) {
                Some(s) => {
                    proof {
                        assert(is_first_site(second, item.1@, s@));
                        lemma_first_site(second, item.0@, item.1@, s@);
                    }
                    s
                },
                None => {
                    assert forall|s: Seq<char>| !is_first_site(second, item.1@, s) by {}
                    item.0.clone()
                },
            };
            self.insert_records(site.as_str(), item.1.as_str(), item.2.as_slice());
            j = j + 1;
        }
        assert(waiting.take(j as int) =~= waiting);
        Ok(PackReport { pages, chains: chains.len(), skipped })
    }
}

/// After a pack was taken in, every page of it is served with the bytes that
/// the pack holds, where no later blob is a page of the same route.
pub proof fn law_packed_pages_are_served(
    v: SiteView,
    blobs: Seq<Seq<u8>>,
    parsed: Seq<PackedPage>,
    i: int,
)
    requires
        0 <= i < blobs.len() <= parsed.len(),
        page_in(blobs[i], parsed[i]),
        forall|j: int|
            i < j < blobs.len() && #[trigger] page_in(blobs[j], parsed[j]) ==> (
            parsed[j].page->Ok_0@.site,
            parsed[j].page->Ok_0@.path,
        ) != (parsed[i].page->Ok_0@.site, parsed[i].page->Ok_0@.path),
    ensures
        ({
            let p = sorted_out(v, blobs, parsed);
            let key = (parsed[i].page->Ok_0@.site, parsed[i].page->Ok_0@.path);
            let after = with_bound(p.site, p.chains);
            after.pages.dom().contains(key) && after.pages[key].bytes == blobs[i]
        }),
{
    lemma_page_stays(v, blobs, parsed, i);
    let p = sorted_out(v, blobs, parsed);
    lemma_bound_keeps_pages(p.site, p.chains);
}

proof fn lemma_page_stays(
    v: SiteView,
    blobs: Seq<Seq<u8>>,
    parsed: Seq<PackedPage>,
    i: int,
)
    requires
        0 <= i < blobs.len() <= parsed.len(),
        page_in(blobs[i], parsed[i]),
        forall|j: int|
            i < j < blobs.len() && #[trigger] page_in(blobs[j], parsed[j]) ==> (
            parsed[j].page->Ok_0@.site,
            parsed[j].page->Ok_0@.path,
        ) != (parsed[i].page->Ok_0@.site, parsed[i].page->Ok_0@.path),
    ensures
        ({
            let pages = sorted_out(v, blobs, parsed).site.pages;
            let key = (parsed[i].page->Ok_0@.site, parsed[i].page->Ok_0@.path);
            pages.dom().contains(key) && pages[key].bytes == blobs[i]
        }),
    decreases blobs.len(),
{
    if i < blobs.len() - 1 {
        let front = blobs.drop_last();
        assert forall|j: int|
            i < j < front.len() && #[trigger] page_in(front[j], parsed[j]) implies (
            parsed[j].page->Ok_0@.site,
            parsed[j].page->Ok_0@.path,
        ) != (parsed[i].page->Ok_0@.site, parsed[i].page->Ok_0@.path) by {
            assert(front[j] == blobs[j]);
            assert(page_in(blobs[j], parsed[j]));
        }
        lemma_page_stays(v, front, parsed, i);
        let last = blobs.len() - 1;
        if page_in(blobs[last], parsed[last]) {
        }
    }
}

proof fn lemma_bound_keeps_pages(v: SiteView, chains: Seq<(Seq<char>, Seq<char>, Seq<u8>)>)
    ensures
        with_bound(v, chains).pages == v.pages,
    decreases chains.len(),
{
    if chains.len() > 0 {
        lemma_bound_keeps_pages(v, chains.drop_last());
    }
}

/// A directory with one bad file adds nothing: whatever stands before the
/// first error is not served.
pub proof fn law_bad_files_abort_the_load(
    v: SiteView,
    site: Seq<char>,
    files: Seq<Result<SiteFile, String>>,
    endpoints: Result<Vec<Result<DirFile, String>>, String>,
    i: int,
)
    requires
        0 <= i < files.len(),
        staged_page(site, files[i]) is Err,
    ensures
        loaded_dir(v, site, files, endpoints) is Err,
{
    let upto = files.take(i + 1);
    assert(upto.drop_last() =~= files.take(i));
    assert(upto.last() == files[i]);
    lemma_pages_error(site, files, i + 1);
}

/// A file of a site directory is served exactly where it is a JSON file that
/// could be read, holds a valid page, and that page says of itself that it is
/// of this site and of the path that the file is named after. A file of
/// another kind is passed over; anything else is an error.
pub proof fn law_when_files_are_served(site: Seq<char>, f: SiteFile)
    ensures
        ({
            let json = f.file.extension matches Some(e) && e@ == "json"@;
            &&& !json ==> staged_page(site, Ok(f)) == Ok::<
                Option<(Seq<char>, StoredView)>,
                ServerErrorView,
            >(None)
            &&& json ==> (staged_page(site, Ok(f)) is Ok <==> {
                &&& f.file.stem matches Some(stem) && (f.file.bytes matches Ok(bytes) && form_fault(
                    bytes@,
                    f.page,
                ) is None && f.page->Ok_0@.site == site && f.page->Ok_0@.path == stem@)
            })
            &&& json ==> (staged_page(site, Ok(f)) matches Ok(out) ==> (out matches Some(p) && p.0
                == f.file.stem->0@ && p.1.bytes == f.file.bytes->Ok_0@ && p.1.id == Ok::<
                Seq<char>,
                Seq<char>,
            >(crate::digest::content_id(f.canonical@))))
        }),
{
}

/// A file of the endpoints directory is served exactly where it is a JSON file
/// named after a valid site that could be read and holds an array, as it is.
pub proof fn law_when_endpoint_files_are_served(f: DirFile)
    ensures
        ({
            let json = f.extension matches Some(e) && e@ == "json"@;
            &&& !json ==> staged_chain(Ok(f)) == Ok::<
                Option<(Seq<char>, Seq<u8>)>,
                ServerErrorView,
            >(None)
            &&& json ==> (staged_chain(Ok(f)) is Ok <==> {
                &&& f.stem matches Some(name) && valid_site(name@) && (f.bytes matches Ok(b)
                    && entries_in_json(b@) is Ok && entries_in_json(b@)->Ok_0 is Some)
            })
            &&& json ==> (staged_chain(Ok(f)) matches Ok(out) ==> out == Some(
                (f.stem->0@, f.bytes->Ok_0@),
            ))
        }),
{
}

/// A JSON file of a site directory.
spec fn json_file(f: Result<SiteFile, String>) -> bool {
    f matches Ok(f) && is_json_file(f.file)
}

proof fn lemma_staged_count(site: Seq<char>, files: Seq<Result<SiteFile, String>>)
    requires
        staged_pages(site, files) is Ok,
    ensures
        staged_pages(site, files)->Ok_0.len() == files.filter(
            |f: Result<SiteFile, String>| json_file(f),
        ).len(),
    decreases files.len(),
{
    reveal(Seq::filter);
    if files.len() > 0 {
        lemma_staged_count(site, files.drop_last());
    }
}

proof fn lemma_staged_file(site: Seq<char>, files: Seq<Result<SiteFile, String>>, i: int)
    requires
        staged_pages(site, files) is Ok,
        0 <= i < files.len(),
        json_file(files[i]),
    ensures
        staged_page(site, files[i]) is Ok,
        staged_page(site, files[i])->Ok_0 is Some,
        staged_pages(site, files)->Ok_0.contains(staged_page(site, files[i])->Ok_0->0),
    decreases files.len(),
{
    let front = files.drop_last();
    let list = staged_pages(site, files)->Ok_0;
    if i < front.len() {
        lemma_staged_file(site, front, i);
        let before = staged_pages(site, front)->Ok_0;
        let x = staged_page(site, front[i])->Ok_0->0;
        assert(list[before.index_of(x)] == x);
    } else {
        assert(list[list.len() - 1] == staged_page(site, files.last())->Ok_0->0);
    }
}

/// The file that a staged page came from.
proof fn lemma_staged_from(site: Seq<char>, files: Seq<Result<SiteFile, String>>, j: int) -> (i: int)
    requires
        staged_pages(site, files) is Ok,
        0 <= j < staged_pages(site, files)->Ok_0.len(),
    ensures
        0 <= i < files.len(),
        json_file(files[i]),
        staged_page(site, files[i]) == Ok::<Option<(Seq<char>, StoredView)>, ServerErrorView>(
            Some(staged_pages(site, files)->Ok_0[j]),
        ),
    decreases files.len(),
{
    let front = files.drop_last();
    let before = staged_pages(site, front)->Ok_0;
    if j < before.len() {
        lemma_staged_from(site, front, j)
    } else {
        files.len() - 1
    }
}

proof fn lemma_with_pages(
    v: SiteView,
    site: Seq<char>,
    list: Seq<(Seq<char>, StoredView)>,
    k: (Seq<char>, Seq<char>),
)
    requires
        k.0 != site,
    ensures
        with_pages(v, site, list).pages.dom().contains(k) <==> v.pages.dom().contains(k),
        with_pages(v, site, list).pages[k] == v.pages[k],
        with_pages(v, site, list).records == v.records,
        with_pages(v, site, list).endpoints == v.endpoints,
        with_pages(v, site, list).signer == v.signer,
    decreases list.len(),
{
    if list.len() > 0 {
        lemma_with_pages(v, site, list.drop_last(), k);
    }
}

proof fn lemma_with_chains(v: SiteView, list: Seq<(Seq<char>, Seq<u8>)>)
    ensures
        with_chains(v, list).pages == v.pages,
        with_chains(v, list).records == v.records,
        with_chains(v, list).signer == v.signer,
    decreases list.len(),
{
    if list.len() > 0 {
        lemma_with_chains(v, list.drop_last());
    }
}

/// A file more in the endpoints directory adds its records under its own name
/// and changes nothing else.
pub proof fn law_endpoint_files_add_up(
    v: SiteView,
    files: Seq<Result<DirFile, String>>,
    f: Result<DirFile, String>,
    list: Seq<(Seq<char>, Seq<u8>)>,
    c: (Seq<char>, Seq<u8>),
)
    ensures
        staged_chains(Seq::empty()) == Ok::<Seq<(Seq<char>, Seq<u8>)>, ServerErrorView>(
            Seq::empty(),
        ),
        staged_chains(files.push(f)) == match (staged_chains(files), staged_chain(f)) {
            (Err(e), _) => Err::<Seq<(Seq<char>, Seq<u8>)>, ServerErrorView>(e),
            (Ok(_), Err(e)) => Err(e),
            (Ok(before), Ok(None)) => Ok(before),
            (Ok(before), Ok(Some(one))) => Ok(before.push(one)),
        },
        with_chains(v, Seq::empty()) == v,
        with_chains(v, list.push(c)).endpoints == with_chains(v, list).endpoints.insert(c.0, c.1),
        with_chains(v, list).pages == v.pages,
        with_chains(v, list).records == v.records,
{
    assert(files.push(f).drop_last() =~= files);
    assert(list.push(c).drop_last() =~= list);
    lemma_with_chains(v, list);
}

/// A directory that loads is served in full: the page of each JSON file is
/// there with the bytes of its file, under the site and the name of the file,
/// and the number of them is told. Pages of other sites and signed records
/// stay as they were.
pub proof fn law_loaded_directories_are_served(
    v: SiteView,
    site: Seq<char>,
    files: Seq<Result<SiteFile, String>>,
    endpoints: Result<Vec<Result<DirFile, String>>, String>,
    i: int,
    other: (Seq<char>, Seq<char>),
)
    requires
        loaded_dir(v, site, files, endpoints) is Ok,
        0 <= i < files.len(),
        files[i] matches Ok(f) && (f.file.extension matches Some(e) && e@ == "json"@),
        forall|j: int|
            0 <= j < files.len() && j != i && (#[trigger] files[j]) is Ok
                && files[j]->Ok_0.file.stem is Some && files[i]->Ok_0.file.stem is Some
                ==> files[j]->Ok_0.file.stem->0@ != files[i]->Ok_0.file.stem->0@,
    ensures
        ({
            let (w, n) = loaded_dir(v, site, files, endpoints)->Ok_0;
            let f = files[i]->Ok_0;
            &&& f.file.stem is Some
            &&& f.file.bytes is Ok
            &&& w.pages.dom().contains((site, f.file.stem->0@))
            &&& w.pages[(site, f.file.stem->0@)].bytes == f.file.bytes->Ok_0@
            &&& w.pages[(site, f.file.stem->0@)].id == Ok::<Seq<char>, Seq<char>>(
                crate::digest::content_id(f.canonical@),
            )
            &&& other.0 != site ==> (w.pages.dom().contains(other) <==> v.pages.dom().contains(
                other,
            )) && w.pages[other] == v.pages[other]
            &&& w.records == v.records
            &&& w.signer == v.signer
            &&& n == files.filter(
                |f: Result<SiteFile, String>|
                    f matches Ok(g) && (g.file.extension matches Some(e) && e@ == "json"@),
            ).len()
        }),
{
    let pages = staged_pages(site, files)->Ok_0;
    let chains = staged_chains(endpoints->Ok_0@)->Ok_0;
    lemma_staged_count(site, files);
    let u = with_pages(v, site, pages);
    lemma_with_chains(u, chains);
    if other.0 != site {
        lemma_with_pages(v, site, pages, other);
    }
    assert(site.push('x').len() != site.len());
    lemma_with_pages(v, site, pages, (site.push('x'), site));
    let f = files[i]->Ok_0;
    assert(json_file(files[i]));
    law_when_files_are_served(site, f);
    lemma_staged_file(site, files, i);
    let own = staged_page(site, files[i])->Ok_0->0;
    assert forall|l: int| 0 <= l < pages.len() && (#[trigger] pages[l]).0 == own.0 implies pages[l]
        == own by {
        let k = lemma_staged_from(site, files, l);
        law_when_files_are_served(site, files[k]->Ok_0);
        if k != i {
            assert(files[k]->Ok_0.file.stem->0@ != f.file.stem->0@);
        }
    }
    lemma_last_with_name(v, site, pages, own);
    let a = |f: Result<SiteFile, String>| json_file(f);
    let b = |f: Result<SiteFile, String>|
        f matches Ok(g) && (g.file.extension matches Some(e) && e@ == "json"@);
    assert forall|x: Result<SiteFile, String>| #[trigger] a(x) == b(x) by {}
    assert(a =~= b);
}

/// A page that is staged with no other page under its name is served.
proof fn lemma_last_with_name(
    v: SiteView,
    site: Seq<char>,
    list: Seq<(Seq<char>, StoredView)>,
    own: (Seq<char>, StoredView),
)
    requires
        list.contains(own),
        forall|l: int| 0 <= l < list.len() && (#[trigger] list[l]).0 == own.0 ==> list[l] == own,
    ensures
        with_pages(v, site, list).pages.dom().contains((site, own.0)),
        with_pages(v, site, list).pages[(site, own.0)] == own.1,
    decreases list.len(),
{
    let front = list.drop_last();
    assert(list[list.len() - 1] == list.last());
    if list.last().0 != own.0 {
        let j = list.index_of(own);
        assert(front[j] == own);
        assert forall|l: int|
            0 <= l < front.len() && (#[trigger] front[l]).0 == own.0 implies front[l] == own by {
            assert(front[l] == list[l]);
        }
        lemma_last_with_name(v, site, front, own);
    }
}

/// A chain of records is at least one record, each signed and for a valid site
/// and path, all for the same; what is no page but such a chain is one.
pub proof fn law_what_is_a_chain(
    list: Seq<(Option<Seq<char>>, Option<Seq<char>>, Option<Seq<char>>)>,
)
    ensures
        is_chain(list) <==> {
            &&& list.len() > 0
            &&& list[0].0 is Some && list[0].1 is Some
            &&& forall|i: int|
                0 <= i < list.len() ==> {
                    let e = #[trigger] list[i];
                    &&& e.0 == list[0].0
                    &&& e.1 == list[0].1
                    &&& e.0 matches Some(site) && valid_site(site)
                    &&& e.1 matches Some(path) && (valid_path(path) || (path.len() > 0 && path[0]
                        == '@' && valid_site(path.skip(1))))
                    &&& e.2 matches Some(sig) && sig.len() > 0
                }
        },
{
    if is_chain(list) {
        assert(valid_site(field(list[0].0)));
        assert(record_path(field(list[0].1)));
    }
}

/// Every blob of a pack is a page, a chain or neither, and is counted as such.
pub proof fn law_every_blob_is_counted(
    v: SiteView,
    blobs: Seq<Seq<u8>>,
    parsed: Seq<PackedPage>,
)
    ensures
        ({
            let p = sorted_out(v, blobs, parsed);
            &&& p.pages + p.chains.len() + p.skipped == blobs.len()
            &&& p.site.records == v.records
            &&& p.site.endpoints == v.endpoints
        }),
    decreases blobs.len(),
{
    if blobs.len() > 0 {
        law_every_blob_is_counted(v, blobs.drop_last(), parsed);
    }
}

/// A blob of a pack is a page where it is a valid one of a valid site and
/// path, then kept under these as it is; else it is a chain where it is one.
pub proof fn law_what_a_blob_is(blob: Seq<u8>, p: PackedPage)
    ensures
        ({
            let page = form_fault(blob, p.page) is None && valid_site(p.page->Ok_0@.site)
                && valid_path(p.page->Ok_0@.path);
            match kind_of(blob, Some(p)) {
                BlobKind::Page { site, path, page: kept } => page && site == p.page->Ok_0@.site
                    && path == p.page->Ok_0@.path && kept.bytes == blob && kept.id == Ok::<
                    Seq<char>,
                    Seq<char>,
                >(crate::digest::content_id(p.canonical@)),
                BlobKind::Chain { site, path } => !page && (entries_in_json(blob) matches Ok(
                    Some(list),
                ) && is_chain(list) && list[0].0 == Some(site) && list[0].1 == Some(path)),
                BlobKind::Other => !page && !(entries_in_json(blob) matches Ok(Some(list))
                    && is_chain(list)),
            }
        }),
{
    if let Ok(Some(list)) = entries_in_json(blob) {
        law_what_is_a_chain(list);
    }
}

/// A chain vouches for the page of its path: it is kept under the first site,
/// in order, that has one, and under its own site where none has. The last
/// chain for a route counts, and no page is touched.
pub proof fn law_chains_are_bound_to_pages(
    v: SiteView,
    chains: Seq<(Seq<char>, Seq<char>, Seq<u8>)>,
    own: Seq<char>,
    path: Seq<char>,
    blob: Seq<u8>,
    site: Seq<char>,
)
    ensures
        with_bound(v, Seq::empty()) == v,
        with_bound(v, chains).pages == v.pages,
        with_bound(v, chains).endpoints == v.endpoints,
        (forall|s: Seq<char>| !#[trigger] v.pages.dom().contains((s, path))) ==> with_bound(
            v,
            chains.push((own, path, blob)),
        ).records == with_bound(v, chains).records.insert((own, path), blob),
        v.pages.dom().contains((site, path)) && (forall|s: Seq<char>| #[trigger]
            v.pages.dom().contains((s, path)) ==> s == site || text_lt(site, s)) ==> with_bound(
            v,
            chains.push((own, path, blob)),
        ).records == with_bound(v, chains).records.insert((site, path), blob),
    decreases chains.len(),
{
    let all = chains.push((own, path, blob));
    assert(all.drop_last() =~= chains);
    if chains.len() > 0 {
        let c = chains.last();
        law_chains_are_bound_to_pages(v, chains.drop_last(), c.0, c.1, c.2, site);
    }
    if v.pages.dom().contains((site, path)) && (forall|s: Seq<char>| #[trigger]
        v.pages.dom().contains((s, path)) ==> s == site || text_lt(site, s)) {
        assert forall|s: Seq<char>| #[trigger] v.pages.dom().contains((s, path)) implies !text_lt(
            s,
            site,
        ) by {
            if s == site {
                crate::table::lemma_text_lt_irreflexive(s);
            } else if text_lt(s, site) {
                crate::table::lemma_text_lt_transitive(s, site, s);
                crate::table::lemma_text_lt_irreflexive(s);
            }
        }
        lemma_first_site(v, own, path, site);
    }
}

/// Blobs are sorted out one by one: a page is served and counted, a chain
/// waits for its page, and anything else is skipped.
pub proof fn law_blobs_are_sorted_out_one_by_one(
    v: SiteView,
    blobs: Seq<Seq<u8>>,
    blob: Seq<u8>,
    parsed: Seq<PackedPage>,
)
    requires
        blobs.len() < parsed.len(),
    ensures
        sorted_out(v, Seq::empty(), parsed) == (PassView {
            site: v,
            chains: Seq::empty(),
            pages: 0,
            skipped: 0,
        }),
        ({
            let before = sorted_out(v, blobs, parsed);
            let after = sorted_out(v, blobs.push(blob), parsed);
            match kind_of(blob, Some(parsed[blobs.len() as int])) {
                BlobKind::Page { site, path, page } => {
                    &&& after.site.pages == before.site.pages.insert((site, path), page)
                    &&& after.pages == before.pages + 1
                    &&& after.chains == before.chains
                    &&& after.skipped == before.skipped
                },
                BlobKind::Chain { site, path } => {
                    &&& after.site == before.site
                    &&& after.pages == before.pages
                    &&& after.chains == before.chains.push((site, path, blob))
                    &&& after.skipped == before.skipped
                },
                BlobKind::Other => {
                    &&& after.site == before.site
                    &&& after.pages == before.pages
                    &&& after.chains == before.chains
                    &&& after.skipped == before.skipped + 1
                },
            }
        }),
{
    assert(blobs.push(blob).drop_last() =~= blobs);
}

/// A pack that can be read is served whole, and the report counts what was in
/// it; one that cannot be read changes nothing and is told as content.
pub proof fn law_loaded_packs(v: SiteView, pack: Seq<u8>, parsed: Seq<PackedPage>)
    ensures
        match unpacked(pack) {
            Err(e) => loaded_pack(v, pack, parsed) == Err::<(SiteView, PackReport), ServerErrorView>(
                ServerErrorView::Content(crate::storage::error_text(e)),
            ),
            Ok(blobs) => {
                let p = sorted_out(v, blobs, parsed);
                loaded_pack(v, pack, parsed) matches Ok((w, report)) && {
                    &&& w == with_bound(p.site, p.chains)
                    &&& blobs.len() <= usize::MAX ==> report.pages == p.pages && report.chains
                        == p.chains.len() && report.skipped == p.skipped && report.pages
                        + report.chains + report.skipped == blobs.len()
                }
            },
        },
{
    if let Ok(blobs) = unpacked(pack) {
        law_every_blob_is_counted(v, blobs, parsed);
    }
}

/// Why a page file aborts the load: it could not be listed, it has no name, it
/// could not be read, it is no page, or it says that it is another page.
pub proof fn law_why_files_abort_the_load(site: Seq<char>, f: SiteFile, why: String)
    ensures
        staged_page(site, Err(why)) == Err::<Option<(Seq<char>, StoredView)>, ServerErrorView>(
            ServerErrorView::Content(why@),
        ),
        staged_page(site, Ok(f)) matches Err(e) ==> (e matches ServerErrorView::Content(text)
            && text == match (f.file.stem, f.file.bytes) {
            (None, _) => "bad filename"@,
            (Some(_), Err(w)) => w@,
            (Some(stem), Ok(bytes)) => match form_fault(bytes@, f.page) {
                Some(fault) => crate::content::error_text(fault),
                None => "metadata mismatch in "@ + f.file.display@ + ": expected "@ + site + "/"@
                    + stem@,
            },
        }),
{
}

/// Why an endpoint file aborts the load: it has no name or none of a site, it
/// could not be read, or it holds no array.
pub proof fn law_why_endpoint_files_abort_the_load(f: DirFile, why: String)
    ensures
        staged_chain(Err(why)) == Err::<Option<(Seq<char>, Seq<u8>)>, ServerErrorView>(
            ServerErrorView::Content(why@),
        ),
        staged_chain(Ok(f)) matches Err(e) ==> (e matches ServerErrorView::Content(text) && text
            == match f.stem {
            None => "bad endpoint filename"@,
            Some(name) => if !valid_site(name@) {
                "bad endpoint name in "@ + f.display@
            } else {
                match f.bytes {
                    Err(w) => w@,
                    Ok(b) => match entries_in_json(b@) {
                        Err(w) => f.display@ + ": "@ + w,
                        Ok(_) => f.display@ + ": endpoint chain must be a JSON array"@,
                    },
                }
            },
        }),
{
}

} // verus!
