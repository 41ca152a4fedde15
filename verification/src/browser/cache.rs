//! The offline cache of pages.
//!
//! The index says for each site and path which blob holds the page, and which
//! holds the records that vouched for it. Blobs are content-addressed. What
//! is cached is checked again before it is served: a blob that does not hash
//! to its id, a page that is invalid or of another place, or records that no
//! longer hold, are a miss, and the entry is dropped.

use crate::browser::{
    check_page, fetch_records, fetched_records, is_vouched, page_fault, pin_fault, records_view,
    verify_pinned, BrowserError, BrowserErrorView, PageReply, RecordsReply,
};
use crate::content::{form_fault, opt_text, Page, PageView};
use crate::digest::{content_id, is_content_id, law_content_id_is_valid, valid_content_id};
use crate::hex_text::is_hex_digit;
use crate::identity::SignedRecord;
use crate::protocol::{
    checked_target, encode_conditional_request, encoded_conditional, is_valid_path, is_valid_site,
    site_char, valid_path, valid_site, ConditionalFetch, ConditionalView, ProtocolErrorView,
    TargetView,
};
use crate::storage::{FsStore, StoreErrorView, MAX_BLOB};
use crate::table::TextMap;
use crate::text::{chars_of, lemma_split_joined, same_text};
use crate::transport::{TransportError, TransportErrorView};
use vstd::prelude::*;
use vstd::slice::slice_to_vec;
use vstd::string::*;

verus! {

/// How a page was obtained.
#[derive(Debug, Clone, Copy, PartialEq, Eq, Structural)]
pub enum CacheStatus {
    /// From the network.
    Fresh,
    /// From the cache, offline, not verified.
    Stale,
    /// From the cache, offline, with the records verified again.
    StaleVerified,
}

/// What the index says of a page.
#[derive(Debug, PartialEq, Eq)]
pub struct Entry {
    pub content_id: String,
    pub fetched_at: u64,
    /// Content id of the records in JSON, where the fetch was verified.
    pub records_id: Option<String>,
    /// The site key that they were verified against.
    pub pin: Option<String>,
}

/// The mathematical value of an [`Entry`].
pub struct EntryView {
    pub content_id: Seq<char>,
    pub fetched_at: u64,
    pub records_id: Option<Seq<char>>,
    pub pin: Option<Seq<char>>,
}

impl View for Entry {
    type V = EntryView;

    open spec fn view(&self) -> EntryView {
        EntryView {
            content_id: self.content_id@,
            fetched_at: self.fetched_at,
            records_id: opt_text(self.records_id),
            pin: opt_text(self.pin),
        }
    }
}

/// The index of the cache.
#[derive(Debug)]
pub struct Index {
    pub pages: TextMap<Entry>,
}

impl View for Index {
    type V = Map<Seq<char>, EntryView>;

    open spec fn view(&self) -> Map<Seq<char>, EntryView> {
        self.pages@.map_values(|e: Entry| e@)
    }
}

impl Default for Index {
    fn default() -> (i: Self)
        ensures
            i@ == Map::<Seq<char>, EntryView>::empty(),
    {
        let i = Index { pages: TextMap::new() };
        assert(i@ =~= Map::<Seq<char>, EntryView>::empty());
        i
    }
}

/// The key of a page in the index. A unit separator parts site and path; it
/// stands in neither of them.
pub open spec fn index_key(site: Seq<char>, path: Seq<char>) -> Seq<char> {
    site + seq!['\u{1f}'] + path
}

/// The key of a page in the index.
pub fn key(site: &str, path: &str) -> (k: String)
    ensures
        k@ == index_key(site@, path@),
{
    let mut k = site.to_owned();
    k.push('\u{1f}');
    k.append(path);
    assert(k@ =~= index_key(site@, path@));
    k
}

/// Only a valid site and path have a place in the cache.
pub open spec fn cacheable(site: Seq<char>, path: Seq<char>) -> bool {
    valid_site(site) && valid_path(path)
}

/// Whether a site and path have a place in the cache.
pub fn valid_key(site: &str, path: &str) -> (yes: bool)
    ensures
        yes == cacheable(site@, path@),
{
    is_valid_site(site) && is_valid_path(path)
}

/// The id of a blob as the store itself makes it: `b3:` and 64 lowercase
/// hexadecimal digits.
pub open spec fn blob_id(s: Seq<char>) -> bool {
    &&& valid_content_id(s)
    &&& forall|i: int| 3 <= i < 67 ==> !('A' <= #[trigger] s[i] <= 'Z')
}

/// Whether a text is the id of a blob as the store itself makes it.
pub fn is_blob_id(id: &str) -> (yes: bool)
    ensures
        yes == blob_id(id@),
{
    if !is_content_id(id) {
        return false;
    }
    let chars = chars_of(id);
    let mut i: usize = 3;
    while i < 67
        invariant
            3 <= i <= 67,
            chars@ == id@,
            id@.len() == 67,
            forall|j: int| 3 <= j < i ==> !('A' <= #[trigger] id@[j] <= 'Z'),
        decreases 67 - i,
    {
        let c = chars[i];
        if 'A' <= c && c <= 'Z' {
            assert('A' <= id@[i as int] <= 'Z');
            return false;
        }
        i = i + 1;
    }
    true
}

/// A blob to be written: its content id, directory, file name and bytes.
#[derive(Debug, PartialEq, Eq)]
pub struct BlobWrite {
    pub id: String,
    pub shard: String,
    pub rest: String,
    pub bytes: Vec<u8>,
}

impl BlobWrite {
    /// The blob holds these bytes, and is named after their content id.
    pub open spec fn holds(self, bytes: Seq<u8>) -> bool {
        &&& self.bytes@ == bytes
        &&& self.id@ == content_id(bytes)
        &&& self.shard@ == self.id@.subrange(3, 5)
        &&& self.rest@ == self.id@.subrange(5, 67)
    }
}

/// What the file of a page blob holds, nothing without a file; what the JSON
/// reader made of it, and the canonical form of that.
#[derive(Debug)]
pub struct LocalPage {
    pub file: Option<Vec<u8>>,
    pub page: Result<Page, String>,
    pub canonical: Vec<u8>,
}

/// What the file of a records blob holds, nothing without a file; and what
/// the JSON reader made of it.
#[derive(Debug)]
pub struct LocalChain {
    pub file: Option<Vec<u8>>,
    pub records: Result<Vec<SignedRecord>, String>,
}

/// A file is the blob with an id.
pub open spec fn is_blob(id: Seq<char>, file: Option<Vec<u8>>) -> bool {
    valid_content_id(id) && (file matches Some(b) && id == content_id(b@))
}

/// The entry of a page; none where the index cannot be read.
pub open spec fn entry_of(
    index: Option<Map<Seq<char>, EntryView>>,
    site: Seq<char>,
    path: Seq<char>,
) -> Option<EntryView> {
    match index {
        Some(m) => if cacheable(site, path) && m.dom().contains(index_key(site, path)) {
            Some(m[index_key(site, path)])
        } else {
            None
        },
        None => None,
    }
}

/// The index without a page.
pub open spec fn without(
    index: Option<Map<Seq<char>, EntryView>>,
    site: Seq<char>,
    path: Seq<char>,
) -> Option<Map<Seq<char>, EntryView>> {
    match index {
        Some(m) => if cacheable(site, path) {
            Some(m.remove(index_key(site, path)))
        } else {
            index
        },
        None => None,
    }
}

/// The index with a page; one that cannot be read is started anew.
pub open spec fn with_entry(
    index: Option<Map<Seq<char>, EntryView>>,
    site: Seq<char>,
    path: Seq<char>,
    e: EntryView,
) -> Option<Map<Seq<char>, EntryView>> {
    let m = match index {
        Some(m) => m,
        None => Map::empty(),
    };
    Some(m.insert(index_key(site, path), e))
}

/// The cached page can be served: its blob is what the entry says, it is
/// valid, and it is the page of this site and path.
pub open spec fn servable(e: EntryView, site: Seq<char>, path: Seq<char>, local: LocalPage) -> bool {
    &&& is_blob(e.content_id, local.file)
    &&& form_fault(local.file->0@, local.page) is None
    &&& local.page->Ok_0@.site == site
    &&& local.page->Ok_0@.path == path
}

/// The page that a lookup finds.
pub open spec fn found(
    index: Option<Map<Seq<char>, EntryView>>,
    site: Seq<char>,
    path: Seq<char>,
    local: LocalPage,
) -> Option<PageView> {
    match entry_of(index, site, path) {
        Some(e) => if servable(e, site, path, local) {
            Some(local.page->Ok_0@)
        } else {
            None
        },
        None => None,
    }
}

/// The index after a lookup: a miss drops the entry.
pub open spec fn after_lookup(
    index: Option<Map<Seq<char>, EntryView>>,
    site: Seq<char>,
    path: Seq<char>,
    local: LocalPage,
) -> Option<Map<Seq<char>, EntryView>> {
    if entry_of(index, site, path) is Some && found(index, site, path, local) is None {
        without(index, site, path)
    } else {
        index
    }
}

/// The cached records can be used: their blob is what the entry says, and
/// they can be read.
pub open spec fn readable_chain(e: EntryView, chain: LocalChain) -> bool {
    e.records_id is Some && is_blob(e.records_id->0, chain.file) && chain.records is Ok
}

/// The entry is one of this pin.
pub open spec fn pinned_entry(
    index: Option<Map<Seq<char>, EntryView>>,
    site: Seq<char>,
    path: Seq<char>,
    pin: Seq<char>,
) -> bool {
    entry_of(index, site, path) matches Some(e) && e.pin == Some(pin)
}

/// The page that a verified lookup finds: the entry was verified against this
/// pin, and its records still vouch for the page.
pub open spec fn found_verified(
    index: Option<Map<Seq<char>, EntryView>>,
    site: Seq<char>,
    path: Seq<char>,
    pin: Seq<char>,
    chain: LocalChain,
    local: LocalPage,
    now: u64,
) -> Option<PageView> {
    if pinned_entry(index, site, path, pin) && readable_chain(
        entry_of(index, site, path)->0,
        chain,
    ) && found(index, site, path, local) is Some && pin_fault(
        local.canonical@,
        pin,
        path,
        records_view(chain.records->Ok_0@),
        now,
    ) is None {
        found(index, site, path, local)
    } else {
        None
    }
}

/// The index after a verified lookup: an entry of this pin that is a miss is
/// dropped.
pub open spec fn after_verified(
    index: Option<Map<Seq<char>, EntryView>>,
    site: Seq<char>,
    path: Seq<char>,
    pin: Seq<char>,
    chain: LocalChain,
    local: LocalPage,
    now: u64,
) -> Option<Map<Seq<char>, EntryView>> {
    if pinned_entry(index, site, path, pin) && found_verified(
        index,
        site,
        path,
        pin,
        chain,
        local,
        now,
    ) is None {
        without(index, site, path)
    } else {
        index
    }
}

/// The cache: where it lies, and its index as it was read, nothing where it
/// cannot be read.
#[derive(Debug)]
pub struct OfflineCache {
    pub dir: String,
    pub blobs: FsStore,
    pub index: Option<Index>,
}

impl View for OfflineCache {
    type V = Option<Map<Seq<char>, EntryView>>;

    open spec fn view(&self) -> Option<Map<Seq<char>, EntryView>> {
        match self.index {
            Some(i) => Some(i@),
            None => None,
        }
    }
}

impl OfflineCache {
    /// The cache in a directory, with its index as it was read.
    pub fn new(dir: &str, index: Option<Index>) -> (c: Self)
        ensures
            c.dir@ == dir@,
            c.blobs@ == dir@ + "/blobs"@,
            c.index == index,
    {
        let blobs = dir.to_owned().concat("/blobs");
        OfflineCache { dir: dir.to_owned(), blobs: FsStore::new(blobs.as_str()), index }
    }

    /// The content id that is cached for a page.
    pub fn cached_id(&self, site: &str, path: &str) -> (out: Option<String>)
        ensures
            opt_text(out) == match entry_of(self@, site@, path@) {
                Some(e) => Some(e.content_id),
                None => None,
            },
    {
        match self.entry(site, path) {
            Some(e) => Some(e.content_id.clone()),
            None => None,
        }
    }

    /// The entry of a page.
    pub fn entry(&self, site: &str, path: &str) -> (out: Option<&Entry>)
        ensures
            match out {
                Some(e) => entry_of(self@, site@, path@) == Some(e@),
                None => entry_of(self@, site@, path@) is None,
            },
    {
        if !valid_key(site, path) {
            return None;
        }
        match &self.index {
            Some(i) => i.pages.get(key(site, path).as_str()),
            None => None,
        }
    }

    /// Drops a page; tells whether it was there.
    pub fn remove(&mut self, site: &str, path: &str) -> (gone: bool)
        ensures
            final(self)@ == without(old(self)@, site@, path@),
            gone == entry_of(old(self)@, site@, path@) is Some,
            final(self).dir@ == old(self).dir@,
            final(self).blobs@ == old(self).blobs@,
    {
        if !valid_key(site, path) {
            return false;
        }
        let mut index: Option<Index> = None;
        std::mem::swap(&mut self.index, &mut index);
        match index {
            None => false,
            Some(i) => {
                let mut pages = i.pages;
                let gone = pages.remove(key(site, path).as_str()).is_some();
                let after = Index { pages };
                assert(after@ =~= i@.remove(index_key(site@, path@)));
                self.index = Some(after);
                gone
            },
        }
    }

    /// Sets the entry of a page, and hands out the blob to be written. An
    /// invalid site or path has no place in the cache, and changes nothing.
    fn put_inner(
        &mut self,
        site: &str,
        path: &str,
        canonical: &[u8],
        records_id: Option<String>,
        pin: Option<String>,
        now: u64,
    ) -> (out: Result<Option<BlobWrite>, BrowserError>)
        ensures
            match out {
                Ok(None) => !cacheable(site@, path@) && final(self)@ == old(self)@,
                Ok(Some(w)) => {
                    &&& cacheable(site@, path@)
                    &&& canonical@.len() <= MAX_BLOB
                    &&& w.holds(canonical@)
                    &&& final(self)@ == with_entry(
                        old(self)@,
                        site@,
                        path@,
                        EntryView {
                            content_id: content_id(canonical@),
                            fetched_at: now,
                            records_id: opt_text(records_id),
                            pin: opt_text(pin),
                        },
                    )
                },
                Err(e) => {
                    &&& cacheable(site@, path@)
                    &&& canonical@.len() > MAX_BLOB
                    &&& final(self)@ == old(self)@
                    &&& e@ == BrowserErrorView::Cache(
                        crate::storage::error_text(StoreErrorView::TooLarge(canonical@.len())),
                    )
                },
            },
            final(self).dir@ == old(self).dir@,
            final(self).blobs@ == old(self).blobs@,
    {
        if !valid_key(site, path) {
            return Ok(None);
        }
        let (id, shard, rest) = match self.blobs.put(canonical) {
            Ok(place) => place,
            Err(e) => return Err(BrowserError::from_store(e)),
        };
        let mut index: Option<Index> = None;
        std::mem::swap(&mut self.index, &mut index);
        let i = match index {
            Some(i) => i,
            None => Index::default(),
        };
        let ghost before = i@;
        let mut pages = i.pages;
        let entry = Entry { content_id: id.clone(), fetched_at: now, records_id, pin };
        let ghost ev = entry@;
        pages.insert(key(site, path), entry);
        let after = Index { pages };
        assert(after@ =~= before.insert(index_key(site@, path@), ev));
        self.index = Some(after);
        Ok(Some(BlobWrite { id, shard, rest, bytes: slice_to_vec(canonical) }))
    }

    /// Caches a page, by its canonical form; it replaces what was there, and
    /// no records vouch for it.
    pub fn put(&mut self, site: &str, path: &str, canonical: &[u8], now: u64) -> (out: Result<
        Option<BlobWrite>,
        BrowserError,
    >)
        ensures
            match out {
                Ok(None) => !cacheable(site@, path@) && final(self)@ == old(self)@,
                Ok(Some(w)) => {
                    &&& cacheable(site@, path@)
                    &&& canonical@.len() <= MAX_BLOB
                    &&& w.holds(canonical@)
                    &&& final(self)@ == with_entry(
                        old(self)@,
                        site@,
                        path@,
                        plain_entry(canonical@, now),
                    )
                },
                Err(e) => {
                    &&& cacheable(site@, path@)
                    &&& canonical@.len() > MAX_BLOB
                    &&& final(self)@ == old(self)@
                    &&& e@ == BrowserErrorView::Cache(
                        crate::storage::error_text(StoreErrorView::TooLarge(canonical@.len())),
                    )
                },
            },
            final(self).dir@ == old(self).dir@,
            final(self).blobs@ == old(self).blobs@,
    {
        self.put_inner(site, path, canonical, None, None, now)
    }

    /// Caches a verified page with the records that vouch for it, in JSON,
    /// and the pinned site key.
    pub fn put_verified(
        &mut self,
        site: &str,
        path: &str,
        canonical: &[u8],
        chain_json: &[u8],
        pin: &str,
        now: u64,
    ) -> (out: (Option<BlobWrite>, Result<Option<BlobWrite>, BrowserError>))
        ensures
            match out.0 {
                Some(w) => chain_json@.len() <= MAX_BLOB && w.holds(chain_json@),
                None => chain_json@.len() > MAX_BLOB,
            },
            match out.1 {
                Ok(None) => {
                    &&& chain_json@.len() <= MAX_BLOB
                    &&& !cacheable(site@, path@)
                    &&& final(self)@ == old(self)@
                },
                Ok(Some(w)) => {
                    &&& chain_json@.len() <= MAX_BLOB
                    &&& cacheable(site@, path@)
                    &&& canonical@.len() <= MAX_BLOB
                    &&& w.holds(canonical@)
                    &&& final(self)@ == with_entry(
                        old(self)@,
                        site@,
                        path@,
                        verified_entry(canonical@, chain_json@, pin@, now),
                    )
                },
                Err(e) => {
                    &&& final(self)@ == old(self)@
                    &&& chain_json@.len() > MAX_BLOB || (cacheable(site@, path@)
                        && canonical@.len() > MAX_BLOB)
                    &&& e@ == BrowserErrorView::Cache(
                        crate::storage::error_text(
                            StoreErrorView::TooLarge(
                                if chain_json@.len() > MAX_BLOB {
                                    chain_json@.len()
                                } else {
                                    canonical@.len()
                                },
                            ),
                        ),
                    )
                },
            },
            final(self).dir@ == old(self).dir@,
            final(self).blobs@ == old(self).blobs@,
    {
        let (id, shard, rest) = match self.blobs.put(chain_json) {
            Ok(place) => place,
            Err(e) => return (None, Err(BrowserError::from_store(e))),
        };
        let records_id = Some(id.clone());
        let chain = BlobWrite { id, shard, rest, bytes: slice_to_vec(chain_json) };
        let page = self.put_inner(site, path, canonical, records_id, Some(pin.to_owned()), now);
        (Some(chain), page)
    }

    /// The cached page, where it can be served; `local` is what the blob of
    /// its content id holds. A miss drops the entry.
    pub fn lookup(&mut self, site: &str, path: &str, local: LocalPage) -> (out: Option<Page>)
        ensures
            match out {
                Some(p) => found(old(self)@, site@, path@, local) == Some(p@),
                None => found(old(self)@, site@, path@, local) is None,
            },
            final(self)@ == after_lookup(old(self)@, site@, path@, local),
            final(self).dir@ == old(self).dir@,
            final(self).blobs@ == old(self).blobs@,
    {
        let good = match self.entry(site, path) {
            None => return None,
            Some(e) => can_serve(e, site, path, &local),
        };
        if !good {
            self.remove(site, path);
            return None;
        }
        match local.page {
            Ok(p) => Some(p),
            Err(_) => None,
        }
    }

    /// The cached page, where it was verified against this pin and its
    /// records still vouch for it now. A miss drops the entry, where it is
    /// one of this pin.
    pub fn lookup_verified(
        &mut self,
        site: &str,
        path: &str,
        pin: &str,
        chain: LocalChain,
        local: LocalPage,
        now: u64,
    ) -> (out: Option<Page>)
        ensures
            match out {
                Some(p) => found_verified(old(self)@, site@, path@, pin@, chain, local, now)
                    == Some(p@),
                None => found_verified(old(self)@, site@, path@, pin@, chain, local, now) is None,
            },
            final(self)@ == after_verified(old(self)@, site@, path@, pin@, chain, local, now),
            final(self).dir@ == old(self).dir@,
            final(self).blobs@ == old(self).blobs@,
    {
        let good = match self.entry(site, path) {
            None => return None,
            Some(e) => {
                match &e.pin {
                    Some(p) => if !same_text(p.as_str(), pin) {
                        return None;
                    },
                    None => return None,
                }
                match (&e.records_id, &chain.records) {
                    (Some(records_id), Ok(records)) => matches_blob(
                        records_id.as_str(),
                        &chain.file,
                    ) && can_serve(e, site, path, &local) && verify_pinned(
                        local.canonical.as_slice(),
                        pin,
                        path,
                        records,
                        now,
                    ).is_ok(),
                    _ => false,
                }
            },
        };
        if !good {
            self.remove(site, path);
            return None;
        }
        match local.page {
            Ok(p) => Some(p),
            Err(_) => None,
        }
    }
}

/// The entry of a page without records.
pub open spec fn plain_entry(canonical: Seq<u8>, now: u64) -> EntryView {
    EntryView {
        content_id: content_id(canonical),
        fetched_at: now,
        records_id: None,
        pin: None,
    }
}

/// The entry of a page with the records that vouch for it.
pub open spec fn verified_entry(
    canonical: Seq<u8>,
    chain: Seq<u8>,
    pin: Seq<char>,
    now: u64,
) -> EntryView {
    EntryView {
        content_id: content_id(canonical),
        fetched_at: now,
        records_id: Some(content_id(chain)),
        pin: Some(pin),
    }
}

/// Whether a file is the blob with an id.
fn matches_blob(id: &str, file: &Option<Vec<u8>>) -> (yes: bool)
    ensures
        yes == is_blob(id@, *file),
{
    match file {
        None => false,
        Some(b) => is_content_id(id) && same_text(
            crate::digest::content_id_of(b.as_slice()).as_str(),
            id,
        ),
    }
}

/// Whether a cached page can be served.
fn can_serve(e: &Entry, site: &str, path: &str, local: &LocalPage) -> (yes: bool)
    ensures
        yes == servable(e@, site@, path@, *local),
{
    if !matches_blob(e.content_id.as_str(), &local.file) {
        return false;
    }
    let bytes = match &local.file {
        Some(b) => b,
        None => return false,
    };
    if Page::check_form(bytes.as_slice(), &local.page).is_err() {
        return false;
    }
    match &local.page {
        Ok(p) => same_text(p.metadata.site.as_str(), site) && same_text(
            p.metadata.path.as_str(),
            path,
        ),
        Err(_) => false,
    }
}

/// The request for a page: it carries the content id that is cached, where
/// that is one, so that a page that did not change is not sent again.
pub open spec fn cached_request(
    index: Option<Map<Seq<char>, EntryView>>,
    site: Seq<char>,
    path: Seq<char>,
) -> ConditionalView {
    ConditionalView {
        target: TargetView { site, path },
        if_id: match entry_of(index, site, path) {
            Some(e) => if valid_content_id(e.content_id) {
                Some(e.content_id)
            } else {
                None
            },
            None => None,
        },
    }
}

/// What comes of a fetch through the cache.
#[derive(Debug)]
pub enum CacheFetch {
    /// The page, and how it was obtained.
    Served(Page, CacheStatus),
    /// The server confirmed a page that is not there any more: it has to be
    /// fetched without a condition.
    Retry,
    /// No page.
    Failed(BrowserError),
}

/// The mathematical value of a [`CacheFetch`].
pub enum CacheFetchView {
    Served(PageView, CacheStatus),
    Retry,
    Failed(BrowserErrorView),
}

impl View for CacheFetch {
    type V = CacheFetchView;

    open spec fn view(&self) -> CacheFetchView {
        match self {
            CacheFetch::Served(p, status) => CacheFetchView::Served(p@, *status),
            CacheFetch::Retry => CacheFetchView::Retry,
            CacheFetch::Failed(e) => CacheFetchView::Failed(e@),
        }
    }
}

/// What comes of a fetch: a page that was sent is served and cached; one that
/// the server confirmed is served from the cache; where the server cannot be
/// reached, what is cached is served as stale. No other failure is hidden.
pub open spec fn cached_fetch(
    index: Option<Map<Seq<char>, EntryView>>,
    site: Seq<char>,
    path: Seq<char>,
    r: PageReply,
    local: LocalPage,
) -> CacheFetchView {
    match (checked_target(TargetView { site, path }), r.reply) {
        (Err(e), _) => CacheFetchView::Failed(BrowserErrorView::Protocol(e)),
        (Ok(_), Ok((code, body))) => if code == 304 {
            match found(index, site, path, local) {
                Some(p) => CacheFetchView::Served(p, CacheStatus::Fresh),
                None => CacheFetchView::Retry,
            }
        } else {
            match page_fault(site, path, r) {
                Some(e) => CacheFetchView::Failed(e),
                None => CacheFetchView::Served(r.page->Ok_0@, CacheStatus::Fresh),
            }
        },
        (Ok(_), Err(e)) => match (e, found(index, site, path, local)) {
            (TransportError::Io(_), Some(p)) => CacheFetchView::Served(p, CacheStatus::Stale),
            _ => CacheFetchView::Failed(BrowserErrorView::Transport(e@)),
        },
    }
}

/// A page that was sent is stored: it is valid, and fits.
pub open spec fn is_stored(site: Seq<char>, path: Seq<char>, r: PageReply) -> bool {
    page_fault(site, path, r) is None && r.canonical@.len() <= MAX_BLOB
}

/// The index after a fetch.
pub open spec fn after_fetch(
    index: Option<Map<Seq<char>, EntryView>>,
    site: Seq<char>,
    path: Seq<char>,
    r: PageReply,
    local: LocalPage,
    now: u64,
) -> Option<Map<Seq<char>, EntryView>> {
    match (checked_target(TargetView { site, path }), r.reply) {
        (Err(_), _) => index,
        (Ok(_), Ok((code, _))) => if code == 304 {
            after_lookup(index, site, path, local)
        } else if is_stored(site, path, r) {
            with_entry(index, site, path, plain_entry(r.canonical@, now))
        } else {
            index
        },
        (Ok(_), Err(TransportError::Io(_))) => after_lookup(index, site, path, local),
        (Ok(_), Err(_)) => index,
    }
}

/// Why a verified fetch gives no page: the page, the records, or that they do
/// not vouch for it.
pub open spec fn verified_fault(
    site: Seq<char>,
    path: Seq<char>,
    pin: Seq<char>,
    r: PageReply,
    chain: RecordsReply,
    now: u64,
) -> Option<BrowserErrorView> {
    match (page_fault(site, path, r), fetched_records(site, path, chain)) {
        (Some(e), _) => Some(e),
        (None, Err(e)) => Some(e),
        (None, Ok(records)) => if records.len() == 0 {
            Some(BrowserErrorView::PinRecordsRequired(pin))
        } else {
            pin_fault(r.canonical@, pin, path, records, now)
        },
    }
}

/// What comes of a verified fetch. Where the server cannot be reached, what
/// is cached and still vouched for is served; no other failure is hidden.
pub open spec fn verified_fetch(
    index: Option<Map<Seq<char>, EntryView>>,
    site: Seq<char>,
    path: Seq<char>,
    pin: Seq<char>,
    r: PageReply,
    chain: RecordsReply,
    old_chain: LocalChain,
    local: LocalPage,
    now: u64,
) -> Result<(PageView, CacheStatus), BrowserErrorView> {
    match verified_fault(site, path, pin, r, chain, now) {
        None => Ok((r.page->Ok_0@, CacheStatus::Fresh)),
        Some(e) => match (
            e,
            found_verified(index, site, path, pin, old_chain, local, now),
        ) {
            (BrowserErrorView::Transport(TransportErrorView::Io(_)), Some(p)) => Ok(
                (p, CacheStatus::StaleVerified),
            ),
            _ => Err(e),
        },
    }
}

/// The records of a page that was sent are stored: they vouch for it, and
/// they fit. Whether the page fits plays no part.
pub open spec fn is_chain_stored(
    site: Seq<char>,
    path: Seq<char>,
    pin: Seq<char>,
    r: PageReply,
    chain: RecordsReply,
    chain_json: Seq<u8>,
    now: u64,
) -> bool {
    verified_fault(site, path, pin, r, chain, now) is None && chain_json.len() <= MAX_BLOB
}

/// A page that was sent is stored behind its records: they vouch for it, and
/// both fit.
pub open spec fn is_stored_verified(
    site: Seq<char>,
    path: Seq<char>,
    pin: Seq<char>,
    r: PageReply,
    chain: RecordsReply,
    chain_json: Seq<u8>,
    now: u64,
) -> bool {
    is_chain_stored(site, path, pin, r, chain, chain_json, now) && r.canonical@.len() <= MAX_BLOB
}

/// The index after a verified fetch.
pub open spec fn after_verified_fetch(
    index: Option<Map<Seq<char>, EntryView>>,
    site: Seq<char>,
    path: Seq<char>,
    pin: Seq<char>,
    r: PageReply,
    chain: RecordsReply,
    chain_json: Seq<u8>,
    old_chain: LocalChain,
    local: LocalPage,
    now: u64,
) -> Option<Map<Seq<char>, EntryView>> {
    match verified_fault(site, path, pin, r, chain, now) {
        None => if r.canonical@.len() <= MAX_BLOB && chain_json.len() <= MAX_BLOB {
            with_entry(index, site, path, verified_entry(r.canonical@, chain_json, pin, now))
        } else {
            index
        },
        Some(BrowserErrorView::Transport(TransportErrorView::Io(_))) => after_verified(
            index,
            site,
            path,
            pin,
            old_chain,
            local,
            now,
        ),
        Some(_) => index,
    }
}

/// Whether a failure means that the server cannot be reached.
fn is_offline(e: &BrowserError) -> (yes: bool)
    ensures
        yes == (e@ matches BrowserErrorView::Transport(t) && t is Io),
{
    match e {
        BrowserError::Transport(TransportError::Io(_)) => true,
        _ => false,
    }
}

impl OfflineCache {
    /// The line that asks for a page through the cache.
    pub fn fetch_line(&self, site: &str, path: &str) -> (out: Result<String, BrowserError>)
        ensures
            match out {
                Ok(line) => encoded_conditional(cached_request(self@, site@, path@)) == Ok::<
                    Seq<char>,
                    ProtocolErrorView,
                >(line@),
                Err(e) => encoded_conditional(cached_request(self@, site@, path@)) matches Err(p)
                    && e@ == BrowserErrorView::Protocol(p),
            },
    {
        let if_id = match self.cached_id(site, path) {
            Some(id) => if is_content_id(id.as_str()) {
                Some(id)
            } else {
                None
            },
            None => None,
        };
        let request = ConditionalFetch { site: site.to_owned(), path: path.to_owned(), if_id };
        match encode_conditional_request(&request) {
            Ok(line) => Ok(line),
            Err(e) => Err(BrowserError::Protocol(e)),
        }
    }

    /// What comes of a fetch, with the blob to be written; `local` is what
    /// the blob of the cached content id holds.
    pub fn fetch(&mut self, site: &str, path: &str, r: PageReply, local: LocalPage, now: u64) -> (out: (
        CacheFetch,
        Option<BlobWrite>,
    ))
        ensures
            out.0@ == cached_fetch(old(self)@, site@, path@, r, local),
            final(self)@ == after_fetch(old(self)@, site@, path@, r, local, now),
            match out.1 {
                Some(w) => is_stored(site@, path@, r) && w.holds(r.canonical@),
                None => !is_stored(site@, path@, r),
            },
            final(self).dir@ == old(self).dir@,
            final(self).blobs@ == old(self).blobs@,
    {
        match crate::browser::page_line(site, path) {
            Ok(_) => {},
            Err(e) => return (CacheFetch::Failed(e), None),
        }
        match &r.reply {
            Ok((code, _)) => {
                if *code == 304 {
                    return match self.lookup(site, path, local) {
                        Some(p) => (CacheFetch::Served(p, CacheStatus::Fresh), None),
                        None => (CacheFetch::Retry, None),
                    };
                }
            },
            Err(TransportError::Io(s)) => {
                return match self.lookup(site, path, local) {
                    Some(p) => (CacheFetch::Served(p, CacheStatus::Stale), None),
                    None => (
                        CacheFetch::Failed(
                            BrowserError::Transport(TransportError::Io(s.clone())),
                        ),
                        None,
                    ),
                };
            },
            Err(_) => {},
        }
        match check_page(site, path, &r) {
            Ok(_) => {},
            Err(e) => return (CacheFetch::Failed(e), None),
        }
        let write = match self.put(site, path, r.canonical.as_slice(), now) {
            Ok(w) => w,
            Err(_) => None,
        };
        match r.page {
            Ok(p) => (CacheFetch::Served(p, CacheStatus::Fresh), write),
            Err(e) => (CacheFetch::Failed(BrowserError::Content(e)), write),
        }
    }

    /// What comes of a verified fetch, with the blobs to be written: that of
    /// the records and that of the page. `old_chain` and `local` are what the blobs of the cached
    /// entry hold.
    pub fn fetch_verified(
        &mut self,
        site: &str,
        path: &str,
        pin: &str,
        r: PageReply,
        chain: RecordsReply,
        chain_json: &[u8],
        old_chain: LocalChain,
        local: LocalPage,
        now: u64,
    ) -> (out: (
        Result<(Page, CacheStatus), BrowserError>,
        (Option<BlobWrite>, Option<BlobWrite>),
    ))
        ensures
            match out.0 {
                Ok(p) => verified_fetch(
                    old(self)@,
                    site@,
                    path@,
                    pin@,
                    r,
                    chain,
                    old_chain,
                    local,
                    now,
                ) == Ok::<(PageView, CacheStatus), BrowserErrorView>((p.0@, p.1)),
                Err(e) => verified_fetch(
                    old(self)@,
                    site@,
                    path@,
                    pin@,
                    r,
                    chain,
                    old_chain,
                    local,
                    now,
                ) == Err::<(PageView, CacheStatus), BrowserErrorView>(e@),
            },
            final(self)@ == after_verified_fetch(
                old(self)@,
                site@,
                path@,
                pin@,
                r,
                chain,
                chain_json@,
                old_chain,
                local,
                now,
            ),
            match out.1.0 {
                Some(w) => is_chain_stored(site@, path@, pin@, r, chain, chain_json@, now)
                    && w.holds(chain_json@),
                None => !is_chain_stored(site@, path@, pin@, r, chain, chain_json@, now),
            },
            match out.1.1 {
                Some(w) => is_stored_verified(site@, path@, pin@, r, chain, chain_json@, now)
                    && w.holds(r.canonical@),
                None => !is_stored_verified(site@, path@, pin@, r, chain, chain_json@, now),
            },
            final(self).dir@ == old(self).dir@,
            final(self).blobs@ == old(self).blobs@,
    {
        match fetch_checked(site, path, pin, &r, chain, now) {
            Ok(_) => {
                let (chain_write, done) = self.put_verified(
                    site,
                    path,
                    r.canonical.as_slice(),
                    chain_json,
                    pin,
                    now,
                );
                let page_write = match done {
                    Ok(w) => w,
                    Err(_) => None,
                };
                let writes = (chain_write, page_write);
                match r.page {
                    Ok(p) => (Ok((p, CacheStatus::Fresh)), writes),
                    Err(e) => (Err(BrowserError::Content(e)), writes),
                }
            },
            Err(e) => {
                if !is_offline(&e) {
                    return (Err(e), (None, None));
                }
                match self.lookup_verified(site, path, pin, old_chain, local, now) {
                    Some(p) => (Ok((p, CacheStatus::StaleVerified)), (None, None)),
                    None => (Err(e), (None, None)),
                }
            },
        }
    }
}

/// Checks a page and the records that have to vouch for it.
fn fetch_checked(
    site: &str,
    path: &str,
    pin: &str,
    r: &PageReply,
    chain: RecordsReply,
    now: u64,
) -> (out: Result<(), BrowserError>)
    ensures
        match out {
            Ok(_) => verified_fault(site@, path@, pin@, *r, chain, now) is None,
            Err(e) => verified_fault(site@, path@, pin@, *r, chain, now) == Some(e@),
        },
{
    match check_page(site, path, r) {
        Ok(_) => {},
        Err(e) => return Err(e),
    }
    let records = match fetch_records(site, path, chain) {
        Ok(list) => list,
        Err(e) => return Err(e),
    };
    if records.len() == 0 {
        return Err(BrowserError::PinRecordsRequired(pin.to_owned()));
    }
    verify_pinned(r.canonical.as_slice(), pin, path, &records, now)
}

/// What a collection removed.
#[derive(Debug, Clone, Copy, PartialEq, Eq, Structural)]
pub struct GcReport {
    /// Files that were removed.
    pub files_removed: usize,
    /// Their bytes together.
    pub bytes_freed: u64,
}

/// A file of the blob store: its directory, its name, and its size where it
/// is known.
#[derive(Debug, Clone, PartialEq, Eq)]
pub struct BlobFile {
    pub shard: String,
    pub name: String,
    pub size: Option<u64>,
}

/// Some entry names a blob.
pub open spec fn is_live(index: Option<Map<Seq<char>, EntryView>>, id: Seq<char>) -> bool {
    index matches Some(m) && exists|k: Seq<char>| #[trigger]
        m.dom().contains(k) && (m[k].content_id == id || m[k].records_id == Some(id))
}

/// The ending of a file that is still being written.
pub open spec fn is_leftover(name: Seq<char>) -> bool {
    name.len() >= 4 && name.skip(name.len() - 4) == ".tmp"@
}

/// A collection removes a file: what an interrupted write left, and the blobs
/// that no entry names. Files that are not the store's own stay.
pub open spec fn is_garbage(
    index: Option<Map<Seq<char>, EntryView>>,
    shard: Seq<char>,
    name: Seq<char>,
) -> bool {
    let id = "b3:"@ + shard + name;
    is_leftover(name) || (blob_id(id) && !is_live(index, id))
}

/// The files of a collection that have a known size.
pub open spec fn counted(
    index: Option<Map<Seq<char>, EntryView>>,
    files: Seq<BlobFile>,
) -> (nat, nat)
    decreases files.len(),
{
    if files.len() == 0 {
        (0, 0)
    } else {
        let (n, bytes) = counted(index, files.drop_last());
        let f = files.last();
        match f.size {
            Some(size) if is_garbage(index, f.shard@, f.name@) => (n + 1, bytes + size as nat),
            _ => (n, bytes),
        }
    }
}

/// Whether a name ends as that of a file that is still being written.
fn leftover(name: &str) -> (yes: bool)
    ensures
        yes == is_leftover(name@),
{
    let n = name.unicode_len();
    if n < 4 {
        return false;
    }
    assert(name@.subrange(n - 4, n as int) =~= name@.skip(n - 4));
    same_text(name.substring_char(n - 4, n), ".tmp")
}

proof fn lemma_counted_grows(
    index: Option<Map<Seq<char>, EntryView>>,
    files: Seq<BlobFile>,
    i: int,
)
    requires
        0 <= i <= files.len(),
    ensures
        counted(index, files.take(i)).1 <= counted(index, files).1,
        counted(index, files.take(i)).0 <= i,
    decreases files.len(),
{
    if i == files.len() {
        assert(files.take(i) =~= files);
        if i > 0 {
            lemma_counted_grows(index, files.drop_last(), i - 1);
            assert(files.drop_last().take(i - 1) =~= files.drop_last());
        }
    } else {
        assert(files.drop_last().take(i) =~= files.take(i));
        lemma_counted_grows(index, files.drop_last(), i);
    }
}

impl OfflineCache {
    /// Whether some entry names a blob.
    fn live(&self, id: &str) -> (yes: bool)
        ensures
            yes == is_live(self@, id@),
    {
        let pages = match &self.index {
            Some(i) => &i.pages,
            None => return false,
        };
        pages.order_facts();
        let ghost m = self@->0;
        let n = pages.len();
        let mut i: usize = 0;
        while i < n
            invariant
                i <= n == pages.key_order().len(),
                self@ == Some(m),
                m == pages@.map_values(|e: Entry| e@),
                forall|k: Seq<char>| #[trigger]
                    pages@.dom().contains(k) <==> pages.key_order().contains(k),
                forall|j: int|
                    0 <= j < i ==> {
                        let k = #[trigger] pages.key_order()[j];
                        m[k].content_id != id@ && m[k].records_id != Some(id@)
                    },
            decreases n - i,
        {
            let (k, e) = pages.entry(i);
            assert(m.dom().contains(k@) && m[k@] == e@);
            let named = match &e.records_id {
                Some(r) => same_text(r.as_str(), id),
                None => false,
            };
            if named || same_text(e.content_id.as_str(), id) {
                return true;
            }
            i = i + 1;
        }
        proof {
            assert forall|k: Seq<char>| #[trigger] m.dom().contains(k) implies m[k].content_id
                != id@ && m[k].records_id != Some(id@) by {
                assert(pages@.dom().contains(k));
                let j = pages.key_order().index_of(k);
                assert(pages.key_order()[j] == k);
            }
        }
        false
    }

    /// Whether a collection removes a file.
    pub fn garbage(&self, shard: &str, name: &str) -> (yes: bool)
        ensures
            yes == is_garbage(self@, shard@, name@),
    {
        if leftover(name) {
            return true;
        }
        let id = "b3:".to_owned().concat(shard).concat(name);
        is_blob_id(id.as_str()) && !self.live(id.as_str())
    }

    /// Which of the files of the blob store are to be removed, and what that
    /// frees.
    pub fn gc(&self, files: &Vec<BlobFile>) -> (out: (Vec<bool>, GcReport))
        requires
            counted(self@, files@).1 <= u64::MAX,
        ensures
            out.0@.len() == files@.len(),
            forall|i: int|
                0 <= i < files@.len() ==> #[trigger] out.0@[i] == is_garbage(
                    self@,
                    files@[i].shard@,
                    files@[i].name@,
                ),
            out.1.files_removed == counted(self@, files@).0,
            out.1.bytes_freed == counted(self@, files@).1,
    {
        let mut verdicts: Vec<bool> = Vec::new();
        let mut files_removed: usize = 0;
        let mut bytes_freed: u64 = 0;
        let mut i: usize = 0;
        assert(files@.take(0) =~= Seq::empty());
        while i < files.len()
            invariant
                i <= files@.len(),
                verdicts@.len() == i,
                counted(self@, files@).1 <= u64::MAX,
                forall|j: int|
                    0 <= j < i ==> #[trigger] verdicts@[j] == is_garbage(
                        self@,
                        files@[j].shard@,
                        files@[j].name@,
                    ),
                counted(self@, files@.take(i as int)) == (
                    files_removed as nat,
                    bytes_freed as nat,
                ),
            decreases files@.len() - i,
        {
            let f = &files[i];
            proof {
                assert(files@.take(i + 1).drop_last() =~= files@.take(i as int));
                lemma_counted_grows(self@, files@, i + 1);
            }
            let gone = self.garbage(f.shard.as_str(), f.name.as_str());
            if gone {
                if let Some(size) = f.size {
                    files_removed = files_removed + 1;
                    bytes_freed = bytes_freed + size;
                }
            }
            verdicts.push(gone);
            i = i + 1;
        }
        assert(files@.take(i as int) =~= files@);
        (verdicts, GcReport { files_removed, bytes_freed })
    }
}

/// Different pages have different keys.
pub proof fn law_index_keys_are_apart(
    site: Seq<char>,
    path: Seq<char>,
    other_site: Seq<char>,
    other_path: Seq<char>,
)
    requires
        cacheable(site, path),
        cacheable(other_site, other_path),
        index_key(site, path) == index_key(other_site, other_path),
    ensures
        site == other_site,
        path == other_path,
{
    assert forall|i: int| 0 <= i < site.len() implies site[i] != '\u{1f}' by {
        assert(site_char(site[i]));
    }
    assert forall|i: int| 0 <= i < other_site.len() implies other_site[i] != '\u{1f}' by {
        assert(site_char(other_site[i]));
    }
    lemma_split_joined(site, '\u{1f}', path);
    lemma_split_joined(other_site, '\u{1f}', other_path);
}

/// A page that was cached is found again, as long as its blob holds its
/// canonical form.
pub proof fn law_cached_pages_are_found(
    index: Option<Map<Seq<char>, EntryView>>,
    site: Seq<char>,
    path: Seq<char>,
    canonical: Seq<u8>,
    now: u64,
    local: LocalPage,
)
    requires
        cacheable(site, path),
        local.file matches Some(b) && b@ == canonical,
        form_fault(canonical, local.page) is None,
        local.page matches Ok(p) && p@.site == site && p@.path == path,
    ensures
        found(with_entry(index, site, path, plain_entry(canonical, now)), site, path, local)
            == Some(local.page->Ok_0@),
{
    law_content_id_is_valid(canonical);
}

/// What is served from the cache hashes to the content id of its entry, and
/// is the page that was asked for.
pub proof fn law_served_pages_match_their_id(
    index: Option<Map<Seq<char>, EntryView>>,
    site: Seq<char>,
    path: Seq<char>,
    local: LocalPage,
)
    requires
        found(index, site, path, local) is Some,
    ensures
        entry_of(index, site, path) matches Some(e) && (local.file matches Some(b) && content_id(b@)
            == e.content_id),
        found(index, site, path, local)->0.site == site,
        found(index, site, path, local)->0.path == path,
{
}

/// A page that is cached without records satisfies no pin, whatever stood in
/// its place before.
pub proof fn law_plain_pages_satisfy_no_pin(
    index: Option<Map<Seq<char>, EntryView>>,
    site: Seq<char>,
    path: Seq<char>,
    canonical: Seq<u8>,
    fetched: u64,
    pin: Seq<char>,
    chain: LocalChain,
    local: LocalPage,
    now: u64,
)
    ensures
        found_verified(
            with_entry(index, site, path, plain_entry(canonical, fetched)),
            site,
            path,
            pin,
            chain,
            local,
            now,
        ) is None,
{
}

/// What a verified lookup serves is vouched for now, by the records that were
/// cached with it.
pub proof fn law_verified_pages_are_vouched_for(
    index: Option<Map<Seq<char>, EntryView>>,
    site: Seq<char>,
    path: Seq<char>,
    pin: Seq<char>,
    chain: LocalChain,
    local: LocalPage,
    now: u64,
)
    requires
        found_verified(index, site, path, pin, chain, local, now) is Some,
    ensures
        chain.records matches Ok(records) && is_vouched(
            local.canonical@,
            pin,
            path,
            records_view(records@),
            now,
        ),
{
}

/// A collection never removes the blob of an entry.
pub proof fn law_live_blobs_are_kept(
    index: Option<Map<Seq<char>, EntryView>>,
    bytes: Seq<u8>,
)
    requires
        is_live(index, content_id(bytes)),
    ensures
        ({
            let id = content_id(bytes);
            !is_garbage(index, id.subrange(3, 5), id.subrange(5, 67))
        }),
{
    let id = content_id(bytes);
    law_content_id_is_valid(bytes);
    reveal_strlit("b3:");
    reveal_strlit(".tmp");
    let name = id.subrange(5, 67);
    assert("b3:"@ + id.subrange(3, 5) + name =~= id) by {
        assert(id.take(3) =~= "b3:"@);
        assert forall|i: int| 0 <= i < 3 implies id[i] == "b3:"@[i] by {
            assert(id.take(3)[i] == id[i]);
        }
    }
    let tail = name.skip(name.len() - 4);
    assert(tail[0] == id[63]);
    assert(is_hex_digit(id[63]));
}

/// The index answers for a page with what was last put in for that page, and
/// what is put in or dropped for one page changes no other.
pub proof fn law_entries_are_kept_apart(
    index: Option<Map<Seq<char>, EntryView>>,
    site: Seq<char>,
    path: Seq<char>,
    e: EntryView,
    other_site: Seq<char>,
    other_path: Seq<char>,
)
    requires
        valid_site(site),
        valid_path(path),
    ensures
        entry_of(with_entry(index, site, path, e), site, path) == Some(e),
        entry_of(without(index, site, path), site, path) is None,
        (other_site, other_path) != (site, path) ==> entry_of(
            with_entry(index, site, path, e),
            other_site,
            other_path,
        ) == entry_of(index, other_site, other_path) && entry_of(
            without(index, site, path),
            other_site,
            other_path,
        ) == entry_of(index, other_site, other_path),
        entry_of(index, other_site, other_path) is Some ==> valid_site(other_site) && valid_path(
            other_path,
        ),
{
    if (other_site, other_path) != (site, path) && cacheable(other_site, other_path) {
        if index_key(site, path) == index_key(other_site, other_path) {
            law_index_keys_are_apart(site, path, other_site, other_path);
        }
    }
}

/// A cached page is found exactly where the index has it and the file of its
/// id is there, hashes to that id, and holds a valid page of this very site
/// and path. Otherwise its entry is dropped, and no other.
pub proof fn law_when_cached_pages_are_found(
    index: Option<Map<Seq<char>, EntryView>>,
    site: Seq<char>,
    path: Seq<char>,
    local: LocalPage,
)
    ensures
        found(index, site, path, local) is Some <==> {
            &&& entry_of(index, site, path) matches Some(e) && (local.file matches Some(b)
                && content_id(b@) == e.content_id && form_fault(b@, local.page) is None)
            &&& local.page matches Ok(p) && p@.site == site && p@.path == path
        },
        found(index, site, path, local) matches Some(p) ==> (local.page matches Ok(page) && p
            == page@),
        after_lookup(index, site, path, local) == (if entry_of(index, site, path) is Some && found(
            index,
            site,
            path,
            local,
        ) is None {
            without(index, site, path)
        } else {
            index
        }),
{
    if let Some(e) = entry_of(index, site, path) {
        if let Some(b) = local.file {
            crate::digest::law_content_id_is_valid(b@);
        }
    }
}

/// Under a pin a cached page is found exactly where its entry was verified
/// against this pin, the file of its records hashes to their id and could be
/// read, the page itself is found, and the records still vouch for it now.
/// Otherwise its entry is dropped where it is one of this pin, and no other.
pub proof fn law_when_verified_pages_are_found(
    index: Option<Map<Seq<char>, EntryView>>,
    site: Seq<char>,
    path: Seq<char>,
    pin: Seq<char>,
    chain: LocalChain,
    local: LocalPage,
    now: u64,
)
    ensures
        found_verified(index, site, path, pin, chain, local, now) is Some <==> {
            &&& entry_of(index, site, path) matches Some(e) && e.pin == Some(pin) && (
            e.records_id matches Some(id) && (chain.file matches Some(b) && content_id(b@) == id))
            &&& found(index, site, path, local) is Some
            &&& chain.records matches Ok(records) && pin_fault(
                local.canonical@,
                pin,
                path,
                records_view(records@),
                now,
            ) is None
        },
        found_verified(index, site, path, pin, chain, local, now) is Some ==> found_verified(
            index,
            site,
            path,
            pin,
            chain,
            local,
            now,
        ) == found(index, site, path, local),
        after_verified(index, site, path, pin, chain, local, now) == if (entry_of(
            index,
            site,
            path,
        ) matches Some(e) && e.pin == Some(pin)) && found_verified(
            index,
            site,
            path,
            pin,
            chain,
            local,
            now,
        ) is None {
            without(index, site, path)
        } else {
            index
        },
{
    if let Some(b) = chain.file {
        crate::digest::law_content_id_is_valid(b@);
    }
}

/// What is put into the cache of a page: the id of its canonical form and the
/// time, and, where it was verified, the id of its records and the pin.
pub proof fn law_entries_say_what_they_hold(
    canonical: Seq<u8>,
    chain: Seq<u8>,
    pin: Seq<char>,
    now: u64,
)
    ensures
        plain_entry(canonical, now) == (EntryView {
            content_id: content_id(canonical),
            fetched_at: now,
            records_id: None,
            pin: None,
        }),
        verified_entry(canonical, chain, pin, now) == (EntryView {
            content_id: content_id(canonical),
            fetched_at: now,
            records_id: Some(content_id(chain)),
            pin: Some(pin),
        }),
{
}

/// A page is asked for with the id that the cache has for it, so that the
/// server may say that it is unchanged; without one the request is plain.
pub proof fn law_requests_carry_the_cached_id(
    index: Option<Map<Seq<char>, EntryView>>,
    site: Seq<char>,
    path: Seq<char>,
)
    ensures
        cached_request(index, site, path).target == (TargetView { site, path }),
        entry_of(index, site, path) is None ==> cached_request(index, site, path).if_id is None,
        entry_of(index, site, path) matches Some(e) ==> cached_request(index, site, path).if_id
            == if valid_content_id(e.content_id) {
            Some(e.content_id)
        } else {
            None
        },
{
}

/// What a fetch through the cache gives: the page that was sent, fresh; the
/// cached page, fresh, where the server said that it is unchanged; the cached
/// page, stale, only where the server could not be reached. No other failure
/// is ever covered by the cache.
pub proof fn law_the_cache_covers_lost_connections_only(
    index: Option<Map<Seq<char>, EntryView>>,
    site: Seq<char>,
    path: Seq<char>,
    r: PageReply,
    local: LocalPage,
    now: u64,
)
    requires
        valid_site(site),
        valid_path(path),
    ensures
        ({
            let out = cached_fetch(index, site, path, r, local);
            let kept = found(index, site, path, local);
            match r.reply {
                Ok((code, body)) => {
                    &&& code == 304 ==> out == match kept {
                        Some(p) => CacheFetchView::Served(p, CacheStatus::Fresh),
                        None => CacheFetchView::Retry,
                    }
                    &&& code != 304 ==> match page_fault(site, path, r) {
                        None => r.page matches Ok(p) && out == CacheFetchView::Served(
                            p@,
                            CacheStatus::Fresh,
                        ),
                        Some(e) => out == CacheFetchView::Failed(e),
                    }
                },
                Err(TransportError::Io(s)) => out == match kept {
                    Some(p) => CacheFetchView::Served(p, CacheStatus::Stale),
                    None => CacheFetchView::Failed(
                        BrowserErrorView::Transport(TransportErrorView::Io(s@)),
                    ),
                },
                Err(TransportError::Protocol(e)) => out == CacheFetchView::Failed(
                    BrowserErrorView::Transport(TransportErrorView::Protocol(e@)),
                ),
            }
        }),
        page_fault(site, path, r) is None && r.canonical@.len() <= 4194304 ==> entry_of(
            after_fetch(index, site, path, r, local, now),
            site,
            path,
        ) == Some(plain_entry(r.canonical@, now)),
        (r.reply matches Ok((code, _)) && code != 304 && page_fault(site, path, r) is Some)
            ==> after_fetch(index, site, path, r, local, now) == index,
        (r.reply matches Err(TransportError::Protocol(_))) ==> after_fetch(
            index,
            site,
            path,
            r,
            local,
            now,
        ) == index,
        is_stored(site, path, r) <==> page_fault(site, path, r) is None && r.canonical@.len()
            <= 4194304,
{
}

/// What a verified fetch through the cache gives: the page that was sent where
/// records that were sent vouch for it, fresh and kept with them; the cached
/// page, verified again, only where the server could not be reached. A page
/// that is refused is never replaced by a cached one.
pub proof fn law_refused_pages_are_not_covered(
    index: Option<Map<Seq<char>, EntryView>>,
    site: Seq<char>,
    path: Seq<char>,
    pin: Seq<char>,
    r: PageReply,
    chain: RecordsReply,
    chain_json: Seq<u8>,
    old_chain: LocalChain,
    local: LocalPage,
    now: u64,
)
    ensures
        ({
            let fault = verified_fault(site, path, pin, r, chain, now);
            let out = verified_fetch(index, site, path, pin, r, chain, old_chain, local, now);
            let after = after_verified_fetch(
                index,
                site,
                path,
                pin,
                r,
                chain,
                chain_json,
                old_chain,
                local,
                now,
            );
            &&& fault is None <==> {
                &&& page_fault(site, path, r) is None
                &&& fetched_records(site, path, chain) matches Ok(records) && records.len() > 0
                    && pin_fault(r.canonical@, pin, path, records, now) is None
            }
            &&& fault is None ==> out == Ok::<(PageView, CacheStatus), BrowserErrorView>(
                (r.page->Ok_0@, CacheStatus::Fresh),
            )
            &&& fault is None && r.canonical@.len() <= 4194304 && chain_json.len() <= 4194304
                && valid_site(site) && valid_path(path) ==> entry_of(after, site, path) == Some(
                verified_entry(r.canonical@, chain_json, pin, now),
            )
            &&& fault matches Some(e) ==> if (e matches BrowserErrorView::Transport(t) && t is Io) {
                out == match found_verified(index, site, path, pin, old_chain, local, now) {
                    Some(p) => Ok::<(PageView, CacheStatus), BrowserErrorView>(
                        (p, CacheStatus::StaleVerified),
                    ),
                    None => Err(e),
                } && after == after_verified(index, site, path, pin, old_chain, local, now)
            } else {
                out == Err::<(PageView, CacheStatus), BrowserErrorView>(e) && after == index
            }
        }),
{
}

/// A file of the cache is garbage exactly where it is left over from a write,
/// or is named like a blob that no entry of the index names. Anything else is
/// left alone.
pub proof fn law_what_is_garbage(
    index: Option<Map<Seq<char>, EntryView>>,
    shard: Seq<char>,
    name: Seq<char>,
)
    ensures
        ({
            let id = "b3:"@ + shard + name;
            is_garbage(index, shard, name) <==> (name.len() >= 4 && name.subrange(
                name.len() - 4,
                name.len() as int,
            ) == ".tmp"@) || ({
                &&& id.len() == 67
                &&& forall|i: int|
                    3 <= i < 67 ==> ('0' <= #[trigger] id[i] <= '9' || 'a' <= id[i] <= 'f')
                &&& index matches Some(m) ==> forall|k: Seq<char>| #[trigger]
                    m.dom().contains(k) ==> m[k].content_id != id && m[k].records_id != Some(id)
            })
        }),
{
    reveal_strlit("b3:");
    let id = "b3:"@ + shard + name;
    if name.len() >= 4 {
        assert(name.subrange(name.len() - 4, name.len() as int) =~= name.skip(name.len() - 4));
    }
    if id.len() == 67 {
        assert(id.take(3) =~= "b3:"@);
    }
    assert(blob_id(id) <==> id.len() == 67 && forall|i: int|
        3 <= i < 67 ==> ('0' <= #[trigger] id[i] <= '9' || 'a' <= id[i] <= 'f')) by {
        if blob_id(id) {
            assert forall|i: int| 3 <= i < 67 implies ('0' <= #[trigger] id[i] <= '9' || 'a' <= id[i]
                <= 'f') by {
                assert(crate::hex_text::is_hex_digit(id[i]));
            }
        }
        if id.len() == 67 && forall|i: int|
            3 <= i < 67 ==> ('0' <= #[trigger] id[i] <= '9' || 'a' <= id[i] <= 'f') {
            assert forall|i: int| 3 <= i < 67 implies crate::hex_text::is_hex_digit(
                #[trigger] id[i],
            ) && !('A' <= id[i] <= 'Z') by {
                assert('0' <= id[i] <= '9' || 'a' <= id[i] <= 'f');
            }
        }
    }
}

/// A collection counts each file that is garbage and whose size is known, once
/// and with its size, and no other.
pub proof fn law_garbage_is_counted(
    index: Option<Map<Seq<char>, EntryView>>,
    files: Seq<BlobFile>,
    f: BlobFile,
)
    ensures
        counted(index, Seq::empty()) == (0nat, 0nat),
        ({
            let (n, bytes) = counted(index, files);
            counted(index, files.push(f)) == if is_garbage(index, f.shard@, f.name@)
                && f.size is Some {
                (n + 1, bytes + f.size->0 as nat)
            } else {
                (n, bytes)
            }
        }),
{
    assert(files.push(f).drop_last() =~= files);
}

/// What a fetch writes and keeps: a verified page is stored with its chain
/// where both fit a blob, a chain that fits is written even where its page
/// does not, and a page that is too large changes no entry.
pub proof fn law_what_fetches_store(
    index: Option<Map<Seq<char>, EntryView>>,
    site: Seq<char>,
    path: Seq<char>,
    pin: Seq<char>,
    r: PageReply,
    chain: RecordsReply,
    chain_json: Seq<u8>,
    old_chain: LocalChain,
    local: LocalPage,
    now: u64,
)
    ensures
        is_chain_stored(site, path, pin, r, chain, chain_json, now) <==> verified_fault(
            site,
            path,
            pin,
            r,
            chain,
            now,
        ) is None && chain_json.len() <= 4194304,
        is_stored_verified(site, path, pin, r, chain, chain_json, now) <==> verified_fault(
            site,
            path,
            pin,
            r,
            chain,
            now,
        ) is None && chain_json.len() <= 4194304 && r.canonical@.len() <= 4194304,
        verified_fault(site, path, pin, r, chain, now) is None && !is_stored_verified(
            site,
            path,
            pin,
            r,
            chain,
            chain_json,
            now,
        ) ==> after_verified_fetch(
            index,
            site,
            path,
            pin,
            r,
            chain,
            chain_json,
            old_chain,
            local,
            now,
        ) == index,
        page_fault(site, path, r) is None && r.canonical@.len() > 4194304 ==> after_fetch(
            index,
            site,
            path,
            r,
            local,
            now,
        ) == index,
        valid_site(site) && valid_path(path) && ((r.reply matches Ok((code, _)) && code == 304)
            || (r.reply matches Err(TransportError::Io(_)))) ==> after_fetch(
            index,
            site,
            path,
            r,
            local,
            now,
        ) == after_lookup(index, site, path, local),
        !(valid_site(site) && valid_path(path)) ==> after_fetch(index, site, path, r, local, now)
            == index,
{
}

} // verus!
