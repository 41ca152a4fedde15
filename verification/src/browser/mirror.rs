//! Mirroring a whole site: into a directory, or into one pack.
//!
//! A mirror walks the paths that the server lists. Each page that it takes in
//! is valid, and vouched for where a site key is pinned. The first page that
//! is not ends the walk.

use crate::browser::navigate::pinned_page;
use crate::browser::{
    check_page, is_vouched, page_fault, records_view, verify_pinned, BrowserError, BrowserErrorView,
    PageReply,
};
use crate::content::{opt_text, texts};
use crate::identity::SignedRecord;
use crate::json::{texts_from_json, texts_in_json};
use crate::protocol::{
    encode_list_request, encoded_list, is_valid_path, valid_path, ListRequest, ProtocolErrorView,
};
use crate::storage::{blobs_view, pack_blobs, pack_bytes, pack_fault, PACK_HEADER_LEN};
use crate::text::{lossy, lossy_text};
use crate::transport::TransportError;
use vstd::prelude::*;
use vstd::slice::slice_to_vec;
use vstd::string::*;

verus! {

/// What came of a mirror.
#[derive(Debug, Clone, Copy, PartialEq, Eq, Structural)]
pub struct SyncReport {
    /// Pages that were taken in.
    pub pages: usize,
    /// Those that were verified against the pin.
    pub verified: usize,
    /// Listed paths that are invalid; they are never asked for.
    pub skipped: usize,
}

/// What came back for one path: the signed records with their JSON form, and
/// the page.
#[derive(Debug)]
pub struct PathReply {
    pub records: Vec<SignedRecord>,
    pub chain_json: Vec<u8>,
    pub page: PageReply,
}

/// A page that was mirrored: its canonical form, and the records that vouch
/// for it.
#[derive(Debug)]
pub struct MirrorPage {
    pub path: String,
    pub bytes: Vec<u8>,
    pub chain_json: Option<Vec<u8>>,
}

/// The paths that a server lists for a site.
pub open spec fn listed(site: Seq<char>, reply: Result<(u16, Vec<u8>), TransportError>) -> Result<
    Seq<Seq<char>>,
    BrowserErrorView,
> {
    match (encoded_list(site), reply) {
        (Err(e), _) => Err(BrowserErrorView::Protocol(e)),
        (Ok(_), Err(e)) => Err(BrowserErrorView::Transport(e@)),
        (Ok(_), Ok((code, body))) => if code != 200 {
            Err(BrowserErrorView::Status(code, lossy_text(body@)))
        } else {
            match texts_in_json(body@) {
                Ok(paths) => Ok(paths),
                Err(e) => Err(BrowserErrorView::Content("bad LIST body: "@ + e)),
            }
        },
    }
}

/// Why a page cannot be mirrored. Under a pin there have to be records, and
/// they have to vouch for the page.
pub open spec fn mirror_fault(
    site: Seq<char>,
    path: Seq<char>,
    pin: Option<Seq<char>>,
    r: PathReply,
    now: u64,
) -> Option<BrowserErrorView> {
    match pinned_page(site, path, pin, records_view(r.records@), r.page, now) {
        Ok(_) => None,
        Err(e) => Some(e),
    }
}

/// The line that asks for the paths of a site, or why the request is invalid.
pub fn list_line(site: &str) -> (out: Result<String, BrowserError>)
    ensures
        match out {
            Ok(line) => encoded_list(site@) == Ok::<Seq<char>, ProtocolErrorView>(line@),
            Err(e) => encoded_list(site@) matches Err(p) && e@ == BrowserErrorView::Protocol(p),
        },
{
    match encode_list_request(&ListRequest { site: site.to_owned() }) {
        Ok(line) => Ok(line),
        Err(e) => Err(BrowserError::Protocol(e)),
    }
}

/// The paths that a server lists for a site.
fn list_paths(site: &str, reply: Result<(u16, Vec<u8>), TransportError>) -> (out: Result<
    Vec<String>,
    BrowserError,
>)
    ensures
        match out {
            Ok(paths) => listed(site@, reply) == Ok::<Seq<Seq<char>>, BrowserErrorView>(
                texts(paths@),
            ),
            Err(e) => listed(site@, reply) == Err::<Seq<Seq<char>>, BrowserErrorView>(e@),
        },
{
    match list_line(site) {
        Ok(_) => {},
        Err(e) => return Err(e),
    }
    match reply {
        Err(e) => Err(BrowserError::Transport(e)),
        Ok((code, body)) => {
            if code != 200 {
                return Err(BrowserError::Status(code, lossy(body.as_slice())));
            }
            match texts_from_json(body.as_slice()) {
                Ok(paths) => Ok(paths),
                Err(e) => Err(
                    BrowserError::Content("bad LIST body: ".to_owned().concat(e.as_str())),
                ),
            }
        },
    }
}

/// How far a walk came.
#[derive(Debug, Clone, Copy)]
struct Progress {
    next: usize,
    report: SyncReport,
}

/// A walk over the paths of a site.
#[derive(Debug)]
pub struct Mirror {
    site: String,
    pin: Option<String>,
    paths: Vec<String>,
    progress: Progress,
}

/// The mathematical value of a [`Mirror`].
pub struct MirrorView {
    pub site: Seq<char>,
    pub pin: Option<Seq<char>>,
    /// The paths that are still to come.
    pub left: Seq<Seq<char>>,
    pub report: SyncReport,
}

impl View for Mirror {
    type V = MirrorView;

    closed spec fn view(&self) -> MirrorView {
        MirrorView {
            site: self.site@,
            pin: opt_text(self.pin),
            left: texts(self.paths@).skip(self.progress.next as int),
            report: self.progress.report,
        }
    }
}

/// The paths behind the invalid ones at the front.
pub open spec fn from_valid(paths: Seq<Seq<char>>) -> Seq<Seq<char>>
    decreases paths.len(),
{
    if paths.len() == 0 || valid_path(paths[0]) {
        paths
    } else {
        from_valid(paths.skip(1))
    }
}

/// A mirror with the invalid paths at the front skipped.
pub open spec fn at_valid(m: MirrorView) -> MirrorView {
    MirrorView {
        left: from_valid(m.left),
        report: SyncReport {
            skipped: (m.report.skipped + (m.left.len() - from_valid(m.left).len())) as usize,
            ..m.report
        },
        ..m
    }
}

/// A mirror after the page of its first path was taken in.
pub open spec fn taken(m: MirrorView) -> MirrorView {
    MirrorView {
        left: m.left.skip(1),
        report: SyncReport {
            pages: (m.report.pages + 1) as usize,
            verified: if m.pin is Some {
                (m.report.verified + 1) as usize
            } else {
                m.report.verified
            },
            ..m.report
        },
        ..m
    }
}

impl Mirror {
    /// The numbers of the report and of the paths that are left are bounded
    /// by the number of all paths. Only a pinned walk verifies pages, and
    /// then all of them.
    #[verifier::type_invariant]
    spec fn bounded(self) -> bool {
        &&& self.progress.next <= self.paths@.len()
        &&& self.progress.report.pages + self.progress.report.skipped == self.progress.next
        &&& self.progress.report.verified == if self.pin is Some {
            self.progress.report.pages
        } else {
            0
        }
    }

    /// Starts a walk over what the server lists.
    pub fn start(
        site: &str,
        pin: Option<String>,
        reply: Result<(u16, Vec<u8>), TransportError>,
    ) -> (out: Result<Mirror, BrowserError>)
        ensures
            match out {
                Ok(m) => listed(site@, reply) matches Ok(paths) && m@ == (MirrorView {
                    site: site@,
                    pin: opt_text(pin),
                    left: paths,
                    report: SyncReport { pages: 0, verified: 0, skipped: 0 },
                }),
                Err(e) => listed(site@, reply) == Err::<Seq<Seq<char>>, BrowserErrorView>(e@),
            },
    {
        match list_paths(site, reply) {
            Err(e) => Err(e),
            Ok(paths) => {
                assert(texts(paths@).skip(0) =~= texts(paths@));
                Ok(
                    Mirror {
                        site: site.to_owned(),
                        pin,
                        paths,
                        progress: Progress {
                            next: 0,
                            report: SyncReport { pages: 0, verified: 0, skipped: 0 },
                        },
                    },
                )
            },
        }
    }

    /// The path whose page is asked for next; invalid paths are skipped, so
    /// nothing of a hostile listing gets any further. Nothing at the end.
    pub fn next_path(&mut self) -> (out: Option<String>)
        ensures
            final(self)@ == at_valid(old(self)@),
            match out {
                Some(p) => final(self)@.left.len() > 0 && p@ == final(self)@.left[0] && valid_path(
                    p@,
                ),
                None => final(self)@.left.len() == 0,
            },
    {
        proof {
            use_type_invariant(&*self);
        }
        let ghost all = texts(self.paths@);
        let first: usize = self.progress.next;
        let report = self.progress.report;
        let mut next: usize = first;
        while next < self.paths.len() && !is_valid_path(self.paths[next].as_str())
            invariant
                first <= next <= self.paths@.len(),
                all == texts(self.paths@),
                from_valid(all.skip(next as int)) == from_valid(all.skip(first as int)),
            decreases self.paths@.len() - next,
        {
            proof {
                assert(all.skip(next as int)[0] == self.paths@[next as int]@);
                assert(all.skip(next as int).skip(1) =~= all.skip(next + 1));
            }
            next = next + 1;
        }
        proof {
            if next < all.len() {
                assert(all.skip(next as int)[0] == self.paths@[next as int]@);
            }
            assert(from_valid(all.skip(next as int)) == all.skip(next as int));
        }
        self.progress = Progress {
            next,
            report: SyncReport { skipped: report.skipped + (next - first), ..report },
        };
        if next < self.paths.len() {
            Some(self.paths[next].clone())
        } else {
            None
        }
    }

    /// Takes in what came back for the next path. Where the page is refused,
    /// the mirror stays as it is.
    pub fn take_page(&mut self, r: PathReply, now: u64) -> (out: Result<MirrorPage, BrowserError>)
        requires
            old(self)@.left.len() > 0,
        ensures
            ({
                let m = old(self)@;
                let path = m.left[0];
                match out {
                    Ok(p) => {
                        &&& mirror_fault(m.site, path, m.pin, r, now) is None
                        &&& final(self)@ == taken(m)
                        &&& p.path@ == path
                        &&& p.bytes == r.page.canonical
                        &&& p.chain_json == if m.pin is Some {
                            Some(r.chain_json)
                        } else {
                            None
                        }
                    },
                    Err(e) => {
                        &&& mirror_fault(m.site, path, m.pin, r, now) == Some(e@)
                        &&& final(self)@ == m
                    },
                }
            }),
    {
        proof {
            use_type_invariant(&*self);
            assert(self@.left[0] == self.paths@[self.progress.next as int]@);
            assert(self@.left.skip(1) =~= texts(self.paths@).skip(self.progress.next + 1));
        }
        let next = self.progress.next;
        let report = self.progress.report;
        let path = self.paths[next].clone();
        let total: usize = self.paths.len();
        assert(next < total);
        match check_page(self.site.as_str(), path.as_str(), &r.page) {
            Ok(_) => {},
            Err(e) => return Err(e),
        }
        if let Some(pin) = &self.pin {
            if r.records.len() == 0 {
                return Err(BrowserError::PinRecordsRequired(pin.clone()));
            }
            match verify_pinned(
                r.page.canonical.as_slice(),
                pin.as_str(),
                path.as_str(),
                &r.records,
                now,
            ) {
                Ok(_) => {},
                Err(e) => return Err(e),
            }
        }
        let pinned = self.pin.is_some();
        self.progress = Progress {
            next: next + 1,
            report: SyncReport {
                pages: report.pages + 1,
                verified: if pinned {
                    report.verified + 1
                } else {
                    report.verified
                },
                ..report
            },
        };
        Ok(
            MirrorPage {
                path,
                bytes: r.page.canonical,
                chain_json: if pinned {
                    Some(r.chain_json)
                } else {
                    None
                },
            },
        )
    }

    /// What came of the walk so far. Under a pin every page was verified.
    pub fn report(&self) -> (r: SyncReport)
        ensures
            r == self@.report,
            r.verified == if self@.pin is Some {
                r.pages
            } else {
                0
            },
    {
        proof {
            use_type_invariant(self);
        }
        self.progress.report
    }
}

/// The name of the file that holds a mirrored page.
pub fn file_name(page: &MirrorPage) -> (name: String)
    ensures
        name@ == page.path@ + ".json"@,
{
    page.path.clone().concat(".json")
}

/// The blobs of mirrored pages: each page behind the records that vouch for
/// it.
pub open spec fn page_blobs(pages: Seq<MirrorPage>) -> Seq<Seq<u8>>
    decreases pages.len(),
{
    if pages.len() == 0 {
        Seq::empty()
    } else {
        let p = pages.last();
        let before = page_blobs(pages.drop_last());
        match p.chain_json {
            Some(c) => before.push(c@).push(p.bytes@),
            None => before.push(p.bytes@),
        }
    }
}

/// Packs mirrored pages.
pub fn export_site(pages: &Vec<MirrorPage>) -> (out: Result<Vec<u8>, BrowserError>)
    ensures
        match out {
            Ok(pack) => pack_fault(page_blobs(pages@), PACK_HEADER_LEN as nat) is None && pack@
                == pack_bytes(page_blobs(pages@)),
            Err(e) => pack_fault(page_blobs(pages@), PACK_HEADER_LEN as nat) matches Some(f) && e@
                == BrowserErrorView::Cache(crate::storage::error_text(f)),
        },
{
    let mut blobs: Vec<Vec<u8>> = Vec::new();
    let mut i: usize = 0;
    assert(pages@.take(0) =~= Seq::empty());
    assert(blobs_view(blobs@) =~= Seq::empty());
    while i < pages.len()
        invariant
            i <= pages@.len(),
            blobs_view(blobs@) == page_blobs(pages@.take(i as int)),
        decreases pages@.len() - i,
    {
        let p = &pages[i];
        proof {
            assert(pages@.take(i + 1).drop_last() =~= pages@.take(i as int));
        }
        let ghost before = blobs_view(blobs@);
        if let Some(c) = &p.chain_json {
            blobs.push(slice_to_vec(c.as_slice()));
            assert(blobs_view(blobs@) =~= before.push(c@));
        }
        let ghost between = blobs_view(blobs@);
        blobs.push(slice_to_vec(p.bytes.as_slice()));
        assert(blobs_view(blobs@) =~= between.push(p.bytes@));
        i = i + 1;
    }
    assert(pages@.take(i as int) =~= pages@);
    match pack_blobs(&blobs) {
        Ok(pack) => Ok(pack),
        Err(e) => Err(BrowserError::from_store(e)),
    }
}

/// Under a pin every page that a mirror takes in is valid and vouched for, and
/// its path is a valid one.
pub proof fn law_mirrored_pages_are_vouched_for(
    site: Seq<char>,
    path: Seq<char>,
    pin: Seq<char>,
    r: PathReply,
    now: u64,
)
    requires
        mirror_fault(site, path, Some(pin), r, now) is None,
    ensures
        page_fault(site, path, r.page) is None,
        is_vouched(r.page.canonical@, pin, path, records_view(r.records@), now),
        valid_path(path),
{
}

/// How many paths are valid.
pub open spec fn valid_count(paths: Seq<Seq<char>>) -> nat
    decreases paths.len(),
{
    if paths.len() == 0 {
        0
    } else {
        valid_count(paths.skip(1)) + if valid_path(paths[0]) {
            1nat
        } else {
            0nat
        }
    }
}

/// The mirror at the end of its walk, where every page was taken in.
pub open spec fn walked(m: MirrorView) -> MirrorView
    decreases m.left.len(),
    via walked_ends
{
    let at = at_valid(m);
    if at.left.len() == 0 {
        at
    } else {
        walked(taken(at))
    }
}

#[via_fn]
proof fn walked_ends(m: MirrorView) {
    lemma_from_valid(m.left);
}

proof fn lemma_from_valid(paths: Seq<Seq<char>>)
    ensures
        from_valid(paths).len() <= paths.len(),
        valid_count(from_valid(paths)) == valid_count(paths),
        from_valid(paths).len() > 0 ==> valid_path(from_valid(paths)[0]),
    decreases paths.len(),
{
    if paths.len() > 0 && !valid_path(paths[0]) {
        lemma_from_valid(paths.skip(1));
    }
}

/// A walk in which every page is taken in reports each listed path once: the
/// valid ones as pages, the others as skipped; and under a pin all pages as
/// verified.
pub proof fn law_a_walk_counts_every_path(m: MirrorView)
    requires
        m.report.pages + m.report.skipped + m.left.len() <= usize::MAX,
        m.report.verified <= m.report.pages,
    ensures
        walked(m).left.len() == 0,
        walked(m).report.pages == m.report.pages + valid_count(m.left),
        walked(m).report.skipped == m.report.skipped + m.left.len() - valid_count(m.left),
        walked(m).report.verified == m.report.verified + if m.pin is Some {
            valid_count(m.left)
        } else {
            0
        },
    decreases m.left.len(),
{
    lemma_from_valid(m.left);
    let at = at_valid(m);
    lemma_count_bound(at.left);
    if at.left.len() > 0 {
        law_a_walk_counts_every_path(taken(at));
    }
}

proof fn lemma_count_bound(paths: Seq<Seq<char>>)
    ensures
        valid_count(paths) <= paths.len(),
    decreases paths.len(),
{
    if paths.len() > 0 {
        lemma_count_bound(paths.skip(1));
    }
}

/// The next page to mirror is the first path of the listing, from where the
/// walk is, that is a valid one; the invalid ones before it are skipped and
/// counted, and nothing else is.
pub proof fn law_invalid_paths_are_skipped(m: MirrorView)
    requires
        m.report.skipped + m.left.len() <= usize::MAX,
    ensures
        ({
            let at = at_valid(m);
            let k = m.left.len() - at.left.len();
            &&& 0 <= k <= m.left.len()
            &&& at.left == m.left.skip(k)
            &&& forall|i: int| 0 <= i < k ==> !valid_path(#[trigger] m.left[i])
            &&& at.left.len() > 0 ==> valid_path(at.left[0])
            &&& at.report.skipped == m.report.skipped + k
            &&& at.report.pages == m.report.pages
            &&& at.report.verified == m.report.verified
            &&& at.site == m.site
            &&& at.pin == m.pin
        }),
{
    lemma_first_valid(m.left);
}

proof fn lemma_first_valid(paths: Seq<Seq<char>>)
    ensures
        ({
            let rest = from_valid(paths);
            let k = paths.len() - rest.len();
            &&& 0 <= k <= paths.len()
            &&& rest == paths.skip(k)
            &&& forall|i: int| 0 <= i < k ==> !valid_path(#[trigger] paths[i])
            &&& rest.len() > 0 ==> valid_path(rest[0])
        }),
    decreases paths.len(),
{
    if paths.len() == 0 || valid_path(paths[0]) {
        assert(paths.skip(0) =~= paths);
    } else {
        let less = paths.skip(1);
        lemma_first_valid(less);
        let rest = from_valid(paths);
        let k = less.len() - rest.len();
        assert(less.skip(k) =~= paths.skip(k + 1));
        assert forall|i: int| 0 <= i < k + 1 implies !valid_path(#[trigger] paths[i]) by {
            if i > 0 {
                assert(less[i - 1] == paths[i]);
            }
        }
    }
}

/// A page that was mirrored is counted once, as verified where the mirror has
/// a pin, and the walk goes on behind it.
pub proof fn law_mirrored_pages_are_counted(m: MirrorView)
    requires
        m.left.len() > 0,
        m.report.pages < usize::MAX,
        m.report.verified < usize::MAX,
    ensures
        taken(m).left == m.left.skip(1),
        taken(m).report.pages == m.report.pages + 1,
        taken(m).report.skipped == m.report.skipped,
        m.pin is Some ==> taken(m).report.verified == m.report.verified + 1,
        m.pin is None ==> taken(m).report.verified == m.report.verified,
        taken(m).site == m.site,
        taken(m).pin == m.pin,
{
}

/// A page is mirrored exactly where it is a good one and, under a pin, there
/// are records and they vouch for it.
pub proof fn law_when_pages_are_mirrored(
    site: Seq<char>,
    path: Seq<char>,
    pin: Option<Seq<char>>,
    r: PathReply,
    now: u64,
)
    ensures
        mirror_fault(site, path, pin, r, now) is None <==> {
            &&& page_fault(site, path, r.page) is None
            &&& pin matches Some(p) ==> r.records@.len() > 0 && crate::browser::pin_fault(
                r.page.canonical@,
                p,
                path,
                records_view(r.records@),
                now,
            ) is None
        },
{
    assert(records_view(r.records@).len() == r.records@.len());
}

/// A listing is the paths that the server sent with 200; any other answer is
/// an error.
pub proof fn law_listings(site: Seq<char>, reply: Result<(u16, Vec<u8>), TransportError>)
    ensures
        listed(site, reply) is Ok <==> {
            &&& encoded_list(site) is Ok
            &&& reply matches Ok((code, body)) && code == 200 && texts_in_json(body@) is Ok
        },
        listed(site, reply) matches Ok(paths) ==> (reply matches Ok((_, body)) && texts_in_json(
            body@,
        ) == Ok::<Seq<Seq<char>>, Seq<char>>(paths)),
        encoded_list(site) is Ok ==> (reply matches Ok((code, body)) ==> (code != 200 ==> listed(
            site,
            reply,
        ) == Err::<Seq<Seq<char>>, BrowserErrorView>(
            BrowserErrorView::Status(code, lossy_text(body@)),
        ))),
{
}

/// An exported site holds its pages in order, each behind its records where it
/// has any, and nothing else.
pub proof fn law_exports_hold_every_page(pages: Seq<MirrorPage>, p: MirrorPage)
    ensures
        page_blobs(Seq::empty()) == Seq::<Seq<u8>>::empty(),
        page_blobs(pages.push(p)) == page_blobs(pages) + (match p.chain_json {
            Some(c) => seq![c@, p.bytes@],
            None => seq![p.bytes@],
        }),
{
    assert(pages.push(p).drop_last() =~= pages);
    assert(page_blobs(pages.push(p)) =~= page_blobs(pages) + (match p.chain_json {
        Some(c) => seq![c@, p.bytes@],
        None => seq![p.bytes@],
    }));
}

} // verus!
