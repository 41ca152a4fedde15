//! The state of the full-screen browser: address line, scroll offset, status,
//! find in page, help, and the log of visits. It knows nothing of terminals;
//! what has to be fetched it asks for.

use crate::browser::cache::{CacheStatus, OfflineCache};
use crate::browser::find::{find_lines, lines_of, matching, split_lines};
use crate::browser::history::{all_visits, can_go_back, can_go_forward, gone_back, gone_forward};
use crate::browser::session::{
    fetched_view, new_session, opened, present_status, reloaded, ClientSession, SessionView,
};
use crate::browser::{error_text, parse_target, parsed_target, BrowserError, BrowserErrorView};
use crate::content::{opt_text, texts, Page, PageView};
use crate::protocol::{is_valid_path, is_valid_site, valid_path, valid_site};
use crate::renderer::{page_text, render_text};
use crate::text::{dec_chars, decimal, same_text, trim, trimmed};
use crate::webvm::{quote, quoted};
use vstd::prelude::*;
use vstd::string::*;

verus! {

/// A key that was pressed.
#[derive(Debug, Clone, Copy, PartialEq, Eq, Structural)]
pub enum Key {
    Enter,
    Esc,
    Backspace,
    Up,
    Down,
    PageUp,
    PageDown,
    Char(char),
    Other,
}

/// What is to be done after a key.
#[derive(Debug, Clone, PartialEq, Eq)]
pub enum KeyAction {
    /// Keep running.
    Continue,
    /// Leave the browser.
    Quit,
    /// Fetch this target, and open it.
    Open(String),
    /// Fetch the present page again.
    Reload,
}

/// The mathematical value of a [`KeyAction`].
pub enum KeyActionView {
    Continue,
    Quit,
    Open(Seq<char>),
    Reload,
}

impl View for KeyAction {
    type V = KeyActionView;

    open spec fn view(&self) -> KeyActionView {
        match self {
            KeyAction::Continue => KeyActionView::Continue,
            KeyAction::Quit => KeyActionView::Quit,
            KeyAction::Open(t) => KeyActionView::Open(t@),
            KeyAction::Reload => KeyActionView::Reload,
        }
    }
}

/// Most visits that the log keeps.
pub const HISTORY_MAX_ENTRIES: usize = 100;

/// Lines of the view that keys scroll in.
pub const VIEW_LINES: usize = 24;

/// A visit in the log: where it went.
#[derive(Debug, Clone, PartialEq, Eq)]
pub struct HistoryVisit {
    pub site: String,
    pub path: String,
}

/// The values of visits in the log.
pub open spec fn log_view(s: Seq<HistoryVisit>) -> Seq<(Seq<char>, Seq<char>)> {
    Seq::new(s.len(), |i: int| (s[i].site@, s[i].path@))
}

/// A query, the lines in which it stands, and which of them is the present
/// one.
#[derive(Debug)]
struct Search {
    query: String,
    matches: Vec<usize>,
    pos: usize,
}

impl Search {
    /// The present match is one of the matches, and without a query there is
    /// none.
    #[verifier::type_invariant]
    spec fn in_order(self) -> bool {
        &&& self.pos == 0 || self.pos < self.matches@.len()
        &&& self.query@.len() == 0 ==> self.matches@.len() == 0
    }

    /// No query.
    fn none() -> (f: Self)
        ensures
            f.query@ == Seq::<char>::empty(),
            f.matches@ == Seq::<usize>::empty(),
            f.pos == 0,
    {
        Search { query: String::new(), matches: Vec::new(), pos: 0 }
    }
}

/// The state of the full-screen browser.
#[derive(Debug)]
pub struct TuiState {
    pub session: ClientSession,
    input: String,
    scroll: usize,
    status: String,
    visited: Vec<HistoryVisit>,
    finding: bool,
    find: Search,
    show_help: bool,
}

/// The mathematical value of a [`TuiState`].
pub struct TuiView {
    pub session: SessionView,
    pub input: Seq<char>,
    pub scroll: nat,
    pub status: Seq<char>,
    pub visited: Seq<(Seq<char>, Seq<char>)>,
    pub finding: bool,
    pub find_query: Seq<char>,
    pub find_matches: Seq<usize>,
    pub find_pos: nat,
    pub show_help: bool,
}

impl View for TuiState {
    type V = TuiView;

    closed spec fn view(&self) -> TuiView {
        TuiView {
            session: self.session@,
            input: self.input@,
            scroll: self.scroll as nat,
            status: self.status@,
            visited: log_view(self.visited@),
            finding: self.finding,
            find_query: self.find.query@,
            find_matches: self.find.matches@,
            find_pos: self.find.pos as nat,
            show_help: self.show_help,
        }
    }
}

/// Where the session is, with a marker where the page came from the cache.
pub open spec fn location(s: SessionView) -> Seq<char> {
    let base = match s.history.present {
        Some(v) => "@"@ + v.site + " /"@ + v.path + " — "@ + v.page.title,
        None => "(no page loaded)"@,
    };
    match present_status(s) {
        Some(CacheStatus::Stale) => base + " [offline]"@,
        Some(CacheStatus::StaleVerified) => base + " [offline, verified]"@,
        _ => base,
    }
}

/// The lines of the present page.
pub open spec fn shown_lines(s: SessionView) -> Seq<Seq<char>> {
    match s.history.present {
        Some(v) => lines_of(page_text(v.page)),
        None => seq!["No page. Open site[/path] above."@],
    }
}

/// The last offset at which a view of some lines is still full.
pub open spec fn last_start(total: nat, height: nat) -> nat {
    let h = if height == 0 {
        1
    } else {
        height
    };
    if total <= h {
        0
    } else {
        (total - h) as nat
    }
}

/// A number within bounds.
pub open spec fn clamped(x: int, most: nat) -> nat {
    if x < 0 {
        0
    } else if x > most {
        most
    } else {
        x as nat
    }
}

/// The state with the view moved; it stays within the page.
pub open spec fn scrolled(v: TuiView, delta: int, height: nat) -> TuiView {
    TuiView {
        scroll: clamped(v.scroll + delta, last_start(shown_lines(v.session).len(), height)),
        ..v
    }
}

/// The text that invites a query.
pub open spec fn find_prompt() -> Seq<char> {
    "find: type a query, Enter confirms, Esc cancels"@
}

/// The status while a query is there.
pub open spec fn find_status(v: TuiView) -> Seq<char> {
    if v.find_query.len() == 0 {
        find_prompt()
    } else if v.find_matches.len() == 0 {
        "find "@ + quoted(v.find_query) + ": no matches"@
    } else {
        "find "@ + quoted(v.find_query) + ": match "@ + dec_chars(v.find_pos + 1) + "/"@ + dec_chars(
            v.find_matches.len(),
        ) + " (n = next)"@
    }
}

/// The state with the view at the present match.
pub open spec fn jumped(v: TuiView, height: nat) -> TuiView {
    if v.find_pos < v.find_matches.len() {
        TuiView {
            scroll: clamped(
                v.find_matches[v.find_pos as int] as int,
                last_start(shown_lines(v.session).len(), height),
            ),
            ..v
        }
    } else {
        v
    }
}

/// The state with the matches of another query.
pub open spec fn searched(v: TuiView, query: Seq<char>) -> TuiView {
    let t = jumped(
        TuiView {
            find_query: query,
            find_matches: matching(shown_lines(v.session), query),
            find_pos: 0,
            ..v
        },
        VIEW_LINES as nat,
    );
    TuiView { status: find_status(t), ..t }
}

/// The state at the next match; behind the last one comes the first.
pub open spec fn at_next_match(v: TuiView, height: nat) -> TuiView {
    if v.find_matches.len() == 0 {
        v
    } else {
        let t = jumped(
            TuiView { find_pos: (v.find_pos + 1) as nat % v.find_matches.len(), ..v },
            height,
        );
        TuiView { status: find_status(t), ..t }
    }
}

/// The state without a query.
pub open spec fn without_query(v: TuiView) -> TuiView {
    TuiView { find_query: Seq::empty(), find_matches: Seq::empty(), find_pos: 0, ..v }
}

/// The state in which a query is typed.
pub open spec fn query_begun(v: TuiView) -> TuiView {
    TuiView { finding: true, status: find_prompt(), ..without_query(v) }
}

/// The state after a query was confirmed.
pub open spec fn query_committed(v: TuiView) -> TuiView {
    if v.find_query.len() == 0 {
        TuiView {
            finding: false,
            find_matches: Seq::empty(),
            status: location(v.session),
            ..v
        }
    } else {
        TuiView { finding: false, status: find_status(v), ..v }
    }
}

/// The state after a query was given up.
pub open spec fn query_cancelled(v: TuiView) -> TuiView {
    TuiView { finding: false, status: location(v.session), ..without_query(v) }
}

/// A text without its last character.
pub open spec fn shortened(s: Seq<char>) -> Seq<char> {
    if s.len() == 0 {
        s
    } else {
        s.drop_last()
    }
}

/// The log with a visit: one that repeats the last is not added, and only the
/// newest are kept.
pub open spec fn logged(log: Seq<(Seq<char>, Seq<char>)>, site: Seq<char>, path: Seq<char>) -> Seq<
    (Seq<char>, Seq<char>),
> {
    if log.len() > 0 && log.last() == (site, path) {
        log
    } else {
        newest(log.push((site, path)))
    }
}

/// The newest visits of a log.
pub open spec fn newest(log: Seq<(Seq<char>, Seq<char>)>) -> Seq<(Seq<char>, Seq<char>)> {
    if log.len() > HISTORY_MAX_ENTRIES {
        log.skip(log.len() - HISTORY_MAX_ENTRIES)
    } else {
        log
    }
}

/// The visits of a log that name a valid site and path.
pub open spec fn valid_visits(log: Seq<(Seq<char>, Seq<char>)>) -> Seq<(Seq<char>, Seq<char>)>
    decreases log.len(),
{
    if log.len() == 0 {
        Seq::empty()
    } else if valid_site(log.last().0) && valid_path(log.last().1) {
        valid_visits(log.drop_last()).push(log.last())
    } else {
        valid_visits(log.drop_last())
    }
}

/// The state after a step in the history, or after the page was loaded again.
pub open spec fn stepped(v: TuiView, s: SessionView) -> TuiView {
    TuiView { session: s, scroll: 0, status: location(s), ..without_query(v) }
}

/// The state after a step failed.
pub open spec fn step_failed(
    v: TuiView,
    s: SessionView,
    note: Seq<char>,
    e: BrowserErrorView,
) -> TuiView {
    TuiView { session: s, status: note + ": "@ + error_text(e), ..v }
}

/// The state after a target was opened with what was fetched for it. A
/// failure becomes the status, and leaves the page and the history.
pub open spec fn target_opened(
    v: TuiView,
    target: Seq<char>,
    fetched: Result<(PageView, CacheStatus), BrowserErrorView>,
) -> TuiView {
    let (s, e) = opened(v.session, target, fetched);
    match e {
        None => {
            let (site, path) = parsed_target(target)->Ok_0;
            TuiView {
                session: s,
                scroll: 0,
                input: Seq::empty(),
                visited: logged(v.visited, site, path),
                status: location(s),
                ..without_query(v)
            }
        },
        Some(e) => TuiView {
            session: s,
            status: if e is Transport {
                "offline: "@ + error_text(e)
            } else {
                "error: "@ + error_text(e)
            },
            ..v
        },
    }
}

/// The state after a step back.
pub open spec fn stepped_back(v: TuiView) -> TuiView {
    if can_go_back(v.session.history) {
        stepped(v, SessionView { history: gone_back(v.session.history), ..v.session })
    } else {
        step_failed(
            v,
            v.session,
            "at the start of history"@,
            BrowserErrorView::Content("at the start of history"@),
        )
    }
}

/// The state after a step forward.
pub open spec fn stepped_forward(v: TuiView) -> TuiView {
    if can_go_forward(v.session.history) {
        stepped(v, SessionView { history: gone_forward(v.session.history), ..v.session })
    } else {
        step_failed(
            v,
            v.session,
            "at the end of history"@,
            BrowserErrorView::Content("at the end of history"@),
        )
    }
}

/// The state after the page was loaded again.
pub open spec fn page_reloaded(
    v: TuiView,
    fetched: Result<(PageView, CacheStatus), BrowserErrorView>,
) -> TuiView {
    let (s, e) = reloaded(v.session, fetched);
    match e {
        None => stepped(v, s),
        Some(e) => step_failed(v, s, "reload failed"@, e),
    }
}

/// What a key does while a query is typed.
pub open spec fn find_keyed(v: TuiView, key: Key) -> TuiView {
    match key {
        Key::Enter => query_committed(v),
        Key::Esc => query_cancelled(v),
        Key::Backspace => searched(v, shortened(v.find_query)),
        Key::Char(c) => searched(v, v.find_query.push(c)),
        _ => v,
    }
}

/// What a key does: commands of one letter work only while the address line
/// is empty.
pub open spec fn keyed(v: TuiView, key: Key) -> (TuiView, KeyActionView) {
    let empty = v.input.len() == 0;
    if v.finding {
        (find_keyed(v, key), KeyActionView::Continue)
    } else if empty && key == Key::Char('q') {
        (v, KeyActionView::Quit)
    } else if empty && key == Key::Char('?') {
        (TuiView { show_help: !v.show_help, ..v }, KeyActionView::Continue)
    } else if empty && key == Key::Char('/') {
        (query_begun(v), KeyActionView::Continue)
    } else if empty && key == Key::Char('n') {
        (at_next_match(v, VIEW_LINES as nat), KeyActionView::Continue)
    } else if empty && key == Key::Char('b') {
        (stepped_back(v), KeyActionView::Continue)
    } else if empty && key == Key::Char('f') {
        (stepped_forward(v), KeyActionView::Continue)
    } else if empty && key == Key::Char('r') {
        (v, KeyActionView::Reload)
    } else {
        match key {
            Key::Enter => (
                v,
                if trim(v.input).len() > 0 {
                    KeyActionView::Open(trim(v.input))
                } else {
                    KeyActionView::Continue
                },
            ),
            Key::Esc => (
                if empty && v.show_help {
                    TuiView { show_help: false, ..v }
                } else {
                    TuiView { input: Seq::empty(), ..v }
                },
                KeyActionView::Continue,
            ),
            Key::Backspace => (
                TuiView { input: shortened(v.input), ..v },
                KeyActionView::Continue,
            ),
            Key::Up => (scrolled(v, -1, VIEW_LINES as nat), KeyActionView::Continue),
            Key::Down => (scrolled(v, 1, VIEW_LINES as nat), KeyActionView::Continue),
            Key::PageUp => (scrolled(v, -20, VIEW_LINES as nat), KeyActionView::Continue),
            Key::PageDown => (scrolled(v, 20, VIEW_LINES as nat), KeyActionView::Continue),
            Key::Char(c) => (TuiView { input: v.input.push(c), ..v }, KeyActionView::Continue),
            Key::Other => (v, KeyActionView::Continue),
        }
    }
}

/// A text without its last character.
fn shorten(s: &String) -> (out: String)
    ensures
        out@ == shortened(s@),
{
    let n = s.as_str().unicode_len();
    if n == 0 {
        return s.clone();
    }
    assert(s@.subrange(0, n - 1) =~= s@.drop_last());
    s.as_str().substring_char(0, n - 1).to_owned()
}

/// The last offset at which a view is still full.
fn max_start(total: usize, height: usize) -> (n: usize)
    ensures
        n == last_start(total as nat, height as nat),
{
    let h: usize = if height == 0 {
        1
    } else {
        height
    };
    if total <= h {
        0
    } else {
        total - h
    }
}

impl TuiState {
    /// A browser against a server; a pin makes it verify what it fetches.
    pub fn new(server: &str, pin: Option<String>) -> (t: Self)
        ensures
            t@ == (TuiView {
                session: SessionView { pin: opt_text(pin), ..new_session(server@) },
                input: Seq::empty(),
                scroll: 0,
                status: "type a target (site[/path]) and press Enter"@,
                visited: Seq::empty(),
                finding: false,
                find_query: Seq::empty(),
                find_matches: Seq::empty(),
                find_pos: 0,
                show_help: false,
            }),
    {
        let t = TuiState {
            session: ClientSession::new(server).with_pin(pin),
            input: String::new(),
            scroll: 0,
            status: "type a target (site[/path]) and press Enter".to_owned(),
            visited: Vec::new(),
            finding: false,
            find: Search::none(),
            show_help: false,
        };
        assert(t@.visited =~= Seq::empty());
        t
    }

    /// Where the session is.
    pub fn where_am_i(&self) -> (out: String)
        ensures
            out@ == location(self@.session),
    {
        let base = match self.session.visits().current() {
            Some(v) => "@".to_owned().concat(v.site.as_str()).concat(" /").concat(
                v.path.as_str(),
            ).concat(" — ").concat(v.page.metadata.title.as_str()),
            None => "(no page loaded)".to_owned(),
        };
        match self.session.last_status() {
            Some(CacheStatus::Stale) => base.concat(" [offline]"),
            Some(CacheStatus::StaleVerified) => base.concat(" [offline, verified]"),
            _ => base,
        }
    }

    /// The lines of the present page.
    pub fn page_lines(&self) -> (out: Vec<String>)
        ensures
            texts(out@) == shown_lines(self@.session),
    {
        match self.session.visits().current() {
            Some(v) => split_lines(render_text(&v.page).as_str()),
            None => {
                let mut out: Vec<String> = Vec::new();
                out.push("No page. Open site[/path] above.".to_owned());
                assert(texts(out@) =~= seq!["No page. Open site[/path] above."@]);
                out
            },
        }
    }

    /// The first line that a view shows, and the one behind its last.
    pub fn visible_range(&self, viewport_height: usize) -> (out: (usize, usize))
        ensures
            ({
                let total = shown_lines(self@.session).len();
                let start = clamped(
                    self@.scroll as int,
                    last_start(total, viewport_height as nat),
                );
                &&& out.0 == start
                &&& out.1 == if start + viewport_height <= total {
                    start + viewport_height
                } else {
                    total as int
                }
                &&& out.0 <= out.1 <= total
            }),
    {
        let total = self.page_lines().len();
        let most = max_start(total, viewport_height);
        let start = if self.scroll > most {
            most
        } else {
            self.scroll
        };
        if viewport_height <= total - start {
            (start, start + viewport_height)
        } else {
            (start, total)
        }
    }

    /// Moves the view; it stays within the page.
    pub fn scroll_by(&mut self, delta: isize, viewport_height: usize)
        ensures
            final(self)@ == scrolled(old(self)@, delta as int, viewport_height as nat),
    {
        let most = max_start(self.page_lines().len(), viewport_height);
        let next: i128 = self.scroll as i128 + delta as i128;
        self.scroll = if next < 0 {
            0
        } else if next > most as i128 {
            most
        } else {
            next as usize
        };
    }

    /// Clears the query and its matches.
    fn clear_find(&mut self)
        ensures
            final(self)@ == without_query(old(self)@),
    {
        self.find = Search::none();
    }

    /// Puts the view at the present match.
    fn jump_to_match(&mut self, viewport_height: usize)
        ensures
            final(self)@ == jumped(old(self)@, viewport_height as nat),
    {
        if self.find.pos < self.find.matches.len() {
            let line = self.find.matches[self.find.pos];
            let most = max_start(self.page_lines().len(), viewport_height);
            self.scroll = if line > most {
                most
            } else {
                line
            };
        }
    }

    /// The status while a query is there.
    fn find_status_text(&self) -> (out: String)
        ensures
            out@ == find_status(self@),
    {
        proof {
            use_type_invariant(&self.find);
        }
        if self.find.query.as_str().unicode_len() == 0 {
            return "find: type a query, Enter confirms, Esc cancels".to_owned();
        }
        let n = self.find.matches.len();
        if n == 0 {
            return "find ".to_owned().concat(quote(self.find.query.as_str()).as_str()).concat(
                ": no matches",
            );
        }
        "find ".to_owned().concat(quote(self.find.query.as_str()).as_str()).concat(
            ": match ",
        ).concat(decimal(self.find.pos as u64 + 1).as_str()).concat("/").concat(
            decimal(n as u64).as_str(),
        ).concat(" (n = next)")
    }

    /// Searches for another query, and goes to its first match.
    fn search(&mut self, query: String)
        ensures
            final(self)@ == searched(old(self)@, query@),
    {
        let matches = find_lines(&self.page_lines(), query.as_str());
        self.find = Search { query, matches, pos: 0 };
        assert(self@ == (TuiView {
            find_query: query@,
            find_matches: matching(shown_lines(old(self)@.session), query@),
            find_pos: 0,
            ..old(self)@
        }));
        self.jump_to_match(VIEW_LINES);
        self.status = self.find_status_text();
    }

    /// Begins a query.
    pub fn enter_find(&mut self)
        ensures
            final(self)@ == query_begun(old(self)@),
    {
        self.clear_find();
        self.finding = true;
        self.status = "find: type a query, Enter confirms, Esc cancels".to_owned();
    }

    /// Whether a query is being typed.
    pub fn is_finding(&self) -> (yes: bool)
        ensures
            yes == self@.finding,
    {
        self.finding
    }

    /// The query.
    pub fn find_query(&self) -> (q: &str)
        ensures
            q@ == self@.find_query,
    {
        self.find.query.as_str()
    }

    /// The lines in which the query stands.
    pub fn find_matches(&self) -> (m: &[usize])
        ensures
            m@ == self@.find_matches,
    {
        self.find.matches.as_slice()
    }

    /// The line of the present match.
    pub fn current_match_line(&self) -> (out: Option<usize>)
        ensures
            out == if self@.find_pos < self@.find_matches.len() {
                Some(self@.find_matches[self@.find_pos as int])
            } else {
                None
            },
    {
        if self.find.pos < self.find.matches.len() {
            Some(self.find.matches[self.find.pos])
        } else {
            None
        }
    }

    /// Goes to the next match; behind the last one comes the first.
    pub fn next_match(&mut self, viewport_height: usize)
        ensures
            final(self)@ == at_next_match(old(self)@, viewport_height as nat),
    {
        let n = self.find.matches.len();
        if n == 0 {
            return;
        }
        proof {
            use_type_invariant(&self.find);
            lemma_wraps((self.find.pos + 1) as nat, n as nat);
        }
        let mut found = Search::none();
        std::mem::swap(&mut self.find, &mut found);
        let pos: usize = if found.pos + 1 == n {
            0
        } else {
            found.pos + 1
        };
        self.find = Search { query: found.query, matches: found.matches, pos };
        self.jump_to_match(viewport_height);
        self.status = self.find_status_text();
    }

    /// Logs a visit.
    pub fn record_visit(&mut self, site: &str, path: &str)
        ensures
            final(self)@ == (TuiView {
                visited: logged(old(self)@.visited, site@, path@),
                ..old(self)@
            }),
    {
        let n = self.visited.len();
        if n > 0 {
            let last = &self.visited[n - 1];
            if same_text(last.site.as_str(), site) && same_text(last.path.as_str(), path) {
                return;
            }
        }
        self.visited.push(HistoryVisit { site: site.to_owned(), path: path.to_owned() });
        assert(log_view(self.visited@) =~= log_view(old(self).visited@).push((site@, path@)));
        self.keep_newest();
    }

    /// Drops the oldest visits of the log beyond the most.
    fn keep_newest(&mut self)
        ensures
            final(self)@ == (TuiView { visited: newest(old(self)@.visited), ..old(self)@ }),
    {
        let n = self.visited.len();
        if n > HISTORY_MAX_ENTRIES {
            let later = self.visited.split_off(n - HISTORY_MAX_ENTRIES);
            self.visited = later;
            assert(log_view(self.visited@) =~= newest(log_view(old(self).visited@)));
        }
    }

    /// The log of visits, oldest first.
    pub fn visited(&self) -> (log: &[HistoryVisit])
        ensures
            log_view(log@) == self@.visited,
    {
        self.visited.as_slice()
    }

    /// Takes over a log that was kept; nothing where it cannot be read.
    /// Visits that name no valid site and path are dropped, and only the
    /// newest stay.
    pub fn load_visits(&mut self, kept: Option<Vec<HistoryVisit>>)
        ensures
            final(self)@ == (TuiView {
                visited: match kept {
                    Some(log) => newest(valid_visits(log_view(log@))),
                    None => Seq::empty(),
                },
                ..old(self)@
            }),
    {
        let mut log: Vec<HistoryVisit> = Vec::new();
        assert(log_view(log@) =~= Seq::empty());
        if let Some(entries) = &kept {
            let ghost all = log_view(entries@);
            let mut i: usize = 0;
            assert(all.take(0) =~= Seq::empty());
            while i < entries.len()
                invariant
                    i <= entries@.len(),
                    all == log_view(entries@),
                    log_view(log@) == valid_visits(all.take(i as int)),
                decreases entries@.len() - i,
            {
                let e = &entries[i];
                let ghost before = log_view(log@);
                proof {
                    assert(all.take(i + 1).drop_last() =~= all.take(i as int));
                    assert(all.take(i + 1).last() == (e.site@, e.path@));
                }
                if is_valid_site(e.site.as_str()) && is_valid_path(e.path.as_str()) {
                    log.push(HistoryVisit { site: e.site.clone(), path: e.path.clone() });
                    assert(log_view(log@) =~= before.push((e.site@, e.path@)));
                }
                i = i + 1;
            }
            assert(all.take(i as int) =~= all);
        }
        self.visited = log;
        self.keep_newest();
    }

    /// Opens a target with what was fetched for it.
    pub fn open(&mut self, target: &str, fetched: Result<(Page, CacheStatus), BrowserError>)
        ensures
            final(self)@ == target_opened(old(self)@, target@, fetched_view(fetched)),
    {
        match self.session.open(target, fetched) {
            Ok(_) => {
                self.scroll = 0;
                self.input = String::new();
                self.clear_find();
                if let Ok((site, path)) = parse_target(target) {
                    self.record_visit(site.as_str(), path.as_str());
                }
                self.status = self.where_am_i();
            },
            Err(e) => {
                let offline = match &e {
                    BrowserError::Transport(_) => true,
                    _ => false,
                };
                let note = if offline {
                    "offline: "
                } else {
                    "error: "
                };
                self.status = note.to_owned().concat(e.to_string().as_str());
            },
        }
    }

    /// Shows what a step or a reload came to.
    fn arrive(&mut self, done: Result<(), BrowserError>, note: &str)
        ensures
            final(self)@ == match done {
                Ok(_) => stepped(old(self)@, old(self)@.session),
                Err(e) => step_failed(old(self)@, old(self)@.session, note@, e@),
            },
    {
        match done {
            Ok(_) => {
                self.scroll = 0;
                self.clear_find();
                self.status = self.where_am_i();
            },
            Err(e) => {
                self.status = note.to_owned().concat(": ").concat(e.to_string().as_str());
            },
        }
    }

    /// Steps back in the history.
    pub fn back(&mut self)
        ensures
            final(self)@ == stepped_back(old(self)@),
    {
        let done = self.session.back();
        self.arrive(done, "at the start of history");
    }

    /// Steps forward in the history.
    pub fn forward(&mut self)
        ensures
            final(self)@ == stepped_forward(old(self)@),
    {
        let done = self.session.forward();
        self.arrive(done, "at the end of history");
    }

    /// Shows the present page as it was fetched again.
    pub fn reload(&mut self, fetched: Result<(Page, CacheStatus), BrowserError>)
        ensures
            final(self)@ == page_reloaded(old(self)@, fetched_view(fetched)),
    {
        let done = self.session.reload(fetched);
        self.arrive(done, "reload failed");
    }

    /// The browser with a cache: pages are fetched through it.
    pub fn with_cache(self, cache: OfflineCache) -> (t: Self)
        ensures
            t@ == (TuiView {
                session: SessionView { cache: Some(cache), ..self@.session },
                ..self@
            }),
    {
        TuiState {
            session: self.session.with_cache(cache),
            input: self.input,
            scroll: self.scroll,
            status: self.status,
            visited: self.visited,
            finding: self.finding,
            find: self.find,
            show_help: self.show_help,
        }
    }

    /// Confirms the query.
    fn commit_find(&mut self)
        ensures
            final(self)@ == query_committed(old(self)@),
    {
        proof {
            use_type_invariant(&self.find);
        }
        self.finding = false;
        if self.find.query.as_str().unicode_len() == 0 {
            assert(self@.find_query =~= Seq::empty());
            self.find = Search::none();
            self.status = self.where_am_i();
        } else {
            self.status = self.find_status_text();
        }
    }

    /// Gives the query up.
    fn cancel_find(&mut self)
        ensures
            final(self)@ == query_cancelled(old(self)@),
    {
        self.finding = false;
        self.clear_find();
        self.status = self.where_am_i();
    }

    /// Shows or hides the help.
    pub fn toggle_help(&mut self)
        ensures
            final(self)@ == (TuiView { show_help: !old(self)@.show_help, ..old(self)@ }),
    {
        self.show_help = !self.show_help;
    }

    /// Handles a key while a query is typed.
    fn find_key(&mut self, key: Key)
        ensures
            final(self)@ == find_keyed(old(self)@, key),
    {
        match key {
            Key::Enter => self.commit_find(),
            Key::Esc => self.cancel_find(),
            Key::Backspace => {
                let query = shorten(&self.find.query);
                self.search(query);
            },
            Key::Char(c) => {
                let mut query = self.find.query.clone();
                query.push(c);
                self.search(query);
            },
            _ => {},
        }
    }

    /// Handles a command of one letter; tells whether the key is one.
    fn command_key(&mut self, c: char) -> (out: Option<KeyAction>)
        requires
            !old(self)@.finding,
            old(self)@.input.len() == 0,
        ensures
            match out {
                Some(a) => (final(self)@, a@) == keyed(old(self)@, Key::Char(c)),
                None => final(self)@ == old(self)@ && keyed(old(self)@, Key::Char(c)) == (
                    TuiView { input: old(self)@.input.push(c), ..old(self)@ },
                    KeyActionView::Continue,
                ),
            },
    {
        if c == 'q' {
            return Some(KeyAction::Quit);
        }
        if c == 'r' {
            return Some(KeyAction::Reload);
        }
        if c == '?' {
            self.toggle_help();
        } else if c == '/' {
            self.enter_find();
        } else if c == 'n' {
            self.next_match(VIEW_LINES);
        } else if c == 'b' {
            self.back();
        } else if c == 'f' {
            self.forward();
        } else {
            return None;
        }
        Some(KeyAction::Continue)
    }

    /// Handles a key.
    pub fn handle_key(&mut self, key: Key) -> (out: KeyAction)
        ensures
            (final(self)@, out@) == keyed(old(self)@, key),
    {
        if self.finding {
            self.find_key(key);
            return KeyAction::Continue;
        }
        let empty = self.input.as_str().unicode_len() == 0;
        match key {
            Key::Enter => {
                let target = trimmed(self.input.as_str());
                if target.as_str().unicode_len() > 0 {
                    return KeyAction::Open(target);
                }
            },
            Key::Esc => {
                if empty && self.show_help {
                    self.show_help = false;
                } else {
                    self.input = String::new();
                }
            },
            Key::Backspace => {
                self.input = shorten(&self.input);
            },
            Key::Up => self.scroll_by(-1, VIEW_LINES),
            Key::Down => self.scroll_by(1, VIEW_LINES),
            Key::PageUp => self.scroll_by(-20, VIEW_LINES),
            Key::PageDown => self.scroll_by(20, VIEW_LINES),
            Key::Char(c) => {
                if empty {
                    if let Some(action) = self.command_key(c) {
                        return action;
                    }
                }
                self.input.push(c);
            },
            Key::Other => {},
        }
        KeyAction::Continue
    }

    /// Handles a key with its control modifier: control with `c` or `d`
    /// leaves the browser, whatever is being typed.
    pub fn handle_event(&mut self, control: bool, key: Key) -> (out: KeyAction)
        ensures
            (final(self)@, out@) == if control && (key == Key::Char('c') || key == Key::Char('d')) {
                (old(self)@, KeyActionView::Quit)
            } else {
                keyed(old(self)@, key)
            },
    {
        if control && (key == Key::Char('c') || key == Key::Char('d')) {
            return KeyAction::Quit;
        }
        self.handle_key(key)
    }

    /// The address line.
    pub fn input(&self) -> (s: &str)
        ensures
            s@ == self@.input,
    {
        self.input.as_str()
    }

    /// The scroll offset, in lines from the top.
    pub fn scroll(&self) -> (n: usize)
        ensures
            n == self@.scroll,
    {
        self.scroll
    }

    /// The status.
    pub fn status(&self) -> (s: &str)
        ensures
            s@ == self@.status,
    {
        self.status.as_str()
    }

    /// Number of visits in the history.
    pub fn history_len(&self) -> (n: usize)
        requires
            all_visits(self@.session.history).len() <= usize::MAX,
        ensures
            n == all_visits(self@.session.history).len(),
    {
        self.session.visits().len()
    }

    /// Whether the session verifies what it fetches.
    pub fn is_pinned(&self) -> (yes: bool)
        ensures
            yes == self@.session.pin is Some,
    {
        self.session.pin().is_some()
    }

    /// Whether the help is shown.
    pub fn help_visible(&self) -> (yes: bool)
        ensures
            yes == self@.show_help,
    {
        self.show_help
    }

    /// The lines of the help.
    pub fn help_lines() -> (out: Vec<String>)
        ensures
            texts(out@) == seq![
                "nexus-tui keys"@,
                "Enter         open site[/path] / confirm find"@,
                "Esc           clear input / cancel find / close help"@,
                "Up Down       scroll one line (PgUp/PgDn: 20)"@,
                "b / f         back / forward"@,
                "r             reload current page"@,
                "/             find in page, then n = next match"@,
                "?             toggle this help"@,
                "q, Ctrl-C/D   quit"@,
            ],
    {
        let mut out: Vec<String> = Vec::new();
        out.push("nexus-tui keys".to_owned());
        out.push("Enter         open site[/path] / confirm find".to_owned());
        out.push("Esc           clear input / cancel find / close help".to_owned());
        out.push("Up Down       scroll one line (PgUp/PgDn: 20)".to_owned());
        out.push("b / f         back / forward".to_owned());
        out.push("r             reload current page".to_owned());
        out.push("/             find in page, then n = next match".to_owned());
        out.push("?             toggle this help".to_owned());
        out.push("q, Ctrl-C/D   quit".to_owned());
        assert(texts(out@) =~= seq![
            "nexus-tui keys"@,
            "Enter         open site[/path] / confirm find"@,
            "Esc           clear input / cancel find / close help"@,
            "Up Down       scroll one line (PgUp/PgDn: 20)"@,
            "b / f         back / forward"@,
            "r             reload current page"@,
            "/             find in page, then n = next match"@,
            "?             toggle this help"@,
            "q, Ctrl-C/D   quit"@,
        ]);
        out
    }
}

/// While something is typed in the address line, a letter is always text.
pub proof fn law_typed_text_is_never_a_command(v: TuiView, c: char)
    requires
        !v.finding,
        v.input.len() > 0,
    ensures
        keyed(v, Key::Char(c)) == (
            TuiView { input: v.input.push(c), ..v },
            KeyActionView::Continue,
        ),
        keyed(keyed(v, Key::Char(c)).0, Key::Backspace).0 == v,
{
    assert(v.input.push(c).drop_last() =~= v.input);
}

/// Only `q` on an empty address line leaves the browser by a plain key.
pub proof fn law_only_q_quits(v: TuiView, key: Key)
    ensures
        keyed(v, key).1 is Quit <==> !v.finding && v.input.len() == 0 && key == Key::Char('q'),
{
}

/// However the view is moved, it stays within the page.
pub proof fn law_the_view_stays_within_the_page(v: TuiView, delta: int, height: nat)
    ensures
        scrolled(v, delta, height).scroll <= last_start(shown_lines(v.session).len(), height),
        scrolled(scrolled(v, delta, height), 0, height) == scrolled(v, delta, height),
{
}

/// The log never holds more than its most, and a visit that was logged is its
/// last.
pub proof fn law_the_log_is_bounded(
    log: Seq<(Seq<char>, Seq<char>)>,
    site: Seq<char>,
    path: Seq<char>,
)
    requires
        log.len() <= HISTORY_MAX_ENTRIES,
    ensures
        0 < logged(log, site, path).len() <= HISTORY_MAX_ENTRIES,
        logged(log, site, path).last() == (site, path),
        logged(logged(log, site, path), site, path) == logged(log, site, path),
{
}

/// The next match is the one behind, and behind the last one the first.
pub proof fn law_matches_cycle(v: TuiView, height: nat)
    requires
        v.find_pos < v.find_matches.len(),
    ensures
        at_next_match(v, height).find_pos == if v.find_pos + 1 == v.find_matches.len() {
            0
        } else {
            v.find_pos + 1
        },
        at_next_match(v, height).find_matches == v.find_matches,
{
    lemma_wraps((v.find_pos + 1) as nat, v.find_matches.len());
}

proof fn lemma_wraps(p: nat, n: nat)
    requires
        0 < p <= n,
    ensures
        p % n == if p == n {
            0
        } else {
            p
        },
{
    if p == n {
        vstd::arithmetic::div_mod::lemma_mod_self_0(n as int);
    } else {
        vstd::arithmetic::div_mod::lemma_small_mod(p, n);
    }
}

/// The view moves by as many lines as asked, but never before the first line
/// nor beyond where the last line is at the bottom; nothing else changes.
pub proof fn law_scrolling(v: TuiView, delta: int, height: nat)
    ensures
        ({
            let total = shown_lines(v.session).len() as int;
            let rows = if height == 0 {
                1
            } else {
                height as int
            };
            let most = if total > rows {
                total - rows
            } else {
                0
            };
            let wanted = v.scroll + delta;
            &&& scrolled(v, delta, height).scroll == if wanted < 0 {
                0
            } else if wanted > most {
                most
            } else {
                wanted
            }
            &&& scrolled(v, delta, height) == (TuiView {
                scroll: scrolled(v, delta, height).scroll,
                ..v
            })
        }),
{
}

/// What is shown is the present page, line by line, or the word that there is
/// none; where it is from is told with its title and whether it is cached.
pub proof fn law_what_is_shown(s: SessionView)
    ensures
        s.history.present matches Some(v) ==> shown_lines(s) == lines_of(page_text(v.page)),
        s.history.present is None ==> shown_lines(s).len() == 1,
        ({
            let place = match s.history.present {
                Some(v) => "@"@ + v.site + " /"@ + v.path + " — "@ + v.page.title,
                None => "(no page loaded)"@,
            };
            location(s) == match present_status(s) {
                Some(CacheStatus::Stale) => place + " [offline]"@,
                Some(CacheStatus::StaleVerified) => place + " [offline, verified]"@,
                Some(CacheStatus::Fresh) => place,
                None => place,
            }
        }),
{
}

/// A query is searched in the lines of the present page: its matches are the
/// lines that hold it, the first of them is the present one and is brought
/// into view, and the status tells how many there are.
pub proof fn law_queries_are_searched_at_once(v: TuiView, query: Seq<char>)
    ensures
        ({
            let t = searched(v, query);
            let lines = shown_lines(v.session);
            &&& t.find_query == query
            &&& t.find_matches == matching(lines, query)
            &&& t.find_pos == 0
            &&& t.find_matches.len() == 0 ==> t.scroll == v.scroll
            &&& t.find_matches.len() > 0 ==> t.scroll == if lines.len() <= 24 {
                0
            } else if t.find_matches[0] > lines.len() - 24 {
                lines.len() - 24
            } else {
                t.find_matches[0] as int
            }
            &&& t == (TuiView {
                find_query: t.find_query,
                find_matches: t.find_matches,
                find_pos: t.find_pos,
                scroll: t.scroll,
                status: t.status,
                ..v
            })
            &&& t.status == if query.len() == 0 {
                "find: type a query, Enter confirms, Esc cancels"@
            } else if t.find_matches.len() == 0 {
                "find "@ + quoted(query) + ": no matches"@
            } else {
                "find "@ + quoted(query) + ": match "@ + dec_chars(1) + "/"@ + dec_chars(
                    t.find_matches.len(),
                ) + " (n = next)"@
            }
        }),
{
}

/// The next match is the one behind the present one, the first behind the
/// last; it is brought into view, and the status tells which it is.
pub proof fn law_the_next_match_is_shown(v: TuiView, height: nat)
    requires
        v.find_pos < v.find_matches.len(),
        v.find_query.len() > 0,
        height > 0,
    ensures
        ({
            let t = at_next_match(v, height);
            let lines = shown_lines(v.session);
            let pos: nat = if v.find_pos + 1 == v.find_matches.len() {
                0
            } else {
                v.find_pos + 1
            };
            let line = v.find_matches[pos as int] as int;
            &&& t.find_pos == pos
            &&& t.scroll == if lines.len() <= height {
                0
            } else if line > lines.len() - height {
                lines.len() - height
            } else {
                line
            }
            &&& t.status == "find "@ + quoted(v.find_query) + ": match "@ + dec_chars(pos + 1)
                + "/"@ + dec_chars(v.find_matches.len()) + " (n = next)"@
            &&& t == (TuiView {
                find_pos: t.find_pos,
                scroll: t.scroll,
                status: t.status,
                ..v
            })
        }),
{
    law_matches_cycle(v, height);
}

/// Without matches there is no next one, and nothing changes.
pub proof fn law_without_matches_nothing_moves(v: TuiView, height: nat)
    requires
        v.find_matches.len() == 0,
    ensures
        at_next_match(v, height) == v,
{
}

/// While a query is typed, letters and backspace edit it and search at once,
/// Enter keeps it, Esc gives it up, and no key is a command.
pub proof fn law_keys_while_a_query_is_typed(v: TuiView, c: char)
    requires
        v.finding,
    ensures
        keyed(v, Key::Char(c)) == (searched(v, v.find_query.push(c)), KeyActionView::Continue),
        keyed(v, Key::Backspace) == (
            searched(
                v,
                if v.find_query.len() > 0 {
                    v.find_query.drop_last()
                } else {
                    v.find_query
                },
            ),
            KeyActionView::Continue,
        ),
        keyed(v, Key::Esc).0 == (TuiView {
            finding: false,
            find_query: Seq::empty(),
            find_matches: Seq::empty(),
            find_pos: 0,
            status: location(v.session),
            ..v
        }),
        v.find_query.len() > 0 ==> keyed(v, Key::Enter).0 == (TuiView {
            finding: false,
            status: keyed(v, Key::Enter).0.status,
            ..v
        }),
        v.find_query.len() == 0 ==> keyed(v, Key::Enter).0 == (TuiView {
            finding: false,
            find_matches: Seq::empty(),
            status: location(v.session),
            ..v
        }),
        keyed(v, Key::Up) == (v, KeyActionView::Continue),
        keyed(v, Key::Down) == (v, KeyActionView::Continue),
        keyed(v, Key::PageUp) == (v, KeyActionView::Continue),
        keyed(v, Key::PageDown) == (v, KeyActionView::Continue),
        keyed(v, Key::Other) == (v, KeyActionView::Continue),
{
}

/// The keys of the address line: Enter opens what was typed, without white
/// space around it; Esc clears the line, or closes the help where the line is
/// empty; Backspace takes the last letter back; arrows and page keys scroll.
pub proof fn law_keys_of_the_address_line(v: TuiView)
    requires
        !v.finding,
    ensures
        keyed(v, Key::Enter).0 == v,
        keyed(v, Key::Enter).1 == if trim(v.input).len() > 0 {
            KeyActionView::Open(trim(v.input))
        } else {
            KeyActionView::Continue
        },
        v.input.len() == 0 && v.show_help ==> keyed(v, Key::Esc) == (
            TuiView { show_help: false, ..v },
            KeyActionView::Continue,
        ),
        v.input.len() > 0 || !v.show_help ==> keyed(v, Key::Esc) == (
            TuiView { input: Seq::empty(), ..v },
            KeyActionView::Continue,
        ),
        v.input.len() > 0 ==> keyed(v, Key::Backspace) == (
            TuiView { input: v.input.drop_last(), ..v },
            KeyActionView::Continue,
        ),
        v.input.len() == 0 ==> keyed(v, Key::Backspace) == (v, KeyActionView::Continue),
        keyed(v, Key::Up) == (scrolled(v, -1, 24), KeyActionView::Continue),
        keyed(v, Key::Down) == (scrolled(v, 1, 24), KeyActionView::Continue),
        keyed(v, Key::PageUp) == (scrolled(v, -20, 24), KeyActionView::Continue),
        keyed(v, Key::PageDown) == (scrolled(v, 20, 24), KeyActionView::Continue),
        keyed(v, Key::Other) == (v, KeyActionView::Continue),
{
}

/// The commands of one letter, which are such on an empty address line only:
/// any other letter is typed.
pub proof fn law_commands_of_one_letter(v: TuiView, c: char)
    requires
        !v.finding,
        v.input.len() == 0,
    ensures
        keyed(v, Key::Char('q')) == (v, KeyActionView::Quit),
        keyed(v, Key::Char('r')) == (v, KeyActionView::Reload),
        keyed(v, Key::Char('?')) == (
            TuiView { show_help: !v.show_help, ..v },
            KeyActionView::Continue,
        ),
        keyed(v, Key::Char('n')) == (at_next_match(v, 24), KeyActionView::Continue),
        keyed(v, Key::Char('b')) == (stepped_back(v), KeyActionView::Continue),
        keyed(v, Key::Char('f')) == (stepped_forward(v), KeyActionView::Continue),
        keyed(v, Key::Char('/')) == (
            TuiView {
                finding: true,
                find_query: Seq::empty(),
                find_matches: Seq::empty(),
                find_pos: 0,
                status: "find: type a query, Enter confirms, Esc cancels"@,
                ..v
            },
            KeyActionView::Continue,
        ),
        c != 'q' && c != 'r' && c != '?' && c != 'n' && c != 'b' && c != 'f' && c != '/' ==> keyed(
            v,
            Key::Char(c),
        ) == (TuiView { input: seq![c], ..v }, KeyActionView::Continue),
{
    assert(v.input.push(c) =~= seq![c]);
}

/// A step in the history shows the page that it leads to from its top, with no
/// query; at either end of the history nothing but the status changes.
pub proof fn law_steps_show_the_page_from_its_top(v: TuiView)
    ensures
        ({
            let h = v.session.history;
            let back = stepped_back(v);
            let forward = stepped_forward(v);
            &&& can_go_back(h) ==> back.session == (SessionView {
                history: gone_back(h),
                ..v.session
            }) && back.scroll == 0 && back.find_query.len() == 0 && back.find_matches.len() == 0
                && back.status == location(back.session) && back.input == v.input && back.visited
                == v.visited
            &&& !can_go_back(h) ==> back == (TuiView {
                status: "at the start of history: content: at the start of history"@,
                ..v
            })
            &&& can_go_forward(h) ==> forward.session == (SessionView {
                history: gone_forward(h),
                ..v.session
            }) && forward.scroll == 0 && forward.find_query.len() == 0
                && forward.find_matches.len() == 0 && forward.status == location(forward.session)
                && forward.input == v.input && forward.visited == v.visited
            &&& !can_go_forward(h) ==> forward == (TuiView {
                status: "at the end of history: content: at the end of history"@,
                ..v
            })
        }),
{
    reveal_strlit("at the start of history: content: at the start of history");
    reveal_strlit("at the end of history: content: at the end of history");
    reveal_strlit("at the start of history");
    reveal_strlit("at the end of history");
    reveal_strlit(": ");
    reveal_strlit("content: ");
    assert("at the start of history"@ + ": "@ + ("content: "@ + "at the start of history"@)
        =~= "at the start of history: content: at the start of history"@);
    assert("at the end of history"@ + ": "@ + ("content: "@ + "at the end of history"@)
        =~= "at the end of history: content: at the end of history"@);
}

/// A target that opens is shown from its top, logged, and clears the address
/// line and the query; one that does not leaves all of that, and the status
/// tells why.
pub proof fn law_opened_targets_are_shown_and_logged(
    v: TuiView,
    target: Seq<char>,
    fetched: Result<(PageView, CacheStatus), BrowserErrorView>,
)
    ensures
        ({
            let t = target_opened(v, target, fetched);
            let (s, e) = opened(v.session, target, fetched);
            &&& t.session == s
            &&& e is None ==> t.scroll == 0 && t.input.len() == 0 && t.find_query.len() == 0
                && t.find_matches.len() == 0 && t.status == location(s) && t.show_help
                == v.show_help
            &&& e is None ==> (parsed_target(target) matches Ok((site, path)) && t.visited
                == logged(v.visited, site, path))
            &&& e matches Some(f) ==> t == (TuiView { session: s, status: t.status, ..v })
                && t.status == (if f is Transport {
                "offline: "@
            } else {
                "error: "@
            }) + error_text(f)
            &&& page_reloaded(v, fetched).session == reloaded(v.session, fetched).0
            &&& reloaded(v.session, fetched).1 is None ==> page_reloaded(v, fetched).scroll == 0
                && page_reloaded(v, fetched).visited == v.visited && page_reloaded(
                v,
                fetched,
            ).input == v.input
        }),
{
}

/// The log takes a visit at its end, unless that is the last one already, and
/// keeps the newest hundred, in order.
pub proof fn law_the_log_keeps_the_newest(
    log: Seq<(Seq<char>, Seq<char>)>,
    site: Seq<char>,
    path: Seq<char>,
)
    ensures
        log.len() > 0 && log.last() == (site, path) ==> logged(log, site, path) == log,
        log.len() < 100 && (log.len() == 0 || log.last() != (site, path)) ==> logged(
            log,
            site,
            path,
        ) == log.push((site, path)),
        log.len() == 100 && log.last() != (site, path) ==> logged(log, site, path) == log.skip(
            1,
        ).push((site, path)),
        log.len() <= 100 ==> newest(log) == log,
        log.len() > 100 ==> newest(log) == log.skip(log.len() - 100),
{
    if log.len() == 100 {
        assert(log.push((site, path)).skip(1) =~= log.skip(1).push((site, path)));
    }
}

/// A log that is taken over keeps its valid visits, in order, and no others.
pub proof fn law_invalid_visits_are_dropped(
    log: Seq<(Seq<char>, Seq<char>)>,
    visit: (Seq<char>, Seq<char>),
)
    ensures
        valid_visits(Seq::empty()) == Seq::<(Seq<char>, Seq<char>)>::empty(),
        valid_visits(log.push(visit)) == if valid_site(visit.0) && valid_path(visit.1) {
            valid_visits(log).push(visit)
        } else {
            valid_visits(log)
        },
{
    assert(log.push(visit).drop_last() =~= log);
}

/// A reload shows the page from its top and drops the query; one that failed
/// says so and leaves the rest as it is.
pub proof fn law_reloads_are_shown(
    v: TuiView,
    fetched: Result<(PageView, CacheStatus), BrowserErrorView>,
)
    ensures
        ({
            let t = page_reloaded(v, fetched);
            let (s, e) = reloaded(v.session, fetched);
            match e {
                None => t == (TuiView {
                    session: s,
                    scroll: 0,
                    status: location(s),
                    find_query: Seq::empty(),
                    find_matches: Seq::empty(),
                    find_pos: 0,
                    ..v
                }),
                Some(f) => t == (TuiView {
                    session: s,
                    status: "reload failed: "@ + error_text(f),
                    ..v
                }),
            }
        }),
{
    reveal_strlit("reload failed");
    reveal_strlit(": ");
    reveal_strlit("reload failed: ");
    assert("reload failed"@ + ": "@ =~= "reload failed: "@);
    if let Some(f) = reloaded(v.session, fetched).1 {
        assert(page_reloaded(v, fetched).status =~= "reload failed: "@ + error_text(f));
    }
}

/// A query that was confirmed stays with its matches, and the status tells
/// which match is shown; a step keeps the help and the query line as they are.
pub proof fn law_confirmed_queries_stay(v: TuiView)
    requires
        v.finding,
        v.find_query.len() > 0,
    ensures
        keyed(v, Key::Enter) == (
            TuiView {
                finding: false,
                status: if v.find_matches.len() == 0 {
                    "find "@ + quoted(v.find_query) + ": no matches"@
                } else {
                    "find "@ + quoted(v.find_query) + ": match "@ + dec_chars(v.find_pos + 1)
                        + "/"@ + dec_chars(v.find_matches.len()) + " (n = next)"@
                },
                ..v
            },
            KeyActionView::Continue,
        ),
        keyed(v, Key::Esc).1 is Continue,
        stepped_back(v).show_help == v.show_help,
        stepped_forward(v).show_help == v.show_help,
        stepped_back(v).finding,
        stepped_forward(v).finding,
{
}

/// Without a page one line says how to open one.
pub proof fn law_without_a_page_the_way_in_is_shown(s: SessionView)
    requires
        s.history.present is None,
    ensures
        shown_lines(s) == seq!["No page. Open site[/path] above."@],
{
}

/// Whatever was scrolled to, the lines shown start within the page: as far
/// down as wanted, but so that the last line is no higher than the bottom
/// row.
pub proof fn law_where_the_view_starts(scroll: nat, total: nat, height: nat)
    requires
        height > 0,
    ensures
        ({
            let start = clamped(scroll as int, last_start(total, height));
            &&& total <= height ==> start == 0
            &&& total > height && scroll + height <= total ==> start == scroll
            &&& total > height && scroll + height > total ==> start + height == total
        }),
{
}

} // verus!
