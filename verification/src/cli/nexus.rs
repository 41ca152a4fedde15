//! The command line of the browser with a prompt.

use crate::browser::history::{all_visits, History, HistoryView};
use crate::cli::{asks_for_help, is_option, looks_like_option, Stop, StopView, DEFAULT_SERVER};
use crate::content::{opt_text, texts};
use crate::text::{dec_chars, decimal, head, same_text, split_first, tail, trim, trimmed};
use vstd::prelude::*;
use vstd::string::*;

verus! {

/// A command at the prompt.
#[derive(Debug, Clone, PartialEq, Eq)]
pub enum Command {
    Back,
    Forward,
    History,
    Open(String),
    Reload,
    Help,
    Quit,
    Noop,
}

/// The mathematical value of a [`Command`].
pub enum CommandView {
    Back,
    Forward,
    History,
    Open(Seq<char>),
    Reload,
    Help,
    Quit,
    Noop,
}

impl View for Command {
    type V = CommandView;

    open spec fn view(&self) -> CommandView {
        match self {
            Command::Back => CommandView::Back,
            Command::Forward => CommandView::Forward,
            Command::History => CommandView::History,
            Command::Open(t) => CommandView::Open(t@),
            Command::Reload => CommandView::Reload,
            Command::Help => CommandView::Help,
            Command::Quit => CommandView::Quit,
            Command::Noop => CommandView::Noop,
        }
    }
}

/// The command that a line is. The first word decides; a line whose first
/// word is no command is a target.
pub open spec fn command_of(line: Seq<char>) -> CommandView {
    let l = trim(line);
    let word = head(l, ' ');
    if word == "b"@ || word == "back"@ {
        CommandView::Back
    } else if word == "f"@ || word == "forward"@ {
        CommandView::Forward
    } else if word == "h"@ || word == "history"@ {
        CommandView::History
    } else if word == "g"@ || word == "goto"@ {
        CommandView::Open(trim(tail(l, ' ')))
    } else if word == "r"@ || word == "reload"@ {
        CommandView::Reload
    } else if word == "q"@ || word == "quit"@ || word == "exit"@ {
        CommandView::Quit
    } else if word == "?"@ || word == "help"@ {
        CommandView::Help
    } else if word.len() == 0 {
        CommandView::Noop
    } else {
        CommandView::Open(l)
    }
}

/// Reads a line at the prompt.
pub fn parse_command(line: &str) -> (out: Command)
    ensures
        out@ == command_of(line@),
{
    let line = trimmed(line);
    let (word, rest) = split_first(line.as_str(), ' ');
    if same_text(word, "b") || same_text(word, "back") {
        Command::Back
    } else if same_text(word, "f") || same_text(word, "forward") {
        Command::Forward
    } else if same_text(word, "h") || same_text(word, "history") {
        Command::History
    } else if same_text(word, "g") || same_text(word, "goto") {
        Command::Open(trimmed(rest))
    } else if same_text(word, "r") || same_text(word, "reload") {
        Command::Reload
    } else if same_text(word, "q") || same_text(word, "quit") || same_text(word, "exit") {
        Command::Quit
    } else if same_text(word, "?") || same_text(word, "help") {
        Command::Help
    } else if word.unicode_len() == 0 {
        Command::Noop
    } else {
        Command::Open(line)
    }
}

/// Server, target and pin of a command line.
pub struct BrowseView {
    pub server: Seq<char>,
    pub target: Option<Seq<char>>,
    pub pin: Option<Seq<char>>,
}

/// What the arguments say, with what was read before them: the last of
/// several servers, pins or targets counts.
pub open spec fn browse_args(args: Seq<Seq<char>>, so_far: BrowseView) -> Result<
    BrowseView,
    StopView,
>
    decreases args.len(),
{
    if args.len() == 0 {
        Ok(so_far)
    } else if args[0] == "-h"@ || args[0] == "--help"@ {
        Err(StopView::Help)
    } else if args[0] == "--version"@ {
        Err(StopView::Version)
    } else if args[0] == "--server"@ {
        if args.len() < 2 {
            Err(StopView::Usage)
        } else {
            browse_args(args.skip(2), BrowseView { server: args[1], ..so_far })
        }
    } else if args[0] == "--pin"@ {
        if args.len() < 2 {
            Err(StopView::Usage)
        } else {
            browse_args(args.skip(2), BrowseView { pin: Some(args[1]), ..so_far })
        }
    } else if args[0] == "browse"@ {
        browse_args(args.skip(1), so_far)
    } else if is_option(args[0]) {
        Err(StopView::Unknown(args[0]))
    } else {
        browse_args(args.skip(1), BrowseView { target: Some(args[0]), ..so_far })
    }
}

/// What is there without any argument.
pub open spec fn browse_defaults() -> BrowseView {
    BrowseView { server: DEFAULT_SERVER@, target: None, pin: None }
}

/// Reads the command line: server, target and pin.
pub fn parse_args(args: &Vec<String>) -> (out: Result<
    (String, Option<String>, Option<String>),
    Stop,
>)
    ensures
        match out {
            Ok(a) => browse_args(texts(args@), browse_defaults()) == Ok::<BrowseView, StopView>(
                BrowseView { server: a.0@, target: opt_text(a.1), pin: opt_text(a.2) },
            ),
            Err(e) => browse_args(texts(args@), browse_defaults()) == Err::<BrowseView, StopView>(
                e@,
            ),
        },
{
    let ghost all = texts(args@);
    let mut server = DEFAULT_SERVER.to_owned();
    let mut target: Option<String> = None;
    let mut pin: Option<String> = None;
    let mut i: usize = 0;
    assert(all.skip(0) =~= all);
    while i < args.len()
        invariant
            i <= args@.len(),
            all == texts(args@),
            browse_args(all, browse_defaults()) == browse_args(
                all.skip(i as int),
                BrowseView { server: server@, target: opt_text(target), pin: opt_text(pin) },
            ),
        decreases args@.len() - i,
    {
        let a = args[i].as_str();
        proof {
            assert(all.skip(i as int)[0] == a@);
            assert(all.skip(i as int).skip(1) =~= all.skip(i + 1));
            if i + 1 < all.len() {
                assert(all.skip(i as int)[1] == args@[i + 1]@);
                assert(all.skip(i as int).skip(2) =~= all.skip(i + 2));
            }
        }
        let more = args.len() - i > 1;
        if asks_for_help(a) {
            return Err(Stop::Help);
        } else if same_text(a, "--version") {
            return Err(Stop::Version);
        } else if same_text(a, "--server") {
            if !more {
                return Err(Stop::Usage);
            }
            server = args[i + 1].clone();
            i = i + 2;
        } else if same_text(a, "--pin") {
            if !more {
                return Err(Stop::Usage);
            }
            pin = Some(args[i + 1].clone());
            i = i + 2;
        } else if same_text(a, "browse") {
            i = i + 1;
        } else if looks_like_option(a) {
            return Err(Stop::Unknown(a.to_owned()));
        } else {
            target = Some(a.to_owned());
            i = i + 1;
        }
    }
    Ok((server, target, pin))
}

/// The arguments of `sync`.
#[derive(Debug, Clone, PartialEq, Eq)]
pub struct SyncArgs {
    pub server: String,
    pub site: String,
    pub dir: String,
    pub pin: Option<String>,
}

/// The arguments of `sync`, as far as they were read.
pub struct SyncView {
    pub server: Option<Seq<char>>,
    pub site: Option<Seq<char>>,
    pub dir: Option<Seq<char>>,
    pub pin: Option<Seq<char>>,
}

/// What the arguments say, with what was read before them; server, site and
/// directory have to be there.
pub open spec fn sync_args(args: Seq<Seq<char>>, so_far: SyncView) -> Result<SyncView, StopView>
    decreases args.len(),
{
    if args.len() == 0 {
        if so_far.server is Some && so_far.site is Some && so_far.dir is Some {
            Ok(so_far)
        } else {
            Err(StopView::Usage)
        }
    } else if args[0] == "sync"@ {
        sync_args(args.skip(1), so_far)
    } else if args[0] == "--server"@ || args[0] == "--site"@ || args[0] == "--dir"@ || args[0]
        == "--pin"@ {
        if args.len() < 2 {
            Err(StopView::Usage)
        } else if args[0] == "--server"@ {
            sync_args(args.skip(2), SyncView { server: Some(args[1]), ..so_far })
        } else if args[0] == "--site"@ {
            sync_args(args.skip(2), SyncView { site: Some(args[1]), ..so_far })
        } else if args[0] == "--dir"@ {
            sync_args(args.skip(2), SyncView { dir: Some(args[1]), ..so_far })
        } else {
            sync_args(args.skip(2), SyncView { pin: Some(args[1]), ..so_far })
        }
    } else if is_option(args[0]) {
        Err(StopView::Unknown(args[0]))
    } else {
        Err(StopView::Unexpected(args[0]))
    }
}

/// What is there without any argument.
pub open spec fn sync_defaults() -> SyncView {
    SyncView { server: None, site: None, dir: None, pin: None }
}

/// Reads the command line of `sync`.
pub fn parse_sync_args(args: &Vec<String>) -> (out: Result<SyncArgs, Stop>)
    ensures
        match out {
            Ok(a) => sync_args(texts(args@), sync_defaults()) == Ok::<SyncView, StopView>(
                SyncView {
                    server: Some(a.server@),
                    site: Some(a.site@),
                    dir: Some(a.dir@),
                    pin: opt_text(a.pin),
                },
            ),
            Err(e) => sync_args(texts(args@), sync_defaults()) == Err::<SyncView, StopView>(e@),
        },
{
    let ghost all = texts(args@);
    let mut server: Option<String> = None;
    let mut site: Option<String> = None;
    let mut dir: Option<String> = None;
    let mut pin: Option<String> = None;
    let mut i: usize = 0;
    assert(all.skip(0) =~= all);
    while i < args.len()
        invariant
            i <= args@.len(),
            all == texts(args@),
            sync_args(all, sync_defaults()) == sync_args(
                all.skip(i as int),
                SyncView {
                    server: opt_text(server),
                    site: opt_text(site),
                    dir: opt_text(dir),
                    pin: opt_text(pin),
                },
            ),
        decreases args@.len() - i,
    {
        let a = args[i].as_str();
        proof {
            assert(all.skip(i as int)[0] == a@);
            assert(all.skip(i as int).skip(1) =~= all.skip(i + 1));
            if i + 1 < all.len() {
                assert(all.skip(i as int)[1] == args@[i + 1]@);
                assert(all.skip(i as int).skip(2) =~= all.skip(i + 2));
            }
        }
        if same_text(a, "sync") {
            i = i + 1;
        } else if same_text(a, "--server") || same_text(a, "--site") || same_text(a, "--dir")
            || same_text(a, "--pin") {
            if args.len() - i < 2 {
                return Err(Stop::Usage);
            }
            let value = args[i + 1].clone();
            if same_text(a, "--server") {
                server = Some(value);
            } else if same_text(a, "--site") {
                site = Some(value);
            } else if same_text(a, "--dir") {
                dir = Some(value);
            } else {
                pin = Some(value);
            }
            i = i + 2;
        } else if looks_like_option(a) {
            return Err(Stop::Unknown(a.to_owned()));
        } else {
            return Err(Stop::Unexpected(a.to_owned()));
        }
    }
    match (server, site, dir) {
        (Some(server), Some(site), Some(dir)) => Ok(SyncArgs { server, site, dir, pin }),
        _ => Err(Stop::Usage),
    }
}

/// What the arguments of `cache-gc` say: the directory, where one is named.
pub open spec fn gc_args(args: Seq<Seq<char>>, so_far: Option<Seq<char>>) -> Result<
    Option<Seq<char>>,
    StopView,
>
    decreases args.len(),
{
    if args.len() == 0 {
        Ok(so_far)
    } else if args[0] == "cache-gc"@ {
        gc_args(args.skip(1), so_far)
    } else if args[0] == "--dir"@ {
        if args.len() < 2 {
            Err(StopView::Usage)
        } else {
            gc_args(args.skip(2), Some(args[1]))
        }
    } else if is_option(args[0]) {
        Err(StopView::Unknown(args[0]))
    } else {
        Err(StopView::Unexpected(args[0]))
    }
}

/// Reads the command line of `cache-gc`.
pub fn parse_gc_args(args: &Vec<String>) -> (out: Result<Option<String>, Stop>)
    ensures
        match out {
            Ok(dir) => gc_args(texts(args@), None) == Ok::<Option<Seq<char>>, StopView>(
                opt_text(dir),
            ),
            Err(e) => gc_args(texts(args@), None) == Err::<Option<Seq<char>>, StopView>(e@),
        },
{
    let ghost all = texts(args@);
    let mut dir: Option<String> = None;
    let mut i: usize = 0;
    assert(all.skip(0) =~= all);
    while i < args.len()
        invariant
            i <= args@.len(),
            all == texts(args@),
            gc_args(all, None) == gc_args(all.skip(i as int), opt_text(dir)),
        decreases args@.len() - i,
    {
        let a = args[i].as_str();
        proof {
            assert(all.skip(i as int)[0] == a@);
            assert(all.skip(i as int).skip(1) =~= all.skip(i + 1));
            if i + 1 < all.len() {
                assert(all.skip(i as int)[1] == args@[i + 1]@);
                assert(all.skip(i as int).skip(2) =~= all.skip(i + 2));
            }
        }
        if same_text(a, "cache-gc") {
            i = i + 1;
        } else if same_text(a, "--dir") {
            if args.len() - i < 2 {
                return Err(Stop::Usage);
            }
            dir = Some(args[i + 1].clone());
            i = i + 2;
        } else if looks_like_option(a) {
            return Err(Stop::Unknown(a.to_owned()));
        } else {
            return Err(Stop::Unexpected(a.to_owned()));
        }
    }
    Ok(dir)
}

/// The line above a page: its place among the visits.
pub open spec fn heading(h: HistoryView) -> Seq<char> {
    match h.present {
        Some(v) => "["@ + dec_chars(h.past.len() + 1) + " of "@ + dec_chars(all_visits(h).len())
            + "] @"@ + v.site + " /"@ + v.path + "\n"@,
        None => Seq::empty(),
    }
}

/// The line above a page; nothing without a page.
pub fn page_heading(h: &History) -> (out: String)
    requires
        all_visits(h@).len() <= usize::MAX,
    ensures
        out@ == heading(h@),
{
    match h.current() {
        Some(v) => "[".to_owned().concat(decimal(h.position() as u64 + 1).as_str()).concat(
            " of ",
        ).concat(decimal(h.len() as u64).as_str()).concat("] @").concat(v.site.as_str()).concat(
            " /",
        ).concat(v.path.as_str()).concat("\n"),
        None => String::new(),
    }
}

/// The line of a visit in the list of all; the present one is marked.
pub open spec fn visit_line(h: HistoryView, i: int) -> Seq<char> {
    let v = all_visits(h)[i];
    (if i == h.past.len() {
        "=>"@
    } else {
        "  "@
    }) + " "@ + dec_chars((i + 1) as nat) + ". @"@ + v.site + " /"@ + v.path + "   "@ + v.page.title
}

/// The list of all visits, oldest first.
pub fn history_lines(h: &History) -> (out: Vec<String>)
    ensures
        out@.len() == all_visits(h@).len(),
        forall|i: int| 0 <= i < out@.len() ==> (#[trigger] out@[i])@ == visit_line(h@, i),
{
    let visits = h.entries();
    let pos = h.position();
    let mut out: Vec<String> = Vec::new();
    let mut i: usize = 0;
    while i < visits.len()
        invariant
            i <= visits@.len(),
            visits@.len() == all_visits(h@).len(),
            pos == h@.past.len(),
            forall|j: int|
                0 <= j < visits@.len() ==> (#[trigger] visits@[j])@ == all_visits(h@)[j],
            out@.len() == i,
            forall|j: int| 0 <= j < i ==> (#[trigger] out@[j])@ == visit_line(h@, j),
        decreases visits@.len() - i,
    {
        let v = visits[i];
        let marker = if i == pos {
            "=>"
        } else {
            "  "
        };
        out.push(
            marker.to_owned().concat(" ").concat(decimal(i as u64 + 1).as_str()).concat(
                ". @",
            ).concat(v.site.as_str()).concat(" /").concat(v.path.as_str()).concat("   ").concat(
                v.page.metadata.title.as_str(),
            ),
        );
        i = i + 1;
    }
    out
}

/// What a line at the prompt asks for: the first word decides, in its short or
/// its long form, whatever white space is around the line; a line that starts
/// with no command is a target as a whole.
pub proof fn law_commands(line: Seq<char>)
    ensures
        ({
            let l = trim(line);
            let word = head(l, ' ');
            let c = command_of(line);
            &&& c is Back <==> word == "b"@ || word == "back"@
            &&& c is Forward <==> word == "f"@ || word == "forward"@
            &&& c is History <==> word == "h"@ || word == "history"@
            &&& c is Reload <==> word == "r"@ || word == "reload"@
            &&& c is Quit <==> word == "q"@ || word == "quit"@ || word == "exit"@
            &&& c is Help <==> word == "?"@ || word == "help"@
            &&& c is Noop <==> word.len() == 0
            &&& c matches CommandView::Open(t) ==> t == if word == "g"@ || word == "goto"@ {
                trim(tail(l, ' '))
            } else {
                l
            }
            &&& command_of(l) == c
        }),
{
    reveal_strlit("b");
    reveal_strlit("back");
    reveal_strlit("f");
    reveal_strlit("forward");
    reveal_strlit("h");
    reveal_strlit("history");
    reveal_strlit("g");
    reveal_strlit("goto");
    reveal_strlit("r");
    reveal_strlit("reload");
    reveal_strlit("q");
    reveal_strlit("quit");
    reveal_strlit("exit");
    reveal_strlit("?");
    reveal_strlit("help");
    assert("b"@[0] == 'b' && "back"@[0] == 'b' && "f"@[0] == 'f' && "forward"@[0] == 'f');
    assert("h"@[0] == 'h' && "history"@[0] == 'h' && "help"@[0] == 'h' && "help"@[1] == 'e');
    assert("history"@[1] == 'i' && "g"@[0] == 'g' && "goto"@[0] == 'g' && "r"@[0] == 'r');
    assert("reload"@[0] == 'r' && "q"@[0] == 'q' && "quit"@[0] == 'q' && "exit"@[0] == 'e');
    assert("?"@[0] == '?');
    assert("h"@.len() == 1 && "help"@.len() == 4 && "history"@.len() == 7);
    assert("b"@.len() == 1 && "f"@.len() == 1 && "g"@.len() == 1 && "r"@.len() == 1);
    assert("back"@.len() == 4 && "forward"@.len() == 7 && "goto"@.len() == 4);
    assert("reload"@.len() == 6 && "q"@.len() == 1 && "quit"@.len() == 4 && "exit"@.len() == 4);
    assert("?"@.len() == 1);
    lemma_trim_twice(line);
}

proof fn lemma_trim_twice(s: Seq<char>)
    ensures
        trim(trim(s)) == trim(s),
{
    let a = crate::text::trim_start(s);
    lemma_trimmed_start(s);
    lemma_trimmed_end(a);
    let t = trim(s);
    if t.len() > 0 {
        assert(t[0] == a[0]);
    }
}

proof fn lemma_trimmed_start(s: Seq<char>)
    ensures
        crate::text::trim_start(s).len() > 0 ==> !crate::text::is_white(
            crate::text::trim_start(s)[0],
        ),
    decreases s.len(),
{
    if s.len() > 0 && crate::text::is_white(s[0]) {
        lemma_trimmed_start(s.skip(1));
    }
}

proof fn lemma_trimmed_end(s: Seq<char>)
    ensures
        ({
            let t = crate::text::trim_end(s);
            &&& t.len() <= s.len()
            &&& t == s.take(t.len() as int)
            &&& t.len() > 0 ==> !crate::text::is_white(t.last())
        }),
    decreases s.len(),
{
    if s.len() > 0 && crate::text::is_white(s.last()) {
        lemma_trimmed_end(s.drop_last());
        let t = crate::text::trim_end(s);
        assert(s.drop_last().take(t.len() as int) =~= s.take(t.len() as int));
    } else {
        assert(s.take(s.len() as int) =~= s);
    }
}

/// Options are read one by one, each sets what it names and nothing else, and
/// the last of several counts; what is no option is the target.
pub proof fn law_browse_options(
    value: Seq<char>,
    rest: Seq<Seq<char>>,
    so_far: BrowseView,
)
    ensures
        browse_args(seq!["--server"@, value] + rest, so_far) == browse_args(
            rest,
            BrowseView { server: value, target: so_far.target, pin: so_far.pin },
        ),
        browse_args(seq!["--pin"@, value] + rest, so_far) == browse_args(
            rest,
            BrowseView { server: so_far.server, target: so_far.target, pin: Some(value) },
        ),
        browse_args(seq!["browse"@] + rest, so_far) == browse_args(rest, so_far),
        value.len() > 0 && value[0] != '-' && value != "browse"@ ==> browse_args(
            seq![value] + rest,
            so_far,
        ) == browse_args(
            rest,
            BrowseView { server: so_far.server, target: Some(value), pin: so_far.pin },
        ),
        browse_args(Seq::empty(), so_far) == Ok::<BrowseView, StopView>(so_far),
        browse_args(seq!["--help"@] + rest, so_far) == Err::<BrowseView, StopView>(StopView::Help),
        browse_args(seq!["--version"@] + rest, so_far) == Err::<BrowseView, StopView>(
            StopView::Version,
        ),
        browse_args(seq!["--server"@], so_far) == Err::<BrowseView, StopView>(StopView::Usage),
        browse_args(seq!["--pin"@], so_far) == Err::<BrowseView, StopView>(StopView::Usage),
        browse_defaults() == (BrowseView { server: "127.0.0.1:7843"@, target: None, pin: None }),
{
    lemma_option_names();
    lemma_skips("--server"@, value, rest);
    lemma_skips("--pin"@, value, rest);
    lemma_skips("browse"@, value, rest);
    lemma_skips(value, value, rest);
    lemma_skips("--help"@, value, rest);
    lemma_skips("--version"@, value, rest);
}

proof fn lemma_skips(a: Seq<char>, b: Seq<char>, rest: Seq<Seq<char>>)
    ensures
        (seq![a, b] + rest)[0] == a,
        (seq![a, b] + rest)[1] == b,
        (seq![a, b] + rest).skip(2) == rest,
        (seq![a] + rest)[0] == a,
        (seq![a] + rest).skip(1) == rest,
{
    assert((seq![a, b] + rest).skip(2) =~= rest);
    assert((seq![a] + rest).skip(1) =~= rest);
}

/// The names of options differ.
proof fn lemma_option_names()
    ensures
        "--server"@.len() == 8 && "--server"@[0] == '-' && "--server"@[2] == 's',
        "--server"@[3] == 'e',
        "--site"@.len() == 6 && "--site"@[0] == '-' && "--site"@[2] == 's' && "--site"@[3] == 'i',
        "--dir"@.len() == 5 && "--dir"@[0] == '-' && "--dir"@[2] == 'd',
        "--pin"@.len() == 5 && "--pin"@[0] == '-' && "--pin"@[2] == 'p',
        "--help"@.len() == 6 && "--help"@[0] == '-' && "--help"@[2] == 'h',
        "-h"@.len() == 2 && "-h"@[0] == '-',
        "--version"@.len() == 9 && "--version"@[0] == '-' && "--version"@[2] == 'v',
        "browse"@.len() == 6 && "browse"@[0] == 'b',
        "sync"@.len() == 4 && "sync"@[0] == 's',
        "cache-gc"@.len() == 8 && "cache-gc"@[0] == 'c',
{
    reveal_strlit("--server");
    reveal_strlit("--site");
    reveal_strlit("--dir");
    reveal_strlit("--pin");
    reveal_strlit("--help");
    reveal_strlit("-h");
    reveal_strlit("--version");
    reveal_strlit("browse");
    reveal_strlit("sync");
    reveal_strlit("cache-gc");
}

/// A sync needs a server, a site and a directory, each as its own option says,
/// the last of several; a pin may be given. Anything else stops it.
pub proof fn law_sync_options(value: Seq<char>, rest: Seq<Seq<char>>, so_far: SyncView)
    ensures
        sync_args(seq!["--server"@, value] + rest, so_far) == sync_args(
            rest,
            SyncView {
                server: Some(value),
                site: so_far.site,
                dir: so_far.dir,
                pin: so_far.pin,
            },
        ),
        sync_args(seq!["--site"@, value] + rest, so_far) == sync_args(
            rest,
            SyncView {
                server: so_far.server,
                site: Some(value),
                dir: so_far.dir,
                pin: so_far.pin,
            },
        ),
        sync_args(seq!["--dir"@, value] + rest, so_far) == sync_args(
            rest,
            SyncView {
                server: so_far.server,
                site: so_far.site,
                dir: Some(value),
                pin: so_far.pin,
            },
        ),
        sync_args(seq!["--pin"@, value] + rest, so_far) == sync_args(
            rest,
            SyncView {
                server: so_far.server,
                site: so_far.site,
                dir: so_far.dir,
                pin: Some(value),
            },
        ),
        sync_args(seq!["sync"@] + rest, so_far) == sync_args(rest, so_far),
        sync_args(Seq::empty(), so_far) == if so_far.server is Some && so_far.site is Some
            && so_far.dir is Some {
            Ok::<SyncView, StopView>(so_far)
        } else {
            Err(StopView::Usage)
        },
        value.len() > 0 && value[0] != '-' && value != "sync"@ ==> sync_args(
            seq![value] + rest,
            so_far,
        ) == Err::<SyncView, StopView>(StopView::Unexpected(value)),
        sync_defaults() == (SyncView { server: None, site: None, dir: None, pin: None }),
{
    lemma_option_names();
    lemma_skips("--server"@, value, rest);
    lemma_skips("--site"@, value, rest);
    lemma_skips("--dir"@, value, rest);
    lemma_skips("--pin"@, value, rest);
    lemma_skips("sync"@, value, rest);
    lemma_skips(value, value, rest);
}

/// A collection takes a directory, the last of several, and nothing else.
pub proof fn law_gc_options(
    value: Seq<char>,
    rest: Seq<Seq<char>>,
    so_far: Option<Seq<char>>,
)
    ensures
        gc_args(seq!["--dir"@, value] + rest, so_far) == gc_args(rest, Some(value)),
        gc_args(seq!["cache-gc"@] + rest, so_far) == gc_args(rest, so_far),
        gc_args(Seq::empty(), so_far) == Ok::<Option<Seq<char>>, StopView>(so_far),
        gc_args(seq!["--dir"@], so_far) == Err::<Option<Seq<char>>, StopView>(StopView::Usage),
        value.len() > 0 && value[0] != '-' && value != "cache-gc"@ ==> gc_args(
            seq![value] + rest,
            so_far,
        ) == Err::<Option<Seq<char>>, StopView>(StopView::Unexpected(value)),
{
    lemma_option_names();
    lemma_skips("--dir"@, value, rest);
    lemma_skips("cache-gc"@, value, rest);
    lemma_skips(value, value, rest);
}

/// A line of the history tells the place of its visit, its own number, counted
/// from one, and is marked exactly where the visit is the present one.
pub proof fn law_history_lines(h: HistoryView, i: int)
    requires
        h.present is Some,
        0 <= i < all_visits(h).len(),
    ensures
        ({
            let v = all_visits(h)[i];
            let rest = " "@ + dec_chars((i + 1) as nat) + ". @"@ + v.site + " /"@ + v.path + "   "@
                + v.page.title;
            visit_line(h, i) == if i == h.past.len() {
                "=>"@ + rest
            } else {
                "  "@ + rest
            }
        }),
        heading(h) == "["@ + dec_chars(h.past.len() + 1) + " of "@ + dec_chars(all_visits(h).len())
            + "] @"@ + h.present->0.site + " /"@ + h.present->0.path + "\n"@,
        all_visits(h)[h.past.len() as int] == h.present->0,
{
    let v = all_visits(h)[i];
    let rest = " "@ + dec_chars((i + 1) as nat) + ". @"@ + v.site + " /"@ + v.path + "   "@
        + v.page.title;
    let mark = if i == h.past.len() {
        "=>"@
    } else {
        "  "@
    };
    assert(visit_line(h, i) =~= mark + rest);
}

/// An option that a command does not have is refused by its name, wherever it
/// stands, and so is an option whose value is missing.
pub proof fn law_unknown_options_are_refused(
    option: Seq<char>,
    rest: Seq<Seq<char>>,
    browse: BrowseView,
    sync: SyncView,
    dir: Option<Seq<char>>,
)
    requires
        option.len() > 0,
        option[0] == '-',
    ensures
        option != "-h"@ && option != "--help"@ && option != "--version"@ && option != "--server"@
            && option != "--pin"@ ==> browse_args(seq![option] + rest, browse) == Err::<
            BrowseView,
            StopView,
        >(StopView::Unknown(option)),
        option != "--server"@ && option != "--site"@ && option != "--dir"@ && option != "--pin"@
            ==> sync_args(seq![option] + rest, sync) == Err::<SyncView, StopView>(
            StopView::Unknown(option),
        ),
        option != "--dir"@ ==> gc_args(seq![option] + rest, dir) == Err::<
            Option<Seq<char>>,
            StopView,
        >(StopView::Unknown(option)),
        browse_args(seq!["-h"@] + rest, browse) == Err::<BrowseView, StopView>(StopView::Help),
        sync_args(seq!["--server"@], sync) == Err::<SyncView, StopView>(StopView::Usage),
        sync_args(seq!["--site"@], sync) == Err::<SyncView, StopView>(StopView::Usage),
        sync_args(seq!["--dir"@], sync) == Err::<SyncView, StopView>(StopView::Usage),
        sync_args(seq!["--pin"@], sync) == Err::<SyncView, StopView>(StopView::Usage),
{
    reveal_strlit("browse");
    reveal_strlit("sync");
    reveal_strlit("cache-gc");
    reveal_strlit("-h");
    reveal_strlit("--server");
    reveal_strlit("--site");
    reveal_strlit("--dir");
    reveal_strlit("--pin");
    let args = seq![option] + rest;
    assert(args[0] == option);
    assert((seq!["-h"@] + rest)[0] == "-h"@);
    assert("browse"@[0] != '-');
    assert("sync"@[0] != '-');
    assert("cache-gc"@[0] != '-');
    assert("--server"@[0] == '-' && "--site"@[0] == '-' && "--dir"@[0] == '-' && "--pin"@[0]
        == '-');
    assert(seq!["--server"@].len() == 1 && seq!["--server"@][0] == "--server"@);
    assert(seq!["--site"@].len() == 1 && seq!["--site"@][0] == "--site"@);
    assert(seq!["--dir"@].len() == 1 && seq!["--dir"@][0] == "--dir"@);
    assert(seq!["--pin"@].len() == 1 && seq!["--pin"@][0] == "--pin"@);
}

/// Without a page there is no heading.
pub proof fn law_no_page_no_heading(h: HistoryView)
    requires
        h.present is None,
    ensures
        heading(h) == Seq::<char>::empty(),
{
}

} // verus!
