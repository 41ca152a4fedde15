//! The full-screen browser, the command lines, and the prompt.

use nexus::browser::cache::CacheStatus;
use nexus::browser::history::{History, Visit};
use nexus::browser::tui::{HistoryVisit, Key, KeyAction, TuiState, HISTORY_MAX_ENTRIES};
use nexus::browser::BrowserError;
use nexus::cli::nexus::{
    history_lines, page_heading, parse_args, parse_command, parse_gc_args, parse_sync_args,
    Command,
};
use nexus::cli::origin::parse_args as server_args;
use nexus::cli::page::parse_args as page_args;
use nexus::cli::tui::parse_args as tui_args;
use nexus::cli::{Stop, DEFAULT_SERVER};
use nexus::content::{Component, Metadata, Page};
use nexus::transport::TransportError;


#[test]
fn parses_nav_commands() {
    assert_eq!(parse_command("b"), Command::Back);
    assert_eq!(parse_command("back"), Command::Back);
    assert_eq!(parse_command("f"), Command::Forward);
    assert_eq!(parse_command("h"), Command::History);
    assert_eq!(parse_command("r"), Command::Reload);
    assert_eq!(parse_command("q"), Command::Quit);
    assert_eq!(parse_command("exit"), Command::Quit);
    assert_eq!(parse_command("?"), Command::Help);
    assert_eq!(parse_command(""), Command::Noop);
}

#[test]
fn parses_goto_and_bare_targets() {
    assert_eq!(
        parse_command("g example/about"),
        Command::Open("example/about".into())
    );
    assert_eq!(
        parse_command("goto   example  "),
        Command::Open("example".into())
    );
    assert_eq!(
        parse_command("example/blog/1"),
        Command::Open("example/blog/1".into())
    );
}

#[test]
fn parses_cli_args() {
    assert_eq!(
        parse_args(&vec![
            "browse".into(),
            "example/home".into(),
            "--server".into(),
            "127.0.0.1:9".into()
        ])
        .unwrap(),
        (
            "127.0.0.1:9".to_string(),
            Some("example/home".to_string()),
            None
        )
    );
    assert_eq!(
        parse_args(&vec!["example".into()]).unwrap(),
        (
            DEFAULT_SERVER.to_string(),
            Some("example".to_string()),
            None
        )
    );
    assert_eq!(
        parse_args(&vec![
            "browse".into(),
            "example".into(),
            "--pin".into(),
            "abc123".into()
        ])
        .unwrap(),
        (
            DEFAULT_SERVER.to_string(),
            Some("example".to_string()),
            Some("abc123".to_string())
        )
    );
    assert_eq!(parse_args(&vec!["--nope".into()]).map_err(|e| e.code()), Err(2));
    assert_eq!(parse_args(&vec!["--help".into()]).map_err(|e| e.code()), Err(0));
    assert_eq!(parse_args(&vec!["browse".into(), "--pin".into()]).map_err(|e| e.code()), Err(2));
}

#[test]
fn parses_sync_args() {
    let a = parse_sync_args(&vec![
        "sync".into(),
        "--server".into(),
        "10.0.0.1:1".into(),
        "--site".into(),
        "example".into(),
        "--dir".into(),
        "/tmp/x".into(),
    ])
    .unwrap();
    assert_eq!(a.server, "10.0.0.1:1");
    assert_eq!(a.site, "example");
    assert_eq!(a.pin, None);
    let a = parse_sync_args(&vec![
        "sync".into(),
        "--server".into(),
        "10.0.0.1:1".into(),
        "--site".into(),
        "example".into(),
        "--dir".into(),
        "/tmp/x".into(),
        "--pin".into(),
        "abc".into(),
    ])
    .unwrap();
    assert_eq!(a.pin, Some("abc".to_string()));
    assert_eq!(parse_sync_args(&vec!["sync".into(), "--site".into(), "e".into()]).map_err(|e| e.code()), Err(2));
    assert_eq!(parse_sync_args(&vec!["sync".into(), "--bogus".into()]).map_err(|e| e.code()), Err(2));
}


#[test]
fn parses_tui_args() {
    let a = tui_args(&vec!["example/home".into()]).unwrap();
    assert_eq!(a.server, DEFAULT_SERVER);
    assert_eq!(a.target, Some("example/home".into()));
    assert_eq!(a.pin, None);
    let a = tui_args(&vec![
        "--server".into(),
        "10.0.0.1:1".into(),
        "--pin".into(),
        "abc".into(),
        "example".into(),
    ])
    .unwrap();
    assert_eq!(
        (a.server, a.pin, a.target),
        (
            "10.0.0.1:1".into(),
            Some("abc".into()),
            Some("example".into())
        )
    );
    assert_eq!(tui_args(&vec!["--nope".into()]).map_err(|e| e.code()), Err(2));
    assert_eq!(tui_args(&vec!["--server".into()]).map_err(|e| e.code()), Err(2));
}


fn visit(site: &str, path: &str, filler_lines: usize) -> Visit {
    // Long lines: the wrapping renderer keeps each on its own rows.
    let mut text = String::from(
        "line0-pad-to-make-this-row-long-enough-to-wrap-around-eighty-columns-0123456789",
    );
    for i in 1..=filler_lines {
        text.push_str(&format!("\nline{i}-pad-to-make-this-row-long-enough-to-wrap-around-eighty-columns-0123456789"));
    }
    Visit {
        site: site.into(),
        path: path.into(),
        page: Page {
            metadata: Metadata {
                schema: 1,
                site: site.into(),
                path: path.into(),
                title: "T".into(),
                revision: 1,
            },
            components: vec![Component::Text { text }],
            capabilities: vec![],
        },
    }
}

fn wordy_visit() -> Visit {
    // Matchable lines first (so scroll jumps are observable: the page
    // is taller than the find viewport of 24), filler after.
    let mut components = vec![
        Component::Text {
            text: "apple pie".into(),
        },
        Component::Text {
            text: "cherry tart".into(),
        },
        Component::Text {
            text: "green APPLE crumble".into(),
        },
    ];
    for i in 0..40 {
        components.push(Component::Text {
            text: format!("filler line {i} with enough words to be a row"),
        });
    }
    Visit {
        site: "example".into(),
        path: "home".into(),
        page: Page {
            metadata: Metadata {
                schema: 1,
                site: "example".into(),
                path: "home".into(),
                title: "T".into(),
                revision: 1,
            },
            components,
            capabilities: vec![],
        },
    }
}

fn loaded(lines: usize) -> TuiState {
    let mut s = TuiState::new("127.0.0.1:9", None);
    s.session.history.push(visit("example", "home", lines));
    // A query that is given up leaves where the session is in the status.
    s.enter_find();
    s.handle_key(Key::Esc);
    assert_eq!(s.status(), s.where_am_i());
    s
}

#[test]
fn input_commands_need_empty_line() {
    let mut s = loaded(0);
    // Non-empty line: keys append as text, never navigate.
    s.handle_key(Key::Char('x'));
    assert_eq!(s.handle_key(Key::Char('b')), KeyAction::Continue);
    assert_eq!(s.input(), "xb");
    // Backspace and Esc edit the line.
    assert_eq!(s.handle_key(Key::Backspace), KeyAction::Continue);
    assert_eq!(s.input(), "x");
    assert_eq!(s.handle_key(Key::Esc), KeyAction::Continue);
    assert_eq!(s.input(), "");
    // Empty line: q quits; b tries history nav (single entry: fails
    // into status, but must not touch the input line).
    assert_eq!(s.handle_key(Key::Char('b')), KeyAction::Continue);
    assert_eq!(s.input(), "");
    assert!(s.status().contains("start of history"));
    assert_eq!(s.handle_key(Key::Char('q')), KeyAction::Quit);
}

#[test]
fn scroll_clamps_both_ends() {
    let mut s = loaded(50);
    let total = s.page_lines().len();
    assert!(total > 10);
    s.scroll_by(10_000, 10);
    let (start, end) = s.visible_range(10);
    assert_eq!(end - start, 10);
    assert_eq!(end, total);
    s.scroll_by(-10_000, 10);
    assert_eq!(s.visible_range(10).0, 0);
    // Viewport taller than content: everything visible, no panic.
    let (start, end) = s.visible_range(total + 100);
    assert_eq!((start, end), (0, total));
}

#[test]
fn where_am_i_reports_location() {
    let s = loaded(0);
    assert!(s.where_am_i().contains("@example /home"));
    let fresh = TuiState::new("127.0.0.1:9", None);
    assert_eq!(fresh.where_am_i(), "(no page loaded)");
    assert!(!fresh.is_pinned());
    let pinned = TuiState::new("127.0.0.1:9", Some("abc".into()));
    assert!(pinned.is_pinned());
}

#[test]
fn failed_open_keeps_current_page() {
    let mut s = loaded(0);
    // Nothing listens, so open fails and the page stays.
    let refused = TransportError::Io("connection refused".into());
    s.open("example/home", Err(BrowserError::Transport(refused)));
    assert!(s.status().starts_with("offline:"));
    assert!(s.where_am_i().contains("@example /home"));
}

#[test]
fn find_first_match_jumps_and_n_cycles() {
    let mut s = TuiState::new("127.0.0.1:9", None);
    s.session.history.push(wordy_visit());
    // `/` + query via keys: live match, scroll jumps to first hit.
    assert_eq!(s.handle_key(Key::Char('/')), KeyAction::Continue);
    assert!(s.is_finding());
    for c in "APPLE".chars() {
        s.handle_key(Key::Char(c));
    }
    assert_eq!(s.find_query(), "APPLE");
    assert_eq!(s.find_matches().len(), 2); // case-insensitive
    assert_eq!(
        Some(s.scroll()),
        s.current_match_line(),
        "first match is scrolled to"
    );
    assert!(s.status().contains("1/2"));
    // Enter commits; n cycles to second match, then wraps to first.
    s.handle_key(Key::Enter);
    assert!(!s.is_finding());
    let first = s.current_match_line().unwrap();
    s.handle_key(Key::Char('n'));
    let second = s.current_match_line().unwrap();
    assert_ne!(first, second);
    assert!(s.status().contains("2/2"));
    s.handle_key(Key::Char('n'));
    assert_eq!(s.current_match_line(), Some(first));
    // Navigating clears the find state.
    s.session.history.push(visit("example", "about", 0));
    s.back();
    assert!(s.find_matches().is_empty());
    assert!(s.find_query().is_empty());
}

#[test]
fn find_no_match_and_esc_cancels() {
    let mut s = TuiState::new("127.0.0.1:9", None);
    s.session.history.push(wordy_visit());
    s.handle_key(Key::Char('/'));
    for c in "zzz-nope".chars() {
        s.handle_key(Key::Char(c));
    }
    assert!(s.find_matches().is_empty());
    assert!(s.status().contains("no matches"));
    assert_eq!(s.current_match_line(), None);
    s.handle_key(Key::Esc); // cancel: query cleared, status restored
    assert!(!s.is_finding());
    assert!(s.find_query().is_empty());
    assert!(s.where_am_i() == s.status());
}

#[test]
fn help_overlay_toggles_and_esc_closes() {
    let mut s = loaded(0);
    assert!(!s.help_visible());
    s.handle_key(Key::Char('?'));
    assert!(s.help_visible());
    assert!(!TuiState::help_lines().is_empty());
    s.handle_key(Key::Char('?'));
    assert!(!s.help_visible());
    // Empty-line Esc closes the overlay; with typed text Esc edits.
    s.handle_key(Key::Char('?'));
    s.handle_key(Key::Esc);
    assert!(!s.help_visible());
    s.handle_key(Key::Char('x'));
    s.handle_key(Key::Char('?')); // non-empty line: literal text
    assert_eq!(s.input(), "x?");
}

#[test]
fn history_persistence_roundtrip_and_cap() {
    let mut s = TuiState::new("127.0.0.1:9", None);
    s.record_visit("example", "home");
    s.record_visit("example", "home"); // consecutive dup collapses
    s.record_visit("example", "about");
    assert_eq!(s.visited().len(), 2);
    let mut r = TuiState::new("127.0.0.1:9", None);
    r.load_visits(Some(s.visited().to_vec()));
    assert_eq!(r.visited(), s.visited());
    // Over-long logs keep the newest 100.
    let mut big = TuiState::new("127.0.0.1:9", None);
    for i in 0..(HISTORY_MAX_ENTRIES + 50) {
        big.record_visit("example", &format!("p{i}"));
    }
    assert_eq!(big.visited().len(), HISTORY_MAX_ENTRIES);
    assert_eq!(big.visited().last().unwrap().path, "p149");
    let mut r2 = TuiState::new("127.0.0.1:9", None);
    r2.load_visits(Some(big.visited().to_vec()));
    assert_eq!(r2.visited().len(), HISTORY_MAX_ENTRIES);
    assert_eq!(r2.visited()[0].path, "p50");
}

/// The visits of a history file, where it can be read.
fn kept_visits(bytes: &[u8]) -> Option<Vec<HistoryVisit>> {
    let value: serde_json::Value = serde_json::from_slice(bytes).ok()?;
    let text = |row: &serde_json::Value, key: &str| Some(row.get(key)?.as_str()?.to_string());
    value
        .as_array()?
        .iter()
        .map(|row| {
            Some(HistoryVisit {
                site: text(row, "site")?,
                path: text(row, "path")?,
            })
        })
        .collect()
}

#[test]
fn history_load_missing_empty_corrupt_never_fails() {
    let mut s = TuiState::new("127.0.0.1:9", None);
    s.record_visit("example", "home");
    s.load_visits(None); // missing -> empty
    assert!(s.visited().is_empty());
    s.record_visit("example", "home");
    s.load_visits(kept_visits(b"")); // empty -> empty
    assert!(s.visited().is_empty());
    s.record_visit("example", "home");
    s.load_visits(kept_visits(b"{not json!!")); // corrupt -> empty
    assert!(s.visited().is_empty());
    // Valid JSON with invalid entries: bad rows drop, good rows stay.
    s.load_visits(kept_visits(
        br#"[{"site":"example","path":"home"},{"site":"BAD NAME","path":"home"}]"#,
    ));
    assert_eq!(s.visited().len(), 1);
    assert_eq!(s.visited()[0].path, "home");
}

#[test]
fn opening_logs_the_visit_and_clears_the_line() {
    let mut s = TuiState::new("127.0.0.1:9", None);
    for c in " example/about ".chars() {
        s.handle_key(Key::Char(c));
    }
    assert_eq!(
        s.handle_key(Key::Enter),
        KeyAction::Open("example/about".into())
    );
    let page = visit("example", "about", 0).page;
    s.open("example/about", Ok((page, CacheStatus::Stale)));
    assert_eq!(s.input(), "");
    assert_eq!(s.status(), "@example /about — T [offline]");
    assert_eq!(s.visited().len(), 1);
    assert_eq!(s.history_len(), 1);
    assert_eq!(s.handle_key(Key::Char('r')), KeyAction::Reload);
    s.reload(Err(BrowserError::Content("gone".into())));
    assert_eq!(s.status(), "reload failed: content: gone");
    s.open("bad target", Err(BrowserError::Content("x".into())));
    assert!(s.status().starts_with("error: bad target"));
    assert_eq!(s.handle_event(true, Key::Char('c')), KeyAction::Quit);
    assert_eq!(s.handle_event(false, Key::Char('c')), KeyAction::Continue);
    assert_eq!(s.input(), "c");
}

#[test]
fn queries_match_whatever_their_case() {
    let mut s = TuiState::new("127.0.0.1:9", None);
    s.session.history.push(wordy_visit());
    s.handle_key(Key::Char('/'));
    for c in "cherry".to_uppercase().chars() {
        s.handle_key(Key::Char(c));
    }
    assert_eq!(s.find_matches().len(), 1);
    assert_eq!(s.status(), "find \"CHERRY\": match 1/1 (n = next)");
    for _ in 0..6 {
        s.handle_key(Key::Backspace);
    }
    assert!(s.find_matches().is_empty());
    s.handle_key(Key::Enter);
    assert_eq!(s.status(), s.where_am_i());
}

#[test]
fn lines_without_a_page_say_so() {
    let s = TuiState::new("127.0.0.1:9", None);
    assert_eq!(s.page_lines(), vec!["No page. Open site[/path] above."]);
    assert_eq!(s.visible_range(0), (0, 0));
    assert_eq!(s.visible_range(5), (0, 1));
}

#[test]
fn prompt_shows_where_it_is() {
    let mut h = History::new();
    assert_eq!(page_heading(&h), "");
    h.push(visit("example", "home", 0));
    h.push(visit("example", "about", 0));
    h.back();
    assert_eq!(page_heading(&h), "[1 of 2] @example /home\n");
    assert_eq!(
        history_lines(&h),
        vec!["=> 1. @example /home   T", "   2. @example /about   T"]
    );
}

#[test]
fn each_stop_has_its_code() {
    let args = |list: &[&str]| list.iter().map(|s| s.to_string()).collect::<Vec<_>>();
    assert_eq!(parse_args(&args(&["--version"])), Err(Stop::Version));
    assert_eq!(Stop::Version.code(), 0);
    assert_eq!(parse_args(&args(&["--help"])), Err(Stop::Help));
    assert_eq!(parse_args(&args(&["-x"])), Err(Stop::Unknown("-x".into())));
    assert_eq!(
        parse_sync_args(&args(&["sync", "what"])),
        Err(Stop::Unexpected("what".into()))
    );
    assert_eq!(parse_gc_args(&args(&["cache-gc", "--dir"])), Err(Stop::Usage));
    assert_eq!(
        parse_gc_args(&args(&["cache-gc", "--dir", "/d"])),
        Ok(Some("/d".into()))
    );
    assert_eq!(parse_gc_args(&args(&["cache-gc"])), Ok(None));
    let p = page_args(&args(&["--site", "s", "--path", "p", "--pin", "k"])).unwrap();
    assert_eq!((p.site.as_str(), p.path.as_str()), ("s", "p"));
    assert_eq!((p.server.as_str(), p.pin.as_deref()), (DEFAULT_SERVER, Some("k")));
    assert_eq!(page_args(&args(&["x"])), Err(Stop::Unknown("x".into())));
}

#[test]
fn server_arguments_are_checked() {
    let args = |list: &[&str]| list.iter().map(|s| s.to_string()).collect::<Vec<_>>();
    let a = server_args(&vec![]).unwrap();
    assert_eq!((a.port, a.site.as_str(), a.dir.as_str()), (7843, "example", "sites/example"));
    assert_eq!((a.max_connections, a.record_ttl), (64, 86400));
    assert_eq!(a.refresh_secs(), Some(43200));
    let a = server_args(&args(&["--port", "80", "--record-ttl", "1", "--key", "k"])).unwrap();
    assert_eq!((a.port, a.key_path.as_deref()), (80, Some("k")));
    assert_eq!(a.refresh_secs(), None);
    let a = server_args(&args(&["--resign-interval", "7", "--max-connections", "2"])).unwrap();
    assert_eq!((a.refresh_secs(), a.max_connections), (Some(7), 2));
    for bad in [
        vec!["--port", "65536"],
        vec!["--port", "x"],
        vec!["--port"],
        vec!["--max-connections", "0"],
        vec!["--record-ttl", "-1"],
    ] {
        assert_eq!(server_args(&args(&bad)), Err(Stop::Usage), "{bad:?}");
    }
    assert_eq!(server_args(&args(&["--nope"])), Err(Stop::Unknown("--nope".into())));
    assert_eq!(server_args(&args(&["-h"])), Err(Stop::Help));
}
