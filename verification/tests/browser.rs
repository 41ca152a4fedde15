//! The browser core: history, navigation under a pin, the offline cache,
//! mirroring, and sessions.

use std::collections::HashMap;

use nexus::browser::cache::{
    BlobFile, BlobWrite, CacheFetch, CacheStatus, Entry, Index, LocalChain, LocalPage, OfflineCache,
};
use nexus::browser::history::{History, Visit};
use nexus::browser::mirror::{export_site, file_name, list_line, Mirror, PathReply, SyncReport};
use nexus::browser::navigate::{
    ask_cached, ask_next, first_endpoint, navigate, navigate_cached, navigate_cached_verified,
    navigate_verified, navigate_with_records, Ask, VerifiedReply,
};
use nexus::browser::session::{ClientSession, Errand};
use nexus::browser::{
    fetch_page, fetch_records, page_line, parse_target, records_line, BrowserError, PageReply,
    RecordsReply,
};
use nexus::cli::nexus::{history_lines, parse_command, Command};
use nexus::content::{
    content_id_of, Capability, Component, LinkTarget, Metadata, Page, Props,
};
use nexus::identity::{ResourceRecord, SignedRecord, SiteIdentity};
use nexus::protocol::split_response;
use nexus::resolver::{LocalResolver, Route};
use nexus::server::load::PackedPage;
use nexus::server::{handle_one, SiteStore};
use nexus::transport::TransportError;

fn quoted(s: &str) -> String {
    serde_json::to_string(s).unwrap()
}

fn target_json(t: &LinkTarget) -> String {
    match t {
        LinkTarget::Page { site, path } => format!(
            "{{\"kind\":\"page\",\"site\":{},\"path\":{}}}",
            quoted(site),
            quoted(path)
        ),
        LinkTarget::External { hint } => {
            format!("{{\"kind\":\"external\",\"hint\":{}}}", quoted(hint))
        }
        LinkTarget::Action { action_id } => {
            format!("{{\"kind\":\"action\",\"action_id\":{}}}", quoted(action_id))
        }
    }
}

fn component_json(c: &Component) -> String {
    match c {
        Component::Text { text } => format!("{{\"type\":\"text\",\"text\":{}}}", quoted(text)),
        Component::Heading { level, text } => format!(
            "{{\"type\":\"heading\",\"level\":{level},\"text\":{}}}",
            quoted(text)
        ),
        Component::Image { content_id, alt } => format!(
            "{{\"type\":\"image\",\"content_id\":{},\"alt\":{}}}",
            quoted(content_id),
            quoted(alt)
        ),
        Component::Link { label, target } => format!(
            "{{\"type\":\"link\",\"label\":{},\"target\":{}}}",
            quoted(label),
            target_json(target)
        ),
        Component::Collection { items } => format!(
            "{{\"type\":\"collection\",\"items\":[{}]}}",
            items.iter().map(component_json).collect::<Vec<_>>().join(",")
        ),
        Component::App { app_id, props } => format!(
            "{{\"type\":\"app\",\"app_id\":{},\"props\":{}}}",
            quoted(app_id),
            match props {
                Props::Null => "null",
                Props::Json(text) => text.as_str(),
            }
        ),
    }
}

fn capability_json(c: &Capability) -> String {
    match c {
        Capability::Storage { max_kb } => {
            format!("{{\"kind\":\"storage\",\"max_kb\":{max_kb}}}")
        }
        Capability::Network { hosts } => format!(
            "{{\"kind\":\"network\",\"hosts\":[{}]}}",
            hosts.iter().map(|h| quoted(h)).collect::<Vec<_>>().join(",")
        ),
        Capability::Notify => "{\"kind\":\"notify\"}".into(),
        Capability::Audio => "{\"kind\":\"audio\"}".into(),
        Capability::Camera => "{\"kind\":\"camera\"}".into(),
        Capability::Microphone => "{\"kind\":\"microphone\"}".into(),
    }
}

/// The canonical JSON of a page.
fn page_json(p: &Page) -> Vec<u8> {
    let m = &p.metadata;
    format!(
        "{{\"metadata\":{{\"schema\":{},\"site\":{},\"path\":{},\"title\":{},\"revision\":{}}},\
         \"components\":[{}],\"capabilities\":[{}]}}",
        m.schema,
        quoted(&m.site),
        quoted(&m.path),
        quoted(&m.title),
        m.revision,
        p.components.iter().map(component_json).collect::<Vec<_>>().join(","),
        p.capabilities.iter().map(capability_json).collect::<Vec<_>>().join(",")
    )
    .into_bytes()
}

fn text_at(v: &serde_json::Value, key: &str) -> Result<String, String> {
    v[key]
        .as_str()
        .map(str::to_owned)
        .ok_or_else(|| format!("missing field `{key}`"))
}

fn number_at(v: &serde_json::Value, key: &str, most: u64) -> Result<u64, String> {
    v[key]
        .as_u64()
        .filter(|n| *n <= most)
        .ok_or_else(|| format!("missing field `{key}`"))
}

fn list_at<'a>(v: &'a serde_json::Value, key: &str) -> Result<&'a Vec<serde_json::Value>, String> {
    v[key]
        .as_array()
        .ok_or_else(|| format!("missing field `{key}`"))
}

fn target_of(v: &serde_json::Value) -> Result<LinkTarget, String> {
    match v["kind"].as_str() {
        Some("page") => Ok(LinkTarget::Page {
            site: text_at(v, "site")?,
            path: text_at(v, "path")?,
        }),
        Some("external") => Ok(LinkTarget::External {
            hint: text_at(v, "hint")?,
        }),
        Some("action") => Ok(LinkTarget::Action {
            action_id: text_at(v, "action_id")?,
        }),
        _ => Err("unknown kind".into()),
    }
}

fn component_of(v: &serde_json::Value) -> Result<Component, String> {
    match v["type"].as_str() {
        Some("text") => Ok(Component::Text {
            text: text_at(v, "text")?,
        }),
        Some("heading") => Ok(Component::Heading {
            level: number_at(v, "level", 255)? as u8,
            text: text_at(v, "text")?,
        }),
        Some("image") => Ok(Component::Image {
            content_id: text_at(v, "content_id")?,
            alt: text_at(v, "alt")?,
        }),
        Some("link") => Ok(Component::Link {
            label: text_at(v, "label")?,
            target: target_of(&v["target"])?,
        }),
        Some("collection") => Ok(Component::Collection {
            items: list_at(v, "items")?
                .iter()
                .map(component_of)
                .collect::<Result<_, _>>()?,
        }),
        Some("app") => Ok(Component::App {
            app_id: text_at(v, "app_id")?,
            props: match &v["props"] {
                serde_json::Value::Null => Props::Null,
                other => Props::Json(other.to_string()),
            },
        }),
        _ => Err("unknown type".into()),
    }
}

fn capability_of(v: &serde_json::Value) -> Result<Capability, String> {
    match v["kind"].as_str() {
        Some("storage") => Ok(Capability::Storage {
            max_kb: number_at(v, "max_kb", u32::MAX as u64)? as u32,
        }),
        Some("network") => Ok(Capability::Network {
            hosts: list_at(v, "hosts")?
                .iter()
                .map(|h| h.as_str().map(str::to_owned).ok_or("no host".to_string()))
                .collect::<Result<_, _>>()?,
        }),
        Some("notify") => Ok(Capability::Notify),
        Some("audio") => Ok(Capability::Audio),
        Some("camera") => Ok(Capability::Camera),
        Some("microphone") => Ok(Capability::Microphone),
        _ => Err("unknown kind".into()),
    }
}

fn page_of(v: &serde_json::Value) -> Result<Page, String> {
    let m = &v["metadata"];
    Ok(Page {
        metadata: Metadata {
            schema: number_at(m, "schema", u32::MAX as u64)? as u32,
            site: text_at(m, "site")?,
            path: text_at(m, "path")?,
            title: text_at(m, "title")?,
            revision: number_at(m, "revision", u64::MAX)?,
        },
        components: list_at(v, "components")?
            .iter()
            .map(component_of)
            .collect::<Result<_, _>>()?,
        capabilities: match &v["capabilities"] {
            serde_json::Value::Null => vec![],
            list => list
                .as_array()
                .ok_or("capabilities")?
                .iter()
                .map(capability_of)
                .collect::<Result<_, _>>()?,
        },
    })
}

/// What the JSON reader makes of some bytes.
fn read_page(bytes: &[u8]) -> Result<Page, String> {
    let v: serde_json::Value = serde_json::from_slice(bytes).map_err(|e| e.to_string())?;
    page_of(&v)
}

/// The JSON array of signed records.
fn chain_json(records: &[SignedRecord]) -> Vec<u8> {
    let list: Vec<serde_json::Value> = records
        .iter()
        .map(|s| {
            let mut r = serde_json::Map::new();
            r.insert("site".into(), s.record.site.clone().into());
            r.insert("path".into(), s.record.path.clone().into());
            r.insert("content_hash".into(), s.record.content_hash.clone().into());
            r.insert("expires_at_unix".into(), s.record.expires_at_unix.into());
            let mut m = serde_json::Map::new();
            m.insert("record".into(), r.into());
            m.insert("signature_hex".into(), s.signature_hex.clone().into());
            m.into()
        })
        .collect();
    serde_json::to_vec(&list).unwrap()
}

/// The signed records of a JSON array.
fn read_chain(bytes: &[u8]) -> Result<Vec<SignedRecord>, String> {
    let list: Vec<serde_json::Value> = serde_json::from_slice(bytes).map_err(|e| e.to_string())?;
    list.iter()
        .map(|v| {
            Ok(SignedRecord {
                record: ResourceRecord {
                    site: text_at(&v["record"], "site")?,
                    path: text_at(&v["record"], "path")?,
                    content_hash: text_at(&v["record"], "content_hash")?,
                    expires_at_unix: number_at(&v["record"], "expires_at_unix", u64::MAX)?,
                },
                signature_hex: text_at(v, "signature_hex")?,
            })
        })
        .collect()
}

fn now() -> u64 {
    1_700_000_000
}

fn rev_page(site: &str, path: &str, revision: u64) -> Page {
    Page {
        metadata: Metadata {
            schema: 1,
            site: site.into(),
            path: path.into(),
            title: "T".into(),
            revision,
        },
        components: vec![Component::Text { text: "hi".into() }],
        capabilities: vec![],
    }
}

fn titled_page(site: &str, path: &str, title: &str) -> Page {
    let mut page = rev_page(site, path, 1);
    page.metadata.title = title.into();
    page.components = vec![Component::Text {
        text: format!("body of {path}"),
    }];
    page
}

fn store_of(pages: &[Page]) -> SiteStore {
    let mut store = SiteStore::new();
    for p in pages {
        let bytes = page_json(p);
        store.insert(
            &p.metadata.site,
            &p.metadata.path,
            bytes.clone(),
            Ok(bytes),
        );
    }
    store
}

fn signed_store(pages: &[Page], id: &SiteIdentity) -> SiteStore {
    let mut store = store_of(pages);
    let signed = store.sign_pages(id, 9_999_999_999).unwrap();
    store.publish(
        signed
            .into_iter()
            .map(|p| (p.site, p.path, chain_json(&[p.record])))
            .collect(),
    );
    store
}

fn test_page(site: &str, path: &str) -> Page {
    rev_page(site, path, 1)
}

/// A server that answers, or one that is not there.
type Server<'a> = Option<&'a SiteStore>;

fn send(server: Server, line: &str) -> Result<(u16, Vec<u8>), TransportError> {
    match server {
        None => Err(TransportError::Io("connection refused".into())),
        Some(store) => {
            let frame = handle_one(line, store).unwrap();
            let (h, body) = split_response(&frame).unwrap();
            Ok((h.code, body.to_vec()))
        }
    }
}

fn page_reply(reply: Result<(u16, Vec<u8>), TransportError>) -> PageReply {
    let page = match &reply {
        Ok((_, body)) => read_page(body),
        Err(_) => Err("nothing came".into()),
    };
    let canonical = page.as_ref().map(page_json).unwrap_or_default();
    PageReply {
        reply,
        page,
        canonical,
    }
}

fn records_reply(reply: Result<(u16, Vec<u8>), TransportError>) -> RecordsReply {
    let records = match &reply {
        Ok((_, body)) => read_chain(body),
        Err(_) => Err("nothing came".into()),
    };
    RecordsReply { reply, records }
}

fn get_page(server: Server, site: &str, path: &str) -> PageReply {
    page_reply(send(server, &page_line(site, path).unwrap()))
}

fn get_records(server: Server, site: &str, path: &str) -> RecordsReply {
    records_reply(send(server, &records_line(site, path).unwrap()))
}

fn route_to(pin: Option<String>) -> LocalResolver {
    let mut r = LocalResolver::new();
    r.insert(
        "example",
        Route {
            endpoints: vec!["127.0.0.1:7843".into()],
            pinned_site_id: pin,
        },
    )
    .unwrap();
    r
}

#[test]
fn navigate_via_resolver() {
    let store = store_of(&[test_page("example", "home")]);
    let r = route_to(None);
    let page = navigate(&r, "example", "home", get_page(Some(&store), "example", "home")).unwrap();
    assert_eq!(page.metadata.title, "T");
    assert_eq!(
        first_endpoint(&r, "example").unwrap(),
        ("127.0.0.1:7843".to_string(), None)
    );
    assert!(matches!(
        navigate(&r, "other", "home", get_page(Some(&store), "other", "home")),
        Err(BrowserError::Resolve(_))
    ));
}

fn verified(store: &SiteStore, pin: String) -> Result<Page, BrowserError> {
    navigate_verified(
        &route_to(Some(pin)),
        "example",
        "home",
        get_records(Some(store), "example", "home"),
        get_page(Some(store), "example", "home"),
        now(),
    )
}

#[test]
fn verified_fetch_succeeds_over_wire() {
    let id = SiteIdentity::from_secret_bytes(&[21u8; 32]).unwrap();
    let store = signed_store(&[test_page("example", "home")], &id);
    let page = verified(&store, id.site_id()).unwrap();
    assert_eq!(page.metadata.title, "T");
}

#[test]
fn verified_fetch_rejects_wrong_key() {
    let id = SiteIdentity::from_secret_bytes(&[22u8; 32]).unwrap();
    let other = SiteIdentity::from_secret_bytes(&[23u8; 32]).unwrap();
    let store = signed_store(&[test_page("example", "home")], &id);
    // Pinned to a key that never signed the page: fail closed.
    assert!(matches!(
        verified(&store, other.site_id()),
        Err(BrowserError::PinMismatch { .. })
    ));
}

#[test]
fn verified_fetch_fails_closed_without_records() {
    // Recordless server + pinned route: RECORDS 404s, page refused.
    let store = store_of(&[test_page("example", "home")]);
    let id = SiteIdentity::from_secret_bytes(&[24u8; 32]).unwrap();
    assert!(matches!(
        verified(&store, id.site_id()),
        Err(BrowserError::PinRecordsRequired(_))
    ));
    // The page is not even asked for.
    let chain = get_records(Some(&store), "example", "home");
    assert!(matches!(
        ask_next("example", "home", &Some(id.site_id()), Some(chain)),
        Err(BrowserError::PinRecordsRequired(_))
    ));
}

#[test]
fn records_are_asked_for_before_a_pinned_page() {
    let pin = Some("ab".repeat(32));
    let (first, _) = ask_next("example", "home", &pin, None).unwrap();
    assert_eq!(first, Ask::Records("NXP/0.1 RECORDS example home\n".into()));
    let (plain, _) = ask_next("example", "home", &None, None).unwrap();
    assert_eq!(plain, Ask::Page("NXP/0.1 FETCH example home\n".into()));
    let id = SiteIdentity::generate();
    let store = signed_store(&[test_page("example", "home")], &id);
    let chain = get_records(Some(&store), "example", "home");
    let (then, records) = ask_next("example", "home", &pin, Some(chain)).unwrap();
    assert_eq!(then, plain);
    assert_eq!(records.len(), 1);
}

#[test]
fn pinned_route_fails_closed_without_records() {
    let store = store_of(&[test_page("example", "home")]);
    let r = route_to(Some("ab".repeat(32)));
    let err = navigate(&r, "example", "home", get_page(Some(&store), "example", "home")).unwrap_err();
    assert!(matches!(err, BrowserError::PinRecordsRequired(_)));
}

#[test]
fn pinned_route_accepts_matching_signed_record() {
    let store = store_of(&[test_page("example", "home")]);
    let id = SiteIdentity::from_secret_bytes(&[7u8; 32]).unwrap();
    let rec = id
        .sign_record(
            "home",
            &content_id_of(&page_json(&test_page("example", "home"))),
            9_999_999_999,
        )
        .unwrap();
    let r = route_to(Some(id.site_id()));
    let reply = get_page(Some(&store), "example", "home");
    let page = navigate_with_records(&r, "example", "home", &vec![rec], reply, now()).unwrap();
    assert_eq!(page.metadata.title, "T");
}

#[test]
fn pinned_route_rejects_tampered_content() {
    let store = store_of(&[test_page("example", "home")]);
    let id = SiteIdentity::from_secret_bytes(&[8u8; 32]).unwrap();
    // Record vouches for a DIFFERENT hash than the served page.
    let rec = id
        .sign_record("home", &format!("b3:{}", "ab".repeat(32)), 9_999_999_999)
        .unwrap();
    let r = route_to(Some(id.site_id()));
    let reply = get_page(Some(&store), "example", "home");
    let err = navigate_with_records(&r, "example", "home", &vec![rec], reply, now()).unwrap_err();
    assert!(matches!(err, BrowserError::PinMismatch { .. }));
}

#[test]
fn pins_that_are_no_key_are_refused() {
    let store = store_of(&[test_page("example", "home")]);
    let id = SiteIdentity::from_secret_bytes(&[8u8; 32]).unwrap();
    let rec = id.sign_record("home", "b3:x", 9_999_999_999).unwrap();
    for bad in ["zz", "abcd", ""] {
        let r = route_to(Some(bad.into()));
        let reply = get_page(Some(&store), "example", "home");
        let err = navigate_with_records(&r, "example", "home", &vec![rec.clone()], reply, now());
        assert!(matches!(err, Err(BrowserError::PinMismatch { .. })), "{bad:?}");
    }
}

#[test]
fn missing_page_is_status_error() {
    let store = store_of(&[test_page("example", "home")]);
    let err = fetch_page("example", "missing", get_page(Some(&store), "example", "missing"))
        .unwrap_err();
    assert!(matches!(err, BrowserError::Status(404, _)));
    assert_eq!(err.to_string(), "server returned 404: not found");
}

#[test]
fn replies_that_are_no_page_are_told_apart() {
    let ok = |body: &[u8]| page_reply(Ok((200, body.to_vec())));
    assert!(matches!(
        fetch_page("Example", "home", ok(b"{}")),
        Err(BrowserError::Protocol(_))
    ));
    assert!(matches!(
        fetch_page("example", "home", ok(b"{}")),
        Err(BrowserError::Content(_))
    ));
    assert!(matches!(
        fetch_page("example", "home", get_page(None, "example", "home")),
        Err(BrowserError::Transport(_))
    ));
    // The status text is shown whatever the bytes are.
    let odd = page_reply(Ok((500, vec![b'x', 0xff])));
    assert_eq!(
        fetch_page("example", "home", odd).unwrap_err().to_string(),
        "server returned 500: x\u{fffd}"
    );
    let records = |code: u16, body: &[u8]| records_reply(Ok((code, body.to_vec())));
    assert!(fetch_records("example", "home", records(404, b"")).unwrap().is_empty());
    assert!(matches!(
        fetch_records("example", "home", records(200, b"x")),
        Err(BrowserError::Content(e)) if e.starts_with("bad records body: ")
    ));
    assert!(matches!(
        fetch_records("example", "home", records(500, b"boom")),
        Err(BrowserError::Status(500, b)) if b == "boom"
    ));
}

fn visit(path: &str, title: &str) -> Visit {
    Visit {
        site: "example".into(),
        path: path.into(),
        page: Page {
            metadata: Metadata {
                schema: 1,
                site: "example".into(),
                path: path.into(),
                title: title.into(),
                revision: 1,
            },
            components: vec![Component::Text { text: "x".into() }],
            capabilities: vec![],
        },
    }
}

#[test]
fn parse_target_defaults_to_home() {
    assert_eq!(
        parse_target("example").unwrap(),
        ("example".into(), "home".into())
    );
    assert_eq!(
        parse_target("example/about").unwrap(),
        ("example".into(), "about".into())
    );
    assert_eq!(
        parse_target("nolan/blog/hello").unwrap(),
        ("nolan".into(), "blog/hello".into())
    );
}

#[test]
fn parse_target_rejects_bad_input() {
    for bad in ["", "example/", "/home", "EXAMPLE", "example/../x", "a b"] {
        assert!(parse_target(bad).is_err(), "{bad:?} should be rejected");
    }
}

#[test]
fn history_position_len_entries() {
    let mut h = History::new();
    h.push(visit("a", "A"));
    h.push(visit("b", "B"));
    h.push(visit("c", "C"));
    assert_eq!(h.len(), 3);
    assert_eq!(h.position(), 2);
    h.back();
    assert_eq!(h.position(), 1);
    let paths: Vec<&str> = h.entries().iter().map(|v| v.path.as_str()).collect();
    assert_eq!(paths, vec!["a", "b", "c"]);
    h.forward();
    assert_eq!(h.position(), 2);
}

#[test]
fn reload_replaces_current_keeps_future() {
    let mut h = History::new();
    h.push(visit("a", "A"));
    h.push(visit("b", "B"));
    h.back(); // present = a, future = [b]
    h.replace_current(visit("a", "A2").page);
    assert_eq!(h.current().unwrap().page.metadata.title, "A2");
    assert_eq!(h.len(), 2);
    h.forward();
    assert_eq!(h.current().unwrap().path, "b");
}

#[test]
fn history_back_forward() {
    let mut h = History::new();
    let visit = |t: &str| Visit {
        site: "example".into(),
        path: t.into(),
        page: Page {
            metadata: Metadata {
                schema: 1,
                site: "example".into(),
                path: t.into(),
                title: t.into(),
                revision: 1,
            },
            components: vec![Component::Text { text: "x".into() }],
            capabilities: vec![],
        },
    };
    h.push(visit("a"));
    h.push(visit("b"));
    assert_eq!(h.current().unwrap().path, "b");
    h.back();
    assert_eq!(h.current().unwrap().path, "a");
    h.forward();
    assert_eq!(h.current().unwrap().path, "b");
}

/// What a session's errand brings from a server, with no cache.
fn run(errand: &Errand, server: Server) -> Result<(Page, CacheStatus), BrowserError> {
    let (site, path) = (errand.site.as_str(), errand.path.as_str());
    let page = get_page(server, site, path);
    match &errand.pin {
        None => fetch_page(site, path, page),
        Some(pin) => {
            let chain = get_records(server, site, path);
            navigate_verified(&route_to(Some(pin.clone())), site, path, chain, page, now())
        }
    }
    .map(|p| (p, CacheStatus::Fresh))
}

fn open(session: &mut ClientSession, target: &str, server: Server) -> Result<(), BrowserError> {
    let fetched = match session.plan_open(target) {
        Ok(errand) => run(&errand, server),
        Err(e) => Err(e),
    };
    session.open(target, fetched)
}

#[test]
fn session_pin_verifies_history_nav() {
    let id = SiteIdentity::from_secret_bytes(&[25u8; 32]).unwrap();
    let store = signed_store(&[test_page("example", "home")], &id);
    let mut session = ClientSession::new("127.0.0.1:7843").with_pin(Some(id.site_id()));
    open(&mut session, "example/home", Some(&store)).unwrap();
    assert_eq!(session.history.current().unwrap().page.metadata.title, "T");
    assert_eq!(session.last_status(), Some(CacheStatus::Fresh));
    // Wrong pin from the start: open fails closed, history stays empty.
    let other = SiteIdentity::from_secret_bytes(&[26u8; 32]).unwrap();
    let mut bad = ClientSession::new("127.0.0.1:7843").with_pin(Some(other.site_id()));
    assert!(matches!(
        open(&mut bad, "example/home", Some(&store)),
        Err(BrowserError::PinMismatch { .. })
    ));
    assert!(bad.history.current().is_none());
}

#[test]
fn sessions_step_reload_and_render() {
    let store = store_of(&[test_page("example", "home"), test_page("example", "about")]);
    let mut s = ClientSession::new("127.0.0.1:7843");
    assert_eq!(s.render_current(), "");
    assert!(matches!(
        s.plan_reload(),
        Err(BrowserError::Content(e)) if e == "nothing loaded yet"
    ));
    let errand = s.plan_open("example").unwrap();
    assert_eq!(
        errand,
        Errand {
            site: "example".into(),
            path: "home".into(),
            endpoint: "127.0.0.1:7843".into(),
            pin: None,
            cached: false,
        }
    );
    open(&mut s, "example", Some(&store)).unwrap();
    open(&mut s, "example/about", Some(&store)).unwrap();
    assert!(matches!(
        s.forward(),
        Err(BrowserError::Content(e)) if e == "at the end of history"
    ));
    s.back().unwrap();
    assert!(s.render_current().contains("@example /home"));
    assert!(matches!(
        s.back(),
        Err(BrowserError::Content(e)) if e == "at the start of history"
    ));
    let fresh = store_of(&[rev_page("example", "home", 2)]);
    let errand = s.plan_reload().unwrap();
    s.reload(run(&errand, Some(&fresh))).unwrap();
    assert!(s.render_current().contains("rev:2"));
    s.forward().unwrap();
    assert_eq!(s.history.current().unwrap().path, "about");
    // A failure leaves what is shown.
    assert!(matches!(
        open(&mut s, "example/home", None),
        Err(BrowserError::Transport(_))
    ));
    assert!(matches!(
        open(&mut s, "a b", Some(&store)),
        Err(BrowserError::BadTarget(..))
    ));
    assert_eq!(s.history.current().unwrap().path, "about");
}

/// A cache with the files of its blob store.
struct Disk {
    cache: OfflineCache,
    files: HashMap<String, Vec<u8>>,
}

impl Disk {
    fn new() -> Disk {
        Disk {
            cache: OfflineCache::new("/cache", Some(Index::default())),
            files: HashMap::new(),
        }
    }

    fn write(&mut self, w: BlobWrite) {
        assert_eq!(format!("b3:{}{}", w.shard, w.rest), w.id);
        self.files.insert(w.id, w.bytes);
    }

    fn local_page(&self, site: &str, path: &str) -> LocalPage {
        let file = self
            .cache
            .cached_id(site, path)
            .and_then(|id| self.files.get(&id).cloned());
        let page = read_page(file.as_deref().unwrap_or_default());
        let canonical = page.as_ref().map(page_json).unwrap_or_default();
        LocalPage {
            file,
            page,
            canonical,
        }
    }

    fn local_chain(&self, site: &str, path: &str) -> LocalChain {
        let file = self
            .cache
            .entry(site, path)
            .and_then(|e| e.records_id.clone())
            .and_then(|id| self.files.get(&id).cloned());
        let records = read_chain(file.as_deref().unwrap_or_default());
        LocalChain { file, records }
    }

    fn fetch(&mut self, server: Server, site: &str, path: &str) -> Result<(Page, CacheStatus), BrowserError> {
        let line = self.cache.fetch_line(site, path)?;
        let reply = page_reply(send(server, &line));
        let local = self.local_page(site, path);
        let (out, write) = self.cache.fetch(site, path, reply, local, now());
        if let Some(w) = write {
            self.write(w);
        }
        match out {
            CacheFetch::Served(p, s) => Ok((p, s)),
            CacheFetch::Retry => fetch_page(site, path, get_page(server, site, path))
                .map(|p| (p, CacheStatus::Fresh)),
            CacheFetch::Failed(e) => Err(e),
        }
    }

    fn fetch_verified(&mut self, server: Server, pin: &str) -> Result<(Page, CacheStatus), BrowserError> {
        let (site, path) = ("example", "home");
        let page = get_page(server, site, path);
        let chain = get_records(server, site, path);
        let json = match &chain.records {
            Ok(r) => chain_json(r),
            Err(_) => vec![],
        };
        let (old_chain, local) = (self.local_chain(site, path), self.local_page(site, path));
        let (out, writes) = self
            .cache
            .fetch_verified(site, path, pin, page, chain, &json, old_chain, local, now());
        for w in [writes.0, writes.1].into_iter().flatten() {
            self.write(w);
        }
        out
    }

    fn lookup(&mut self, site: &str, path: &str) -> Option<Page> {
        let local = self.local_page(site, path);
        self.cache.lookup(site, path, local)
    }

    fn put(&mut self, page: &Page) {
        let (site, path) = (page.metadata.site.clone(), page.metadata.path.clone());
        if let Some(w) = self.cache.put(&site, &path, &page_json(page), now()).unwrap() {
            self.write(w);
        }
    }
}

fn test_key(seed: u8) -> SiteIdentity {
    SiteIdentity::from_secret_bytes(&[seed; 32]).unwrap()
}

#[test]
fn pinned_offline_serves_verified_stale() {
    let mut disk = Disk::new();
    let id = test_key(31);
    let store = signed_store(&[rev_page("example", "home", 1)], &id);
    let (page, status) = disk.fetch_verified(Some(&store), &id.site_id()).unwrap();
    assert!(matches!(status, CacheStatus::Fresh));
    assert_eq!(page.metadata.revision, 1);

    let (page2, status2) = disk.fetch_verified(None, &id.site_id()).unwrap();
    assert!(matches!(status2, CacheStatus::StaleVerified));
    assert_eq!(page_json(&page2), page_json(&rev_page("example", "home", 1)));
}

#[test]
fn verified_stale_rejects_wrong_pin_and_tamper() {
    let mut disk = Disk::new();
    let id = test_key(32);
    let other = test_key(33);
    let store = signed_store(&[rev_page("example", "home", 1)], &id);
    disk.fetch_verified(Some(&store), &id.site_id()).unwrap();

    // Wrong pin: no entry applies, transport error propagates.
    let err = disk.fetch_verified(None, &other.site_id()).unwrap_err();
    assert!(matches!(err, BrowserError::Transport(_)));

    // Tamper with the cached chain: verified lookup must miss + evict.
    let rid = disk
        .cache
        .entry("example", "home")
        .unwrap()
        .records_id
        .clone()
        .unwrap();
    let bad = disk.files.get_mut(&rid).unwrap();
    let mid = bad.len() / 2;
    bad[mid] ^= 0xff;
    let err = disk.fetch_verified(None, &id.site_id()).unwrap_err();
    assert!(matches!(err, BrowserError::Transport(_)));
    assert!(disk.cache.entry("example", "home").is_none());
}

#[test]
fn offline_fetch_returns_stale_after_server_dies() {
    let mut disk = Disk::new();
    let store = store_of(&[rev_page("example", "home", 1)]);
    let (page, status) = disk.fetch(Some(&store), "example", "home").unwrap();
    assert!(matches!(status, CacheStatus::Fresh));
    assert_eq!(page.metadata.revision, 1);

    let (page2, status2) = disk.fetch(None, "example", "home").unwrap();
    assert!(matches!(status2, CacheStatus::Stale));
    assert_eq!(page2.metadata.revision, 1);
    assert_eq!(page_json(&page2), page_json(&rev_page("example", "home", 1)));

    // Cold cache + dead server: transport error must propagate (no phantom page).
    let err = Disk::new().fetch(None, "example", "home").unwrap_err();
    assert!(matches!(err, BrowserError::Transport(_)));
}

#[test]
fn corrupt_blob_is_miss_and_evicted() {
    let mut disk = Disk::new();
    let store = store_of(&[rev_page("example", "home", 1)]);
    disk.fetch(Some(&store), "example", "home").unwrap();

    let cid = disk.cache.cached_id("example", "home").unwrap();
    *disk.files.get_mut(&cid).unwrap().last_mut().unwrap() ^= 0xff;
    let err = disk.fetch(None, "example", "home").unwrap_err();
    assert!(matches!(err, BrowserError::Transport(_)));

    // The poisoned entry was evicted from the index.
    assert!(disk.cache.entry("example", "home").is_none());
}

#[test]
fn fresh_server_revision_replaces_cached_copy() {
    let mut disk = Disk::new();
    let store = store_of(&[rev_page("example", "home", 1)]);
    disk.fetch(Some(&store), "example", "home").unwrap();

    let store2 = store_of(&[rev_page("example", "home", 2)]);
    let (page, status) = disk.fetch(Some(&store2), "example", "home").unwrap();
    assert!(matches!(status, CacheStatus::Fresh));
    assert_eq!(page.metadata.revision, 2);

    // Offline now serves the new revision, not the superseded one.
    let (page2, status2) = disk.fetch(None, "example", "home").unwrap();
    assert!(matches!(status2, CacheStatus::Stale));
    assert_eq!(page2.metadata.revision, 2);
}

#[test]
fn second_fetch_sends_precondition_and_takes_304() {
    let mut disk = Disk::new();
    let store = store_of(&[rev_page("example", "home", 1)]);
    let (page, _) = disk.fetch(Some(&store), "example", "home").unwrap();
    let want = content_id_of(&page_json(&page));

    // The client sends what it holds, and the server does not send it again.
    let line = disk.cache.fetch_line("example", "home").unwrap();
    assert_eq!(line, format!("NXP/0.1 FETCH example home {want}\n"));
    assert_eq!(send(Some(&store), &line).unwrap(), (304, vec![]));
    let (page2, status) = disk.fetch(Some(&store), "example", "home").unwrap();
    assert!(matches!(status, CacheStatus::Fresh));
    assert_eq!(content_id_of(&page_json(&page2)), want);

    // A confirmed page whose blob is gone is fetched without a condition.
    disk.files.clear();
    let (page3, status) = disk.fetch(Some(&store), "example", "home").unwrap();
    assert!(matches!(status, CacheStatus::Fresh));
    assert_eq!(page3.metadata.revision, 1);
}

#[test]
fn failures_other_than_the_wire_are_not_hidden() {
    let mut disk = Disk::new();
    let store = store_of(&[rev_page("example", "home", 1)]);
    disk.fetch(Some(&store), "example", "home").unwrap();
    assert!(matches!(
        disk.fetch(Some(&SiteStore::new()), "example", "home"),
        Err(BrowserError::Status(404, _))
    ));
    // A verified refusal is not served from the plain cache.
    let id = test_key(34);
    assert!(matches!(
        disk.fetch_verified(Some(&store), &id.site_id()),
        Err(BrowserError::PinRecordsRequired(_))
    ));
}

#[test]
fn invalid_keys_never_touch_cache() {
    let mut disk = Disk::new();
    assert!(disk.lookup("../../etc", "passwd").is_none());
    assert!(disk.lookup("example", "../secret").is_none());
    assert!(disk.lookup("", "home").is_none());
    disk.put(&rev_page("Example", "home", 1)); // invalid site: no-op
    assert!(disk.lookup("Example", "home").is_none());
    assert!(disk.files.is_empty());
    assert!(disk.cache.index.as_ref().unwrap().pages.is_empty());
}

#[test]
fn gc_reaps_orphans_and_tmp_but_not_foreign() {
    let mut disk = Disk::new();
    disk.put(&rev_page("example", "home", 1));
    disk.put(&rev_page("example", "home", 2));
    let mut files: Vec<BlobFile> = disk
        .files
        .iter()
        .map(|(id, bytes)| BlobFile {
            shard: id[3..5].into(),
            name: id[5..].into(),
            size: Some(bytes.len() as u64),
        })
        .collect();
    files.push(BlobFile {
        shard: "ab".into(),
        name: "not-a-blob".into(),
        size: Some(9),
    });
    files.push(BlobFile {
        shard: "ab".into(),
        name: "deadbeef.tmp".into(),
        size: Some(7),
    });
    let (verdicts, report) = disk.cache.gc(&files);
    assert_eq!(
        report.files_removed, 2,
        "orphan blob + tmp, not the foreign file"
    );
    assert!(report.bytes_freed > 0);
    assert!(!verdicts[2]);
    assert!(verdicts[3]);
    let live = disk.cache.cached_id("example", "home").unwrap();
    assert!(!disk.cache.garbage(&live[3..5], &live[5..]));
    // Live entry still serves after collection.
    assert!(disk.lookup("example", "home").is_some());
}

#[test]
fn unverified_put_supersedes_verified_entry() {
    let mut disk = Disk::new();
    let id = test_key(41);
    let p = rev_page("example", "home", 1);
    let rec = id
        .sign_record("home", &content_id_of(&page_json(&p)), 9_999_999_999)
        .unwrap();
    let (c, w) = disk.cache.put_verified(
        "example",
        "home",
        &page_json(&p),
        &chain_json(&[rec]),
        &id.site_id(),
        now(),
    );
    disk.write(c.unwrap());
    disk.write(w.unwrap().unwrap());
    let verified = |disk: &mut Disk, at: u64| {
        let (chain, local) = (
            disk.local_chain("example", "home"),
            disk.local_page("example", "home"),
        );
        disk.cache
            .lookup_verified("example", "home", &id.site_id(), chain, local, at)
    };
    assert!(verified(&mut disk, now()).is_some());
    disk.put(&p);
    assert!(verified(&mut disk, now()).is_none());
    // ...but the plain lookup still serves (unverified path unaffected).
    assert!(disk.lookup("example", "home").is_some());
}

#[test]
fn records_are_stored_ahead_of_their_page() {
    let mut disk = Disk::new();
    let big = vec![b'x'; nexus::storage::MAX_BLOB + 1];
    let too_large = |e: &BrowserError| {
        matches!(e, BrowserError::Cache(s) if *s == format!("too large: {} bytes", big.len()))
    };
    // A page that does not fit leaves the blob of its records behind.
    let (chain, page) = disk
        .cache
        .put_verified("example", "home", &big, b"[1]", "pin", now());
    assert_eq!(chain.unwrap().bytes, b"[1]");
    assert!(too_large(&page.unwrap_err()));
    assert!(disk.cache.entry("example", "home").is_none());
    // So does one that has no place in the cache.
    let (chain, page) = disk
        .cache
        .put_verified("Example", "home", b"{}", b"[1]", "pin", now());
    assert_eq!(chain.unwrap().bytes, b"[1]");
    assert!(page.unwrap().is_none());
    // Records that do not fit keep the page out too.
    let (chain, page) = disk
        .cache
        .put_verified("example", "home", b"{}", &big, "pin", now());
    assert!(chain.is_none());
    assert!(too_large(&page.unwrap_err()));
    assert!(disk.cache.entry("example", "home").is_none());
}

#[test]
fn pinned_entry_without_chain_is_dropped() {
    let mut disk = Disk::new();
    let pin = test_key(41).site_id();
    let p = rev_page("example", "home", 1);
    disk.put(&p);
    let entry = Entry {
        content_id: content_id_of(&page_json(&p)),
        fetched_at: now(),
        records_id: None,
        pin: Some(pin.clone()),
    };
    let index = disk.cache.index.as_mut().unwrap();
    index.pages.insert("example\u{1f}home".into(), entry);
    let lookup = |disk: &mut Disk, pin: &str| {
        let (chain, local) = (
            disk.local_chain("example", "home"),
            disk.local_page("example", "home"),
        );
        disk.cache
            .lookup_verified("example", "home", pin, chain, local, now())
    };
    // Another pin leaves the entry alone.
    assert!(lookup(&mut disk, &test_key(42).site_id()).is_none());
    assert!(disk.cache.entry("example", "home").is_some());
    assert!(lookup(&mut disk, &pin).is_none());
    assert!(disk.cache.entry("example", "home").is_none());
}

#[test]
fn session_with_cache_serves_stale_offline() {
    let mut disk = Disk::new();
    let store = store_of(&[test_page("example", "home")]);
    let mut session =
        ClientSession::new("127.0.0.1:7843").with_cache(OfflineCache::new("/cache", None));
    assert!(session.plan_open("example/home").unwrap().cached);
    let fetched = disk.fetch(Some(&store), "example", "home");
    session.open("example/home", fetched).unwrap();
    assert_eq!(session.last_status(), Some(CacheStatus::Fresh));
    let fetched = disk.fetch(None, "example", "home");
    session.open("example/home", fetched).unwrap();
    assert_eq!(session.last_status(), Some(CacheStatus::Stale));
    assert_eq!(session.history.current().unwrap().page.metadata.title, "T");
}

#[test]
fn session_with_cache_serves_verified_stale_offline() {
    let mut disk = Disk::new();
    let id = SiteIdentity::from_secret_bytes(&[27u8; 32]).unwrap();
    let store = signed_store(&[test_page("example", "home")], &id);
    let mut session = ClientSession::new("127.0.0.1:7843")
        .with_pin(Some(id.site_id()))
        .with_cache(OfflineCache::new("/cache", None));
    let errand = session.plan_open("example/home").unwrap();
    assert!(errand.cached);
    assert_eq!(errand.pin, Some(id.site_id()));
    let fetched = disk.fetch_verified(Some(&store), &id.site_id());
    session.open("example/home", fetched).unwrap();
    assert_eq!(session.last_status(), Some(CacheStatus::Fresh));
    let fetched = disk.fetch_verified(None, &id.site_id());
    session.open("example/home", fetched).unwrap();
    assert_eq!(session.last_status(), Some(CacheStatus::StaleVerified));
}

#[test]
fn nexus_binary_browses_back_forward_over_tcp() {
    let titled = |path: &str, title: &str| {
        let mut p = test_page("example", path);
        p.metadata.title = title.into();
        p
    };
    let store = store_of(&[titled("home", "Example Home"), titled("about", "About Nexus")]);
    let mut session = ClientSession::new("127.0.0.1:7843");
    open(&mut session, "example/home", Some(&store)).unwrap();
    let mut shown = session.render_current();
    let mut lists: Vec<String> = Vec::new();
    for line in ["g example/about", "h", "b", "f", "h", "q"] {
        match parse_command(line) {
            Command::Open(t) => open(&mut session, &t, Some(&store)).unwrap(),
            Command::Back => session.back().unwrap(),
            Command::Forward => session.forward().unwrap(),
            Command::History => lists.extend(history_lines(&session.history)),
            other => assert_eq!(other, Command::Quit),
        }
        shown += &session.render_current();
    }
    assert!(shown.contains("Example Home"));
    assert!(shown.contains("About Nexus"));
    // Two entries, the current one marked.
    assert!(lists.iter().any(|l| l.starts_with("=> 2. @example /about")));
    assert!(!lists.iter().any(|l| l.starts_with("=> 1. @example /home")));
}

#[test]
fn cached_navigation_follows_the_route() {
    let id = test_key(61);
    let store = signed_store(&[rev_page("example", "home", 1)], &id);
    let mut disk = Disk::new();
    // Without a pin: through the plain cache.
    let local = disk.local_page("example", "home");
    let reply = get_page(Some(&store), "example", "home");
    let c = navigate_cached(&route_to(None), &mut disk.cache, "example", "home", reply, local, now())
        .unwrap();
    assert!(matches!(c.fetch, CacheFetch::Served(_, CacheStatus::Fresh)));
    assert_eq!(c.writes.len(), 1);
    // With a pin: verified, the records stored beside the page.
    let route = route_to(Some(id.site_id()));
    let verified = |disk: &mut Disk, server: Server| {
        let chain = get_records(server, "example", "home");
        let chain_json = chain.records.as_ref().map(|r| chain_json(r)).unwrap_or_default();
        let v = VerifiedReply {
            page: get_page(server, "example", "home"),
            chain,
            chain_json,
            old_chain: disk.local_chain("example", "home"),
        };
        let local = disk.local_page("example", "home");
        let c = navigate_cached_verified(&route, &mut disk.cache, "example", "home", v, local, now())
            .unwrap();
        let n = c.writes.len();
        for w in c.writes {
            disk.write(w);
        }
        (c.fetch, n)
    };
    let (fetch, n) = verified(&mut disk, Some(&store));
    assert!(matches!(fetch, CacheFetch::Served(_, CacheStatus::Fresh)));
    assert_eq!(n, 2);
    let (fetch, n) = verified(&mut disk, None);
    assert!(matches!(fetch, CacheFetch::Served(_, CacheStatus::StaleVerified)));
    assert_eq!(n, 0);
    // An unknown site has no route.
    let local = disk.local_page("other", "home");
    let reply = get_page(Some(&store), "other", "home");
    assert!(matches!(
        navigate_cached(&route, &mut disk.cache, "other", "home", reply, local, now()),
        Err(BrowserError::Resolve(_))
    ));
}

#[test]
fn an_unreadable_index_is_started_anew() {
    let mut cache = OfflineCache::new("/cache", None);
    assert!(cache.cached_id("example", "home").is_none());
    let bytes = page_json(&test_page("example", "home"));
    let w = cache.put("example", "home", &bytes, 5).unwrap().unwrap();
    assert_eq!(w.bytes, bytes);
    assert_eq!(cache.cached_id("example", "home"), Some(content_id_of(&bytes)));
    assert!(cache.remove("example", "home"));
    assert!(!cache.remove("example", "home"));
    let big = vec![0u8; 4 * 1024 * 1024 + 1];
    assert!(matches!(
        cache.put("example", "home", &big, 5),
        Err(BrowserError::Cache(_))
    ));
}

/// Walks a site as a mirror does.
fn mirror(server: Server, site: &str, pin: Option<String>) -> Result<(Mirror, Vec<nexus::browser::mirror::MirrorPage>), BrowserError> {
    let listing = send(server, &list_line(site)?);
    let mut m = Mirror::start(site, pin.clone(), listing)?;
    let mut pages = Vec::new();
    while let Some(path) = m.next_path() {
        let records = match &pin {
            None => vec![],
            Some(_) => {
                let chain = get_records(server, site, &path);
                ask_next(site, &path, &pin, Some(chain))?.1
            }
        };
        let chain_json = chain_json(&records);
        let page = get_page(server, site, &path);
        pages.push(m.take_page(
            PathReply {
                records,
                chain_json,
                page,
            },
            now(),
        )?);
    }
    Ok((m, pages))
}

#[test]
fn nexus_sync_mirrors_site_to_dir() {
    let home = titled_page("example", "home", "Example Home");
    let about = titled_page("example", "about", "About Nexus");
    let store = store_of(&[home.clone(), about]);
    let (m, pages) = mirror(Some(&store), "example", None).unwrap();
    assert_eq!(
        m.report(),
        SyncReport {
            pages: 2,
            verified: 0,
            skipped: 0
        }
    );
    let names: Vec<String> = pages.iter().map(file_name).collect();
    assert_eq!(names, vec!["about.json", "home.json"]);
    assert_eq!(pages[1].bytes, page_json(&home));
}

#[test]
fn mirrored_files_follow_their_paths() {
    let store = store_of(&[test_page("example", "home"), test_page("example", "a/b")]);
    let (_, pages) = mirror(Some(&store), "example", None).unwrap();
    let names: Vec<String> = pages.iter().map(file_name).collect();
    assert_eq!(names, vec!["a/b.json", "home.json"]);
}

#[test]
fn cached_fetches_ask_for_records_of_good_pages_only() {
    assert!(matches!(
        ask_cached("example", "home", None),
        Ok(Some(Ask::Page(line))) if line == page_line("example", "home").unwrap()
    ));
    let store = store_of(&[test_page("example", "home")]);
    let good = get_page(Some(&store), "example", "home");
    assert!(matches!(
        ask_cached("example", "home", Some(&good)),
        Ok(Some(Ask::Records(line))) if line == records_line("example", "home").unwrap()
    ));
    let gone = get_page(Some(&store), "example", "gone");
    assert!(matches!(ask_cached("example", "gone", Some(&gone)), Ok(None)));
    let offline = get_page(None, "example", "home");
    assert!(matches!(ask_cached("example", "home", Some(&offline)), Ok(None)));
    assert!(matches!(
        ask_cached("BAD", "home", None),
        Err(BrowserError::Protocol(_))
    ));
}

#[test]
fn nexus_sync_verified_mirrors_with_chain() {
    let id = SiteIdentity::from_secret_bytes(&[51u8; 32]).unwrap();
    let store = signed_store(&[titled_page("example", "home", "Example Home")], &id);
    let (m, pages) = mirror(Some(&store), "example", Some(id.site_id())).unwrap();
    assert_eq!(
        m.report(),
        SyncReport {
            pages: 1,
            verified: 1,
            skipped: 0
        }
    );
    assert!(pages[0].chain_json.is_some());
    let other = SiteIdentity::from_secret_bytes(&[52u8; 32]).unwrap();
    assert!(matches!(
        mirror(Some(&store), "example", Some(other.site_id())),
        Err(BrowserError::PinMismatch { .. })
    ));
    let bare = store_of(&[test_page("example", "home")]);
    assert!(matches!(
        mirror(Some(&bare), "example", Some(id.site_id())),
        Err(BrowserError::PinRecordsRequired(_))
    ));
}

#[test]
fn nexus_export_pack_imports_into_fresh_store() {
    let id = SiteIdentity::from_secret_bytes(&[61u8; 32]).unwrap();
    let store = signed_store(&[titled_page("example", "home", "Example Home")], &id);
    let (_, pages) = mirror(Some(&store), "example", Some(id.site_id())).unwrap();
    let pack = export_site(&pages).unwrap();
    let parsed: Vec<PackedPage> = nexus::storage::FsStore::unpack(&pack)
        .unwrap()
        .iter()
        .map(|(_, b)| {
            let page = read_page(b);
            let canonical = page.as_ref().map(page_json).unwrap_or_default();
            PackedPage { page, canonical }
        })
        .collect();
    let mut fresh = SiteStore::new();
    let report = fresh.load_pack(&pack, &parsed).unwrap();
    assert_eq!((report.pages, report.chains, report.skipped), (1, 1, 0));
    let page = read_page(fresh.get("example", "home").unwrap()).unwrap();
    assert_eq!(page.metadata.title, "Example Home");
    let records = read_chain(fresh.get_records("example", "home").unwrap()).unwrap();
    id.verify_record(&records[0], 1_000_000).unwrap();
    assert_eq!(
        verified(&fresh, id.site_id()).unwrap().metadata.title,
        "Example Home"
    );
}

#[test]
fn status_is_that_of_the_page_shown() {
    let mut session = ClientSession::new("127.0.0.1:9");
    assert_eq!(session.last_status(), None);
    let open = |s: &mut ClientSession, path: &str, status| {
        let page = test_page("example", path);
        s.open(&format!("example/{path}"), Ok((page, status))).unwrap();
    };
    open(&mut session, "a", CacheStatus::Stale);
    open(&mut session, "b", CacheStatus::Fresh);
    assert_eq!(session.last_status(), Some(CacheStatus::Fresh));
    session.back().unwrap();
    assert_eq!(session.last_status(), Some(CacheStatus::Stale));
    session
        .reload(Ok((test_page("example", "a"), CacheStatus::StaleVerified)))
        .unwrap();
    assert_eq!(session.last_status(), Some(CacheStatus::StaleVerified));
    session.forward().unwrap();
    assert_eq!(session.last_status(), Some(CacheStatus::Fresh));
    session.back().unwrap();
    open(&mut session, "c", CacheStatus::Stale);
    assert_eq!(session.last_status(), Some(CacheStatus::Stale));
    assert!(session
        .open("example/d", Err(BrowserError::Content("x".into())))
        .is_err());
    assert_eq!(session.last_status(), Some(CacheStatus::Stale));
}

#[test]
fn hostile_listings_get_no_further() {
    let listing = Ok((200, br#"["../evil","home","/abs","a b"]"#.to_vec()));
    let mut m = Mirror::start("example", None, listing).unwrap();
    assert_eq!(m.next_path(), Some("home".into()));
    assert_eq!(m.report().skipped, 1);
    let store = store_of(&[test_page("example", "home")]);
    let page = get_page(Some(&store), "example", "home");
    m.take_page(
        PathReply {
            records: vec![],
            chain_json: vec![],
            page,
        },
        now(),
    )
    .unwrap();
    assert_eq!(m.next_path(), None);
    assert_eq!(
        m.report(),
        SyncReport {
            pages: 1,
            verified: 0,
            skipped: 3
        }
    );
    assert!(matches!(
        Mirror::start("example", None, Ok((200, b"{}".to_vec()))),
        Err(BrowserError::Content(e)) if e.starts_with("bad LIST body: ")
    ));
    assert!(matches!(
        Mirror::start("example", None, Ok((404, b"unknown site".to_vec()))),
        Err(BrowserError::Status(404, _))
    ));
}

#[test]
fn each_error_of_the_browser_has_its_words() {
    assert_eq!(
        parse_target("example/..").unwrap_err().to_string(),
        "bad target '..': invalid path"
    );
    assert_eq!(
        parse_target("/x").unwrap_err().to_string(),
        "bad target '/x': empty site or path"
    );
    assert_eq!(
        BrowserError::PinRecordsRequired("k".into()).to_string(),
        "route pins site k but no signed records were provided; refusing to fetch"
    );
    assert_eq!(
        BrowserError::PinMismatch {
            site: "s".into(),
            path: "p".into(),
            reason: "r".into()
        }
        .to_string(),
        "pinned page verification failed for s/p: r"
    );
    assert_eq!(BrowserError::Cache("c".into()).to_string(), "cache: c");
}
