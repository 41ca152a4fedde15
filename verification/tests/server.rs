//! The server: what it holds, what it answers, how it is filled.

use nexus::content::{
    content_id_of, Capability, Component, LinkTarget, Metadata, Page, Props,
};
use nexus::identity::{ResourceRecord, SignedRecord, SiteIdentity};
use nexus::protocol::{
    encode_conditional_request, encode_list_request, encode_records_request, parse_request,
    split_response, ConditionalFetch, ListRequest, RecordsRequest,
};
use nexus::server::load::{DirFile, PackedPage, SiteFile};
use nexus::server::{
    busy_response, handle_one, try_acquire, ServerError, SiteStore, DEFAULT_MAX_CONNECTIONS,
};
use nexus::storage::pack_blobs;

fn quoted(s: &str) -> String {
    serde_json::to_string(s).unwrap()
}

fn target_json(t: &LinkTarget) -> String {
    match t {
        LinkTarget::Page { site, path } => format!(
            "{{\"kind\":\"page\",\"site\":{},\"path\":{}}}",
            quoted(site),
            quoted(path)
        ),
        LinkTarget::External { hint } => {
            format!("{{\"kind\":\"external\",\"hint\":{}}}", quoted(hint))
        }
        LinkTarget::Action { action_id } => {
            format!("{{\"kind\":\"action\",\"action_id\":{}}}", quoted(action_id))
        }
    }
}

fn component_json(c: &Component) -> String {
    match c {
        Component::Text { text } => format!("{{\"type\":\"text\",\"text\":{}}}", quoted(text)),
        Component::Heading { level, text } => format!(
            "{{\"type\":\"heading\",\"level\":{level},\"text\":{}}}",
            quoted(text)
        ),
        Component::Image { content_id, alt } => format!(
            "{{\"type\":\"image\",\"content_id\":{},\"alt\":{}}}",
            quoted(content_id),
            quoted(alt)
        ),
        Component::Link { label, target } => format!(
            "{{\"type\":\"link\",\"label\":{},\"target\":{}}}",
            quoted(label),
            target_json(target)
        ),
        Component::Collection { items } => format!(
            "{{\"type\":\"collection\",\"items\":[{}]}}",
            items.iter().map(component_json).collect::<Vec<_>>().join(",")
        ),
        Component::App { app_id, props } => format!(
            "{{\"type\":\"app\",\"app_id\":{},\"props\":{}}}",
            quoted(app_id),
            match props {
                Props::Null => "null",
                Props::Json(text) => text.as_str(),
            }
        ),
    }
}

fn capability_json(c: &Capability) -> String {
    match c {
        Capability::Storage { max_kb } => {
            format!("{{\"kind\":\"storage\",\"max_kb\":{max_kb}}}")
        }
        Capability::Network { hosts } => format!(
            "{{\"kind\":\"network\",\"hosts\":[{}]}}",
            hosts.iter().map(|h| quoted(h)).collect::<Vec<_>>().join(",")
        ),
        Capability::Notify => "{\"kind\":\"notify\"}".into(),
        Capability::Audio => "{\"kind\":\"audio\"}".into(),
        Capability::Camera => "{\"kind\":\"camera\"}".into(),
        Capability::Microphone => "{\"kind\":\"microphone\"}".into(),
    }
}

/// The canonical JSON of a page.
fn page_json(p: &Page) -> Vec<u8> {
    let m = &p.metadata;
    format!(
        "{{\"metadata\":{{\"schema\":{},\"site\":{},\"path\":{},\"title\":{},\"revision\":{}}},\
         \"components\":[{}],\"capabilities\":[{}]}}",
        m.schema,
        quoted(&m.site),
        quoted(&m.path),
        quoted(&m.title),
        m.revision,
        p.components.iter().map(component_json).collect::<Vec<_>>().join(","),
        p.capabilities.iter().map(capability_json).collect::<Vec<_>>().join(",")
    )
    .into_bytes()
}

fn text_at(v: &serde_json::Value, key: &str) -> Result<String, String> {
    v[key]
        .as_str()
        .map(str::to_owned)
        .ok_or_else(|| format!("missing field `{key}`"))
}

fn number_at(v: &serde_json::Value, key: &str, most: u64) -> Result<u64, String> {
    v[key]
        .as_u64()
        .filter(|n| *n <= most)
        .ok_or_else(|| format!("missing field `{key}`"))
}

fn list_at<'a>(v: &'a serde_json::Value, key: &str) -> Result<&'a Vec<serde_json::Value>, String> {
    v[key]
        .as_array()
        .ok_or_else(|| format!("missing field `{key}`"))
}

fn target_of(v: &serde_json::Value) -> Result<LinkTarget, String> {
    match v["kind"].as_str() {
        Some("page") => Ok(LinkTarget::Page {
            site: text_at(v, "site")?,
            path: text_at(v, "path")?,
        }),
        Some("external") => Ok(LinkTarget::External {
            hint: text_at(v, "hint")?,
        }),
        Some("action") => Ok(LinkTarget::Action {
            action_id: text_at(v, "action_id")?,
        }),
        _ => Err("unknown kind".into()),
    }
}

fn component_of(v: &serde_json::Value) -> Result<Component, String> {
    match v["type"].as_str() {
        Some("text") => Ok(Component::Text {
            text: text_at(v, "text")?,
        }),
        Some("heading") => Ok(Component::Heading {
            level: number_at(v, "level", 255)? as u8,
            text: text_at(v, "text")?,
        }),
        Some("image") => Ok(Component::Image {
            content_id: text_at(v, "content_id")?,
            alt: text_at(v, "alt")?,
        }),
        Some("link") => Ok(Component::Link {
            label: text_at(v, "label")?,
            target: target_of(&v["target"])?,
        }),
        Some("collection") => Ok(Component::Collection {
            items: list_at(v, "items")?
                .iter()
                .map(component_of)
                .collect::<Result<_, _>>()?,
        }),
        Some("app") => Ok(Component::App {
            app_id: text_at(v, "app_id")?,
            props: match &v["props"] {
                serde_json::Value::Null => Props::Null,
                other => Props::Json(other.to_string()),
            },
        }),
        _ => Err("unknown type".into()),
    }
}

fn capability_of(v: &serde_json::Value) -> Result<Capability, String> {
    match v["kind"].as_str() {
        Some("storage") => Ok(Capability::Storage {
            max_kb: number_at(v, "max_kb", u32::MAX as u64)? as u32,
        }),
        Some("network") => Ok(Capability::Network {
            hosts: list_at(v, "hosts")?
                .iter()
                .map(|h| h.as_str().map(str::to_owned).ok_or("no host".to_string()))
                .collect::<Result<_, _>>()?,
        }),
        Some("notify") => Ok(Capability::Notify),
        Some("audio") => Ok(Capability::Audio),
        Some("camera") => Ok(Capability::Camera),
        Some("microphone") => Ok(Capability::Microphone),
        _ => Err("unknown kind".into()),
    }
}

fn page_of(v: &serde_json::Value) -> Result<Page, String> {
    let m = &v["metadata"];
    Ok(Page {
        metadata: Metadata {
            schema: number_at(m, "schema", u32::MAX as u64)? as u32,
            site: text_at(m, "site")?,
            path: text_at(m, "path")?,
            title: text_at(m, "title")?,
            revision: number_at(m, "revision", u64::MAX)?,
        },
        components: list_at(v, "components")?
            .iter()
            .map(component_of)
            .collect::<Result<_, _>>()?,
        capabilities: match &v["capabilities"] {
            serde_json::Value::Null => vec![],
            list => list
                .as_array()
                .ok_or("capabilities")?
                .iter()
                .map(capability_of)
                .collect::<Result<_, _>>()?,
        },
    })
}

/// What the JSON reader makes of some bytes.
fn read_page(bytes: &[u8]) -> Result<Page, String> {
    let v: serde_json::Value = serde_json::from_slice(bytes).map_err(|e| e.to_string())?;
    page_of(&v)
}

/// The JSON array of signed records.
fn chain_json(records: &[SignedRecord]) -> Vec<u8> {
    let list: Vec<serde_json::Value> = records
        .iter()
        .map(|s| {
            let mut r = serde_json::Map::new();
            r.insert("site".into(), s.record.site.clone().into());
            r.insert("path".into(), s.record.path.clone().into());
            r.insert("content_hash".into(), s.record.content_hash.clone().into());
            r.insert("expires_at_unix".into(), s.record.expires_at_unix.into());
            let mut m = serde_json::Map::new();
            m.insert("record".into(), r.into());
            m.insert("signature_hex".into(), s.signature_hex.clone().into());
            m.into()
        })
        .collect();
    serde_json::to_vec(&list).unwrap()
}

/// The signed records of a JSON array.
fn read_chain(bytes: &[u8]) -> Result<Vec<SignedRecord>, String> {
    let list: Vec<serde_json::Value> = serde_json::from_slice(bytes).map_err(|e| e.to_string())?;
    list.iter()
        .map(|v| {
            Ok(SignedRecord {
                record: ResourceRecord {
                    site: text_at(&v["record"], "site")?,
                    path: text_at(&v["record"], "path")?,
                    content_hash: text_at(&v["record"], "content_hash")?,
                    expires_at_unix: number_at(&v["record"], "expires_at_unix", u64::MAX)?,
                },
                signature_hex: text_at(v, "signature_hex")?,
            })
        })
        .collect()
}

fn page(site: &str, path: &str) -> Page {
    Page {
        metadata: Metadata {
            schema: 1,
            site: site.into(),
            path: path.into(),
            title: "T".into(),
            revision: 1,
        },
        components: vec![Component::Text { text: "hi".into() }],
        capabilities: vec![],
    }
}

fn page_bytes(site: &str, path: &str) -> Vec<u8> {
    page_json(&page(site, path))
}

/// The canonical form of the page that some bytes hold.
fn canonical(bytes: &[u8]) -> Result<Vec<u8>, String> {
    Page::from_json(bytes, read_page(bytes))
        .map(|p| page_json(&p))
        .map_err(|e| e.to_string())
}

fn insert(s: &mut SiteStore, site: &str, path: &str) {
    let bytes = page_bytes(site, path);
    let form = canonical(&bytes);
    s.insert(site, path, bytes, form);
}

/// Signs all pages and publishes the records.
fn sign_and_publish(s: &mut SiteStore, id: &SiteIdentity, expires: u64) -> usize {
    let signed = s.sign_pages(id, expires).unwrap();
    s.publish(
        signed
            .into_iter()
            .map(|p| (p.site, p.path, chain_json(&[p.record])))
            .collect(),
    )
}

/// Code and body of the response to a line.
fn ask(store: &SiteStore, line: &str) -> (u16, Vec<u8>) {
    let frame = handle_one(line, store).unwrap();
    let (h, body) = split_response(&frame).unwrap();
    (h.code, body.to_vec())
}

fn fetch_line(site: &str, path: &str, if_id: Option<String>) -> String {
    encode_conditional_request(&ConditionalFetch {
        site: site.into(),
        path: path.into(),
        if_id,
    })
    .unwrap()
}

fn records_line(site: &str, path: &str) -> String {
    encode_records_request(&RecordsRequest {
        site: site.into(),
        path: path.into(),
    })
    .unwrap()
}

#[test]
fn store_get() {
    let mut s = SiteStore::new();
    insert(&mut s, "example", "home");
    assert!(s.get("example", "home").is_some());
    assert!(s.get("example", "missing").is_none());
}

#[test]
fn end_to_end_tcp() {
    let mut store = SiteStore::new();
    insert(&mut store, "example", "home");
    let (code, body) = ask(&store, &fetch_line("example", "home", None));
    assert_eq!(code, 200);
    let page = Page::from_json(&body, read_page(&body)).unwrap();
    assert_eq!(page.metadata.site, "example");
}

#[test]
fn missing_returns_404_bytes() {
    let store = SiteStore::new();
    let (code, body) = ask(&store, &fetch_line("example", "nope", None));
    assert_eq!(code, 404);
    assert_eq!(body, b"not found");
}

#[test]
fn records_roundtrip_over_tcp() {
    let id = SiteIdentity::generate();
    let mut store = SiteStore::new();
    insert(&mut store, "example", "home");
    let n = sign_and_publish(&mut store, &id, 9_999_999_999);
    assert_eq!(n, 1);
    let want = content_id_of(&canonical(store.get("example", "home").unwrap()).unwrap());
    let (code, body) = ask(&store, &records_line("example", "home"));
    assert_eq!(code, 200);
    let records = read_chain(&body).unwrap();
    assert_eq!(records.len(), 1);
    // The served record verifies and vouches for the served page.
    id.verify_record(&records[0], 1_000_000).unwrap();
    assert_eq!(records[0].record.content_hash, want);
}

#[test]
fn records_missing_without_key() {
    // A store that never signed has no records: 404, not 400.
    let mut store = SiteStore::new();
    insert(&mut store, "example", "home");
    let (code, _) = ask(&store, &records_line("example", "home"));
    assert_eq!(code, 404);
}

#[test]
fn unknown_verb_still_400() {
    let store = SiteStore::new();
    let (code, body) = ask(&store, "NXP/0.1 DELETE example home\n");
    assert_eq!(code, 400);
    assert_eq!(body, b"bad request");
}

#[test]
fn resign_refresh_bumps_expiry() {
    let id = SiteIdentity::generate();
    let mut store = SiteStore::new();
    insert(&mut store, "example", "home");
    store.set_signer(id.clone(), 3600);
    sign_and_publish(&mut store, &id, 1_000);
    let first = read_chain(store.get_records("example", "home").unwrap()).unwrap();
    assert_eq!(first[0].record.expires_at_unix, 1_000);
    // A later signing round replaces (not appends) the chain.
    sign_and_publish(&mut store, &id, 2_000);
    let second = read_chain(store.get_records("example", "home").unwrap()).unwrap();
    assert_eq!(second.len(), 1);
    assert_eq!(second[0].record.expires_at_unix, 2_000);
    id.verify_record(&second[0], 1_500).unwrap();
}

#[test]
fn background_resign_refreshes_served_records() {
    let id = SiteIdentity::generate();
    let mut store = SiteStore::new();
    insert(&mut store, "example", "home");
    // Without an identity nothing is signed.
    assert!(store.resign(5).is_none());
    store.set_signer(id.clone(), 3600);
    let now = 1_700_000_000;
    let fresh = store.resign(now).unwrap().unwrap();
    assert_eq!(fresh[0].record.record.expires_at_unix, now + 3600);
    id.verify_record(&fresh[0].record, now).unwrap();
    // The term ends with time itself.
    let last = store.resign(u64::MAX - 1).unwrap().unwrap();
    assert_eq!(last[0].record.record.expires_at_unix, u64::MAX);
}

#[test]
fn signing_needs_pages_and_a_secret() {
    let id = SiteIdentity::generate();
    let mut store = SiteStore::new();
    insert(&mut store, "example", "home");
    let public = SiteIdentity::from_public_bytes(&id.public_bytes()).unwrap();
    assert!(matches!(
        store.sign_pages(&public, 10),
        Err(ServerError::Content(e)) if e == "bad signature: no secret key"
    ));
    store.insert("example", "bad", b"nope".to_vec(), canonical(b"nope"));
    assert!(matches!(
        store.sign_pages(&id, 10),
        Err(ServerError::Content(_))
    ));
    assert!(SiteStore::new().sign_pages(&public, 10).unwrap().is_empty());
}

#[test]
fn connection_cap_rejects_excess_with_503() {
    assert_eq!(try_acquire(0, 2), Some(1));
    assert_eq!(try_acquire(1, 2), Some(2));
    assert_eq!(try_acquire(2, 2), None);
    assert_eq!(try_acquire(0, 0), None);
    assert_eq!(DEFAULT_MAX_CONNECTIONS, 64);
    let frame = busy_response().unwrap();
    let (h, body) = split_response(&frame).unwrap();
    assert_eq!((h.code, body), (503, &b"server busy"[..]));
}

#[test]
fn list_serves_sorted_paths_and_404s_unknown_site() {
    let mut store = SiteStore::new();
    insert(&mut store, "example", "home");
    insert(&mut store, "example", "about");
    assert_eq!(store.list_paths("example"), vec!["about", "home"]);
    assert!(store.list_paths("ghost").is_empty());

    let list = |site: &str| encode_list_request(&ListRequest { site: site.into() }).unwrap();
    let (code, body) = ask(&store, &list("example"));
    assert_eq!(code, 200);
    assert_eq!(body, br#"["about","home"]"#);
    let paths: Vec<String> = serde_json::from_slice(&body).unwrap();
    assert_eq!(paths, vec!["about", "home"]);

    let (code, body) = ask(&store, &list("ghost"));
    assert_eq!(code, 404);
    assert_eq!(body, b"unknown site");
}

#[test]
fn endpoint_records_serve_over_at_namespace() {
    let mut store = SiteStore::new();
    store.insert_endpoint_records("alice", br#"[{"record":{"site":"s","path":"@alice","content_hash":"b3:x","expires_at_unix":9},"signature_hex":"aa"}]"#.to_vec());
    assert_eq!(store.endpoint_routes(), vec!["alice"]);
    let (code, body) = ask(&store, &records_line("alice", "@alice"));
    assert_eq!(code, 200);
    assert!(body.starts_with(b"["));

    // Malformed lines are 400, never served.
    let (code, _) = ask(&store, "NXP/0.1 RECORDS alice @other\n");
    assert_eq!(code, 400);
    let (code, _) = ask(&store, "NXP/0.1 RECORDS alice @\n");
    assert_eq!(code, 400);
    // Unknown name with well-formed @: 404, not 400.
    let (code, body) = ask(&store, &records_line("ghost", "@ghost"));
    assert_eq!(code, 404);
    assert_eq!(body, b"no records");
}

fn dir_file(name: &str, bytes: &[u8]) -> DirFile {
    let (stem, extension) = match name.rfind('.') {
        Some(i) if i > 0 => (&name[..i], Some(name[i + 1..].to_string())),
        _ => (name, None),
    };
    DirFile {
        display: format!("dir/{name}"),
        extension,
        stem: Some(stem.to_string()),
        bytes: Ok(bytes.to_vec()),
    }
}

fn site_file(name: &str, bytes: &[u8]) -> Result<SiteFile, String> {
    let page = read_page(bytes);
    let canonical = page.as_ref().map(page_json).unwrap_or_default();
    Ok(SiteFile {
        file: dir_file(name, bytes),
        page,
        canonical,
    })
}

fn endpoint_file(name: &str, bytes: &[u8]) -> Result<DirFile, String> {
    Ok(dir_file(name, bytes))
}

#[test]
fn endpoints_subdir_loads_and_rejects_garbage() {
    let files = || vec![site_file("home.json", &page_bytes("example", "home"))];
    let mut store = SiteStore::new();
    let good = Ok(vec![endpoint_file("alice.json", b"[]")]);
    assert_eq!(store.load_dir("example", &files(), &good).unwrap(), 1);
    assert_eq!(store.endpoint_routes(), vec!["alice"]);

    // Non-array JSON and bad names fail loud.
    let text = |r: Result<usize, ServerError>| r.unwrap_err().to_string();
    let mut bad = SiteStore::new();
    let no_array = Ok(vec![endpoint_file("bob.json", b"{}")]);
    assert_eq!(
        text(bad.load_dir("example", &files(), &no_array)),
        "content: dir/bob.json: endpoint chain must be a JSON array"
    );
    let bad_name = Ok(vec![
        endpoint_file("bob.json", b"[]"),
        endpoint_file("BAD.json", b"[]"),
    ]);
    assert_eq!(
        text(bad.load_dir("example", &files(), &bad_name)),
        "content: bad endpoint name in dir/BAD.json"
    );
    let no_json = Ok(vec![endpoint_file("bob.json", b"x")]);
    assert!(text(bad.load_dir("example", &files(), &no_json)).contains("dir/bob.json: "));
    assert!(bad.load_dir("example", &files(), &Err("denied".into())).is_err());
    // Nothing of the failed loads is there.
    assert!(bad.routes().is_empty());
    assert!(bad.endpoint_routes().is_empty());
}

#[test]
fn loads_json_only_and_skips_others() {
    let mut store = SiteStore::new();
    let files = vec![
        site_file("a.json", &page_bytes("example", "a")),
        site_file("b.txt", b"not a page"),
        site_file("home.json", &page_bytes("example", "home")),
    ];
    assert_eq!(store.load_dir("example", &files, &Ok(vec![])).unwrap(), 2);
    assert!(store.get("example", "a").is_some());
    assert!(store.get("example", "home").is_some());
    assert!(store.get("example", "b").is_none());
    assert_eq!(
        store.routes(),
        vec![
            ("example".to_string(), "a".to_string()),
            ("example".to_string(), "home".to_string())
        ]
    );
}

#[test]
fn metadata_mismatch_aborts_loud() {
    let mut store = SiteStore::new();
    let files = vec![
        site_file("a.json", &page_bytes("example", "a")),
        site_file("evil.json", &page_bytes("example", "other")),
    ];
    assert!(matches!(
        store.load_dir("example", &files, &Ok(vec![])),
        Err(ServerError::Content(e)) if e == "metadata mismatch in dir/evil.json: expected example/evil"
    ));
    // Nothing from the aborted load is served.
    assert!(store.get("example", "a").is_none());
}

#[test]
fn broken_symlink_aborts_loud() {
    let mut store = SiteStore::new();
    let gone = SiteFile {
        file: DirFile {
            bytes: Err("no such file".into()),
            ..dir_file("gone.json", b"")
        },
        page: Err("nothing".into()),
        canonical: vec![],
    };
    let files = vec![site_file("a.json", &page_bytes("example", "a")), Ok(gone)];
    assert!(matches!(
        store.load_dir("example", &files, &Ok(vec![])),
        Err(ServerError::Content(_))
    ));
    let files = vec![Err("unreadable entry".to_string())];
    assert!(store.load_dir("example", &files, &Ok(vec![])).is_err());
    let nameless = SiteFile {
        file: DirFile {
            stem: None,
            ..dir_file("x.json", b"")
        },
        page: Err("nothing".into()),
        canonical: vec![],
    };
    assert!(matches!(
        store.load_dir("example", &vec![Ok(nameless)], &Ok(vec![])),
        Err(ServerError::Content(e)) if e == "bad filename"
    ));
}

#[test]
fn dot_stem_page_loads_documented() {
    let mut store = SiteStore::new();
    let files = vec![site_file("..json", &page_bytes("example", "."))];
    assert_eq!(store.load_dir("example", &files, &Ok(vec![])).unwrap(), 1);
    assert!(store.get("example", ".").is_some());
}

#[test]
fn unvalidated_site_and_stem_documented() {
    let mut store = SiteStore::new();
    let files = vec![site_file("a.json", &page_bytes("ExamplE", "a"))];
    assert_eq!(store.load_dir("ExamplE", &files, &Ok(vec![])).unwrap(), 1);
    assert!(store.get("ExamplE", "a").is_some());
    // Uppercase site passes the in-memory store but fails the wire parser.
    assert!(parse_request("NXP/0.1 FETCH ExamplE a\n").is_err());
}

fn packed(blobs: &[Vec<u8>]) -> (Vec<u8>, Vec<PackedPage>) {
    let parsed = blobs
        .iter()
        .map(|b| {
            let page = read_page(b);
            let canonical = page.as_ref().map(page_json).unwrap_or_default();
            PackedPage { page, canonical }
        })
        .collect();
    (pack_blobs(&blobs.to_vec()).unwrap(), parsed)
}

#[test]
fn load_pack_roundtrip_pages_and_chains() {
    let page = page_bytes("example", "home");
    let id = SiteIdentity::generate();
    let content_id = content_id_of(&canonical(&page).unwrap());
    let chain = chain_json(&[id.sign_record("home", &content_id, 9_999_999_999).unwrap()]);
    // An opaque blob rides along and is skipped, not admitted.
    let (pack, parsed) = packed(&[page, chain, b"just bytes".to_vec()]);

    let mut store = SiteStore::new();
    let report = store.load_pack(&pack, &parsed).unwrap();
    assert_eq!((report.pages, report.chains, report.skipped), (1, 1, 1));
    assert!(store.get("example", "home").is_some());
    // The chain verifies against the loaded page.
    let records = read_chain(store.get_records("example", "home").unwrap()).unwrap();
    id.verify_record(&records[0], 1_000_000).unwrap();
}

#[test]
fn load_pack_rejects_tampered_and_bad_metadata() {
    let (mut pack, parsed) = packed(&[b"nope".to_vec()]);
    // Flip a payload byte: whole pack rejected, store untouched.
    let flip_at = pack.len() - 1;
    pack[flip_at] ^= 0xff;
    let mut store = SiteStore::new();
    assert!(store.load_pack(&pack, &parsed).is_err());
    assert!(store.get("example", "home").is_none());

    // A page claiming an illegal site is skipped, not admitted.
    let (pack, parsed) = packed(&[page_bytes("EVIL", "home")]);
    let report = store.load_pack(&pack, &parsed).unwrap();
    assert_eq!((report.pages, report.chains, report.skipped), (0, 0, 1));
}

#[test]
fn chains_without_a_page_keep_their_own_site() {
    let chain = br#"[{"record":{"site":"abc","path":"lost"},"signature_hex":"aa"}]"#.to_vec();
    let mixed =
        br#"[{"record":{"site":"abc","path":"x"},"signature_hex":"aa"},{"record":{"site":"abc","path":"y"},"signature_hex":"aa"}]"#
            .to_vec();
    let unsigned = br#"[{"record":{"site":"abc","path":"x"}}]"#.to_vec();
    let endpoint = br#"[{"record":{"site":"abc","path":"@abc"},"signature_hex":"aa"}]"#.to_vec();
    let (pack, parsed) = packed(&[chain.clone(), mixed, unsigned, endpoint, b"[]".to_vec()]);
    let mut store = SiteStore::new();
    let report = store.load_pack(&pack, &parsed).unwrap();
    assert_eq!((report.pages, report.chains, report.skipped), (0, 2, 3));
    assert_eq!(store.get_records("abc", "lost").unwrap(), &chain[..]);
}

#[test]
fn fetch_precondition_304_when_unchanged() {
    let mut store = SiteStore::new();
    insert(&mut store, "example", "home");
    let id = content_id_of(&canonical(store.get("example", "home").unwrap()).unwrap());
    // Matching id: 304 with an empty body.
    let (code, body) = ask(&store, &fetch_line("example", "home", Some(id)));
    assert_eq!(code, 304);
    assert!(body.is_empty());
    // Stale id: full 200.
    let stale = Some(format!("b3:{}", "00".repeat(32)));
    let (code, body) = ask(&store, &fetch_line("example", "home", stale));
    assert_eq!(code, 200);
    assert!(!body.is_empty());
    // No precondition: full 200 (backwards compatible).
    let (code, _) = ask(&store, &fetch_line("example", "home", None));
    assert_eq!(code, 200);
    // Bytes that are no page never match.
    store.insert("example", "odd", b"odd".to_vec(), Err("no page".into()));
    let odd = Some(content_id_of(b"odd"));
    let (code, body) = ask(&store, &fetch_line("example", "odd", odd));
    assert_eq!((code, &body[..]), (200, &b"odd"[..]));
}

#[test]
fn bodies_beyond_the_most_are_an_error() {
    let mut store = SiteStore::new();
    let big = vec![b'x'; 1024 * 1024 + 1];
    store.insert("example", "big", big, Err("too large".into()));
    assert!(matches!(
        handle_one(&fetch_line("example", "big", None), &store),
        Err(ServerError::Protocol(_))
    ));
}
