//! Pages: what is valid, what they are named after, how they look.

use std::collections::HashMap;

use nexus::content::{
    content_id_of, is_content_id, Capability, Component, ContentError, LinkTarget, Metadata, Page,
    Props, Reference, ReferenceResolver, Resource,
};
use nexus::renderer::render_text;
use nexus::text::is_white_char;

fn quoted(s: &str) -> String {
    serde_json::to_string(s).unwrap()
}

fn target_json(t: &LinkTarget) -> String {
    match t {
        LinkTarget::Page { site, path } => format!(
            "{{\"kind\":\"page\",\"site\":{},\"path\":{}}}",
            quoted(site),
            quoted(path)
        ),
        LinkTarget::External { hint } => {
            format!("{{\"kind\":\"external\",\"hint\":{}}}", quoted(hint))
        }
        LinkTarget::Action { action_id } => {
            format!("{{\"kind\":\"action\",\"action_id\":{}}}", quoted(action_id))
        }
    }
}

fn component_json(c: &Component) -> String {
    match c {
        Component::Text { text } => format!("{{\"type\":\"text\",\"text\":{}}}", quoted(text)),
        Component::Heading { level, text } => format!(
            "{{\"type\":\"heading\",\"level\":{level},\"text\":{}}}",
            quoted(text)
        ),
        Component::Image { content_id, alt } => format!(
            "{{\"type\":\"image\",\"content_id\":{},\"alt\":{}}}",
            quoted(content_id),
            quoted(alt)
        ),
        Component::Link { label, target } => format!(
            "{{\"type\":\"link\",\"label\":{},\"target\":{}}}",
            quoted(label),
            target_json(target)
        ),
        Component::Collection { items } => format!(
            "{{\"type\":\"collection\",\"items\":[{}]}}",
            items.iter().map(component_json).collect::<Vec<_>>().join(",")
        ),
        Component::App { app_id, props } => format!(
            "{{\"type\":\"app\",\"app_id\":{},\"props\":{}}}",
            quoted(app_id),
            match props {
                Props::Null => "null",
                Props::Json(text) => text.as_str(),
            }
        ),
    }
}

fn capability_json(c: &Capability) -> String {
    match c {
        Capability::Storage { max_kb } => {
            format!("{{\"kind\":\"storage\",\"max_kb\":{max_kb}}}")
        }
        Capability::Network { hosts } => format!(
            "{{\"kind\":\"network\",\"hosts\":[{}]}}",
            hosts.iter().map(|h| quoted(h)).collect::<Vec<_>>().join(",")
        ),
        Capability::Notify => "{\"kind\":\"notify\"}".into(),
        Capability::Audio => "{\"kind\":\"audio\"}".into(),
        Capability::Camera => "{\"kind\":\"camera\"}".into(),
        Capability::Microphone => "{\"kind\":\"microphone\"}".into(),
    }
}

/// The canonical JSON of a page.
fn page_json(p: &Page) -> Vec<u8> {
    let m = &p.metadata;
    format!(
        "{{\"metadata\":{{\"schema\":{},\"site\":{},\"path\":{},\"title\":{},\"revision\":{}}},\
         \"components\":[{}],\"capabilities\":[{}]}}",
        m.schema,
        quoted(&m.site),
        quoted(&m.path),
        quoted(&m.title),
        m.revision,
        p.components.iter().map(component_json).collect::<Vec<_>>().join(","),
        p.capabilities.iter().map(capability_json).collect::<Vec<_>>().join(",")
    )
    .into_bytes()
}

fn text_at(v: &serde_json::Value, key: &str) -> Result<String, String> {
    v[key]
        .as_str()
        .map(str::to_owned)
        .ok_or_else(|| format!("missing field `{key}`"))
}

fn number_at(v: &serde_json::Value, key: &str, most: u64) -> Result<u64, String> {
    v[key]
        .as_u64()
        .filter(|n| *n <= most)
        .ok_or_else(|| format!("missing field `{key}`"))
}

fn list_at<'a>(v: &'a serde_json::Value, key: &str) -> Result<&'a Vec<serde_json::Value>, String> {
    v[key]
        .as_array()
        .ok_or_else(|| format!("missing field `{key}`"))
}

fn target_of(v: &serde_json::Value) -> Result<LinkTarget, String> {
    match v["kind"].as_str() {
        Some("page") => Ok(LinkTarget::Page {
            site: text_at(v, "site")?,
            path: text_at(v, "path")?,
        }),
        Some("external") => Ok(LinkTarget::External {
            hint: text_at(v, "hint")?,
        }),
        Some("action") => Ok(LinkTarget::Action {
            action_id: text_at(v, "action_id")?,
        }),
        _ => Err("unknown kind".into()),
    }
}

fn component_of(v: &serde_json::Value) -> Result<Component, String> {
    match v["type"].as_str() {
        Some("text") => Ok(Component::Text {
            text: text_at(v, "text")?,
        }),
        Some("heading") => Ok(Component::Heading {
            level: number_at(v, "level", 255)? as u8,
            text: text_at(v, "text")?,
        }),
        Some("image") => Ok(Component::Image {
            content_id: text_at(v, "content_id")?,
            alt: text_at(v, "alt")?,
        }),
        Some("link") => Ok(Component::Link {
            label: text_at(v, "label")?,
            target: target_of(&v["target"])?,
        }),
        Some("collection") => Ok(Component::Collection {
            items: list_at(v, "items")?
                .iter()
                .map(component_of)
                .collect::<Result<_, _>>()?,
        }),
        Some("app") => Ok(Component::App {
            app_id: text_at(v, "app_id")?,
            props: match &v["props"] {
                serde_json::Value::Null => Props::Null,
                other => Props::Json(other.to_string()),
            },
        }),
        _ => Err("unknown type".into()),
    }
}

fn capability_of(v: &serde_json::Value) -> Result<Capability, String> {
    match v["kind"].as_str() {
        Some("storage") => Ok(Capability::Storage {
            max_kb: number_at(v, "max_kb", u32::MAX as u64)? as u32,
        }),
        Some("network") => Ok(Capability::Network {
            hosts: list_at(v, "hosts")?
                .iter()
                .map(|h| h.as_str().map(str::to_owned).ok_or("no host".to_string()))
                .collect::<Result<_, _>>()?,
        }),
        Some("notify") => Ok(Capability::Notify),
        Some("audio") => Ok(Capability::Audio),
        Some("camera") => Ok(Capability::Camera),
        Some("microphone") => Ok(Capability::Microphone),
        _ => Err("unknown kind".into()),
    }
}

fn page_of(v: &serde_json::Value) -> Result<Page, String> {
    let m = &v["metadata"];
    Ok(Page {
        metadata: Metadata {
            schema: number_at(m, "schema", u32::MAX as u64)? as u32,
            site: text_at(m, "site")?,
            path: text_at(m, "path")?,
            title: text_at(m, "title")?,
            revision: number_at(m, "revision", u64::MAX)?,
        },
        components: list_at(v, "components")?
            .iter()
            .map(component_of)
            .collect::<Result<_, _>>()?,
        capabilities: match &v["capabilities"] {
            serde_json::Value::Null => vec![],
            list => list
                .as_array()
                .ok_or("capabilities")?
                .iter()
                .map(capability_of)
                .collect::<Result<_, _>>()?,
        },
    })
}

/// What the JSON reader makes of some bytes.
fn read_page(bytes: &[u8]) -> Result<Page, String> {
    let v: serde_json::Value = serde_json::from_slice(bytes).map_err(|e| e.to_string())?;
    page_of(&v)
}

fn from_json(bytes: &[u8]) -> Result<Page, ContentError> {
    Page::from_json(bytes, read_page(bytes))
}

fn wrap(page: Page) -> Resource {
    let canonical = page_json(&page);
    Resource::from_page(page, &canonical)
}

/// The JSON envelope of a resource.
fn resource_json(r: &Resource) -> Vec<u8> {
    let previous = match &r.previous {
        Some(p) => format!("\"previous\":{},", quoted(p)),
        None => String::new(),
    };
    let references: Vec<String> = r
        .references
        .iter()
        .map(|e| {
            format!(
                "{{\"label\":{},\"target\":{}}}",
                quoted(&e.label),
                target_json(&e.target)
            )
        })
        .collect();
    format!(
        "{{\"id\":{},\"content\":{},{previous}\"references\":[{}]}}",
        quoted(&r.id),
        String::from_utf8(page_json(&r.content)).unwrap(),
        references.join(",")
    )
    .into_bytes()
}

/// What the JSON reader makes of an envelope or of a bare page.
fn parse_resource(bytes: &[u8]) -> Result<(Resource, Vec<u8>), String> {
    let v: serde_json::Value = serde_json::from_slice(bytes).map_err(|e| e.to_string())?;
    if v.get("content").is_none() || v.get("id").is_none() {
        let page = page_of(&v)?;
        let canonical = page_json(&page);
        return Ok((Resource::from_page(page, &canonical), canonical));
    }
    let page = page_of(&v["content"])?;
    let canonical = page_json(&page);
    let references = match v["references"].as_array() {
        None => None,
        Some(list) => Some(
            list.iter()
                .map(|e| {
                    Ok(Reference {
                        label: text_at(e, "label")?,
                        target: target_of(&e["target"])?,
                    })
                })
                .collect::<Result<Vec<_>, String>>()?,
        ),
    };
    let previous = v["previous"].as_str().map(str::to_owned);
    let r = Resource::from_envelope(text_at(&v, "id")?, page, &canonical, previous, references)?;
    Ok((r, canonical))
}

fn read_resource(bytes: &[u8]) -> Result<Resource, ContentError> {
    Resource::from_json(bytes, parse_resource(bytes))
}


fn example_page() -> Page {
    Page {
        metadata: Metadata {
            schema: 1,
            site: "example".into(),
            path: "home".into(),
            title: "Example".into(),
            revision: 1,
        },
        components: vec![
            Component::Heading {
                level: 1,
                text: "Hello, Nexus".into(),
            },
            Component::Text {
                text: "A page without HTML.".into(),
            },
            Component::Link {
                label: "About".into(),
                target: LinkTarget::Page {
                    site: "example".into(),
                    path: "about".into(),
                },
            },
        ],
        capabilities: vec![],
    }
}

#[test]
fn validates_ok() {
    example_page().validate().unwrap();
}

#[test]
fn rejects_bad_schema() {
    let mut p = example_page();
    p.metadata.schema = 99;
    assert!(p.validate().is_err());
}

#[test]
fn rejects_empty_components() {
    let mut p = example_page();
    p.components.clear();
    assert!(p.validate().is_err());
}

#[test]
fn rejects_deep_nesting() {
    let mut inner = Component::Text { text: "x".into() };
    for _ in 0..40 {
        inner = Component::Collection { items: vec![inner] };
    }
    let mut p = example_page();
    p.components = vec![inner];
    assert!(p.validate().is_err());
}

#[test]
fn content_id_stable() {
    let p = example_page();
    let a = content_id_of(&page_json(&p));
    let b = content_id_of(&page_json(&p));
    assert_eq!(a, b);
    assert!(a.starts_with("b3:"));
    // changing content changes id
    let mut p2 = p.clone();
    p2.metadata.revision = 2;
    assert_ne!(a, content_id_of(&page_json(&p2)));
}

#[test]
fn json_roundtrip() {
    let p = example_page();
    let bytes = page_json(&p);
    let q = from_json(&bytes).unwrap();
    assert_eq!(p, q);
}

#[test]
fn rejects_malformed_json() {
    assert!(from_json(b"not json").is_err());
}

#[test]
fn app_props_preserved() {
    let mut p = example_page();
    p.components.push(Component::App {
        app_id: "counter".into(),
        props: Props::Json("{\"start\":3}".into()),
    });
    p.validate().unwrap();
    let bytes = page_json(&p);
    assert_eq!(from_json(&bytes).unwrap(), p);
}


fn linked_page() -> Page {
    Page {
        metadata: Metadata {
            schema: 1,
            site: "example".into(),
            path: "home".into(),
            title: "Example".into(),
            revision: 1,
        },
        components: vec![
            Component::Heading {
                level: 1,
                text: "Hello, Nexus".into(),
            },
            Component::Link {
                label: "About".into(),
                target: LinkTarget::Page {
                    site: "example".into(),
                    path: "about".into(),
                },
            },
            Component::Link {
                label: "External".into(),
                target: LinkTarget::External {
                    hint: "https://x".into(),
                },
            },
            Component::Collection {
                items: vec![Component::Link {
                    label: "Nested".into(),
                    target: LinkTarget::Action {
                        action_id: "go".into(),
                    },
                }],
            },
        ],
        capabilities: vec![],
    }
}

#[test]
fn envelope_roundtrip_equality() {
    let resource = wrap(linked_page());
    let bytes = resource_json(&resource);
    let back = read_resource(&bytes).unwrap();
    assert_eq!(resource, back);
}

#[test]
fn id_is_over_bare_page_bytes_not_envelope() {
    let page = linked_page();
    let bare = wrap(page.clone());
    let mut enveloped = bare.clone();
    enveloped.previous = Some("b3:".to_owned() + &"a".repeat(64));
    let back = read_resource(&resource_json(&enveloped)).unwrap();
    assert_eq!(bare.id, content_id_of(&page_json(&page)));
    assert_eq!(back.id, bare.id); // adornment does not move the hash
    assert_eq!(back.previous, enveloped.previous);
}

#[test]
fn previous_roundtrips_and_validates() {
    let mut r = wrap(linked_page());
    let prev = format!("b3:{}", "c".repeat(64));
    r.previous = Some(prev.clone());
    let back = read_resource(&resource_json(&r)).unwrap();
    assert_eq!(back.previous.as_deref(), Some(prev.as_str()));
    r.previous = Some("nope".into());
    assert!(r.validate(&page_json(&r.content)).is_err());
}

#[test]
fn envelope_with_wrong_id_rejected() {
    let bare = wrap(linked_page());
    let mut json: serde_json::Value =
        serde_json::from_slice(&resource_json(&bare)).unwrap();
    json["id"] = serde_json::Value::String(format!("b3:{}", "0".repeat(64)));
    assert!(read_resource(&serde_json::to_vec(&json).unwrap()).is_err());
}

#[test]
fn envelope_with_mismatched_references_rejected() {
    let bare = wrap(linked_page());
    let mut json: serde_json::Value =
        serde_json::from_slice(&resource_json(&bare)).unwrap();
    json["references"] = serde_json::Value::Array(vec![]);
    assert!(read_resource(&serde_json::to_vec(&json).unwrap()).is_err());
}

#[test]
fn references_documented_order_including_nested() {
    let r = wrap(linked_page());
    let kinds: Vec<&str> = r
        .references
        .iter()
        .map(|ref_| match &ref_.target {
            LinkTarget::Page { .. } => "page",
            LinkTarget::External { .. } => "external",
            LinkTarget::Action { .. } => "action",
        })
        .collect();
    assert_eq!(kinds, vec!["page", "external", "action"]);
}

#[test]
fn resolver_maps_page_edges_to_content_ids() {
    let r = wrap(linked_page());
    let mut targets = HashMap::from([(
        ("example".to_string(), "about".to_string()),
        format!("b3:{}", "d".repeat(64)),
    )]);
    let mut resolver = ReferenceResolver::default();
    for ((site, path), id) in targets.drain() {
        resolver.insert(site, path, id);
    }
    let resolved = resolver.resolve_resource(&r);
    assert_eq!(resolved.len(), 3);
    assert!(resolved[0].content_id.is_some());
    assert_eq!(
        resolved[0].content_id.as_deref(),
        Some(format!("b3:{}", "d".repeat(64)).as_str())
    );
    assert!(resolved[1].content_id.is_none()); // external
    assert!(resolved[2].content_id.is_none()); // action
}

#[test]
fn rejects_oversized_input() {
    let resource = wrap(linked_page());
    let mut big = resource_json(&resource);
    big.resize(1024 * 1024 + 1, b' ');
    assert!(read_resource(&big).is_err());
}

fn valid_page_json() -> Vec<u8> {
    let p = Page {
        metadata: Metadata {
            schema: 1,
            site: "example".into(),
            path: "home".into(),
            title: "Example".into(),
            revision: 1,
        },
        components: vec![Component::Text { text: "hi".into() }],
        capabilities: vec![],
    };
    page_json(&p)
}

fn page_corpus() -> Vec<Vec<u8>> {
    let c: Vec<Vec<u8>> = vec![
        b"".to_vec(),
        b"not json".to_vec(),
        b"null".to_vec(),
        b"[]".to_vec(),
        b"{}".to_vec(),
        b"\"str\"".to_vec(),
        b"123".to_vec(),
        b"{".to_vec(),
        b"{\"metadata\":".to_vec(),
        valid_page_json(),
        b"{\"metadata\":null,\"components\":[]}".to_vec(),
        b"{\"metadata\":{\"schema\":99,\"site\":\"e\",\"path\":\"p\",\"title\":\"t\",\"revision\":0},\"components\":[{\"type\":\"text\",\"text\":\"x\"}]}".to_vec(),
        // empty title
        b"{\"metadata\":{\"schema\":1,\"site\":\"e\",\"path\":\"p\",\"title\":\"\",\"revision\":0},\"components\":[{\"type\":\"text\",\"text\":\"x\"}]}".to_vec(),
        // empty components
        b"{\"metadata\":{\"schema\":1,\"site\":\"e\",\"path\":\"p\",\"title\":\"t\",\"revision\":0},\"components\":[]}".to_vec(),
        // bad heading levels
        b"{\"metadata\":{\"schema\":1,\"site\":\"e\",\"path\":\"p\",\"title\":\"t\",\"revision\":0},\"components\":[{\"type\":\"heading\",\"level\":0,\"text\":\"x\"}]}".to_vec(),
        b"{\"metadata\":{\"schema\":1,\"site\":\"e\",\"path\":\"p\",\"title\":\"t\",\"revision\":0},\"components\":[{\"type\":\"heading\",\"level\":7,\"text\":\"x\"}]}".to_vec(),
        // bad content id
        b"{\"metadata\":{\"schema\":1,\"site\":\"e\",\"path\":\"p\",\"title\":\"t\",\"revision\":0},\"components\":[{\"type\":\"image\",\"content_id\":\"nope\",\"alt\":\"a\"}]}".to_vec(),
        // empty link label
        b"{\"metadata\":{\"schema\":1,\"site\":\"e\",\"path\":\"p\",\"title\":\"t\",\"revision\":0},\"components\":[{\"type\":\"link\",\"label\":\"\",\"target\":{\"kind\":\"action\",\"action_id\":\"a\"}}]}".to_vec(),
        // empty app id
        b"{\"metadata\":{\"schema\":1,\"site\":\"e\",\"path\":\"p\",\"title\":\"t\",\"revision\":0},\"components\":[{\"type\":\"app\",\"app_id\":\"\",\"props\":{}}]}".to_vec(),
        // unknown component type
        b"{\"metadata\":{\"schema\":1,\"site\":\"e\",\"path\":\"p\",\"title\":\"t\",\"revision\":0},\"components\":[{\"type\":\"evil\",\"x\":1}]}".to_vec(),
        // deeply nested JSON arrays (parser-depth probe, not yet a Page)
        format!("{{\"a\":{}}}", "[".repeat(500)).into_bytes(),
        format!("{{\"a\":{}}}", "{".repeat(500)).into_bytes(),
        // deeply nested Collection components (validator-depth probe)
        {
            let mut inner = "{\"type\":\"text\",\"text\":\"x\"}".to_string();
            for _ in 0..60 {
                inner = format!("{{\"type\":\"collection\",\"items\":[{inner}]}}");
            }
            format!(
                "{{\"metadata\":{{\"schema\":1,\"site\":\"e\",\"path\":\"p\",\"title\":\"t\",\"revision\":0}},\"components\":[{inner}]}}"
            )
            .into_bytes()
        },
        // many components (count-limit probe, small items to stay < 1MiB)
        {
            let items = vec!["{\"type\":\"text\",\"text\":\"x\"}"; 5000].join(",");
            format!(
                "{{\"metadata\":{{\"schema\":1,\"site\":\"e\",\"path\":\"p\",\"title\":\"t\",\"revision\":0}},\"components\":[{items}]}}"
            )
            .into_bytes()
        },
        // huge text field (256KiB + 1)
        {
            let big = "t".repeat(256 * 1024 + 1);
            format!(
                "{{\"metadata\":{{\"schema\":1,\"site\":\"e\",\"path\":\"p\",\"title\":\"t\",\"revision\":0}},\"components\":[{{\"type\":\"text\",\"text\":{}}}]}}",
                serde_json::to_string(&big).unwrap()
            )
            .into_bytes()
        },
        // title 300 chars (over 256 limit)
        {
            let t = "t".repeat(300);
            format!(
                "{{\"metadata\":{{\"schema\":1,\"site\":\"e\",\"path\":\"p\",\"title\":\"{t}\",\"revision\":0}},\"components\":[{{\"type\":\"text\",\"text\":\"x\"}}]}}"
            )
            .into_bytes()
        },
        // duplicate keys, trailing garbage, trailing newline
        b"{\"metadata\":{\"schema\":1,\"site\":\"e\",\"path\":\"p\",\"title\":\"t\",\"revision\":0},\"components\":[{\"type\":\"text\",\"text\":\"x\"}],\"components\":[]}".to_vec(),
        {
            let mut v = valid_page_json();
            v.extend_from_slice(b"TRAILING");
            v
        },
        {
            let mut v = valid_page_json();
            v.push(b'\n');
            v
        },
        // truncated valid page
        {
            let mut v = valid_page_json();
            v.truncate(v.len() / 2);
            v
        },
        // non-UTF8 bytes
        vec![0xff, 0xfe, 0x00, 0x01, 0x80],
        // NUL inside JSON
        b"{\"metadata\":\x00}".to_vec(),
        // unicode-heavy text
        "{\"metadata\":{\"schema\":1,\"site\":\"e\",\"path\":\"p\",\"title\":\"café中文\",\"revision\":0},\"components\":[{\"type\":\"text\",\"text\":\"hello world\"}]}"
            .as_bytes()
            .to_vec(),
        // oversized page (> 1MiB pre-parse gate)
        vec![b'x'; 1024 * 1024 + 1],
        // almost-oversized but structurally invalid (gate must fire first)
        vec![b'{'; 1024 * 1024],
    ];
    c
}

#[test]
fn adversarial_page_from_json_never_panics() {
    let corpus = page_corpus();
    assert!(corpus.len() >= 30, "corpus too small: {}", corpus.len());
    for (i, input) in corpus.iter().enumerate() {
        let r = from_json(input);
        match r {
            Ok(page) => {
                // Any accepted page must validate and round-trip.
                page.validate()
                    .unwrap_or_else(|_| panic!("case {i}: from_json accepted an invalid page"));
                let bytes = page_json(&page);
                let q = from_json(&bytes).expect("case {i}: round-trip failed");
                assert_eq!(page, q, "case {i}: round-trip mismatch");
            }
            Err(_) => {}
        }
    }
}

#[test]
fn adversarial_page_title_boundary() {
    // 256-char title is the documented max; 257 must fail.
    for (len, ok) in [(256, true), (257, false)] {
        let t = "t".repeat(len);
        let bytes = format!(
            "{{\"metadata\":{{\"schema\":1,\"site\":\"e\",\"path\":\"p\",\"title\":\"{t}\",\"revision\":0}},\"components\":[{{\"type\":\"text\",\"text\":\"x\"}}]}}"
        )
        .into_bytes();
        assert_eq!(
            from_json(&bytes).is_ok(),
            ok,
            "title len {len} expected ok={ok}"
        );
    }
}

#[test]
fn adversarial_page_link_targets_never_panic() {
    // Every LinkTarget kind with hostile strings.
    let targets = vec![
        "{\"kind\":\"page\",\"site\":\"\",\"path\":\"\"}".to_string(),
        "{\"kind\":\"page\",\"site\":\"UPPER\",\"path\":\"/abs\"}".to_string(),
        format!(
            "{{\"kind\":\"page\",\"site\":\"{}\",\"path\":\"{}\"}}",
            "a".repeat(500),
            "b".repeat(500)
        ),
        "{\"kind\":\"external\",\"hint\":\"\"}".to_string(),
        format!("{{\"kind\":\"external\",\"hint\":\"{}\"}}", "x".repeat(5000)),
        "{\"kind\":\"action\",\"action_id\":\"\"}".to_string(),
        "{\"kind\":\"unknown_kind\"}".to_string(),
        "\"just a string\"".to_string(),
        "null".to_string(),
    ];
    let with_target = |t: &str| {
        format!(
            "{{\"metadata\":{{\"schema\":1,\"site\":\"e\",\"path\":\"p\",\"title\":\"t\",\"revision\":0}},\"components\":[{{\"type\":\"link\",\"label\":\"ok\",\"target\":{t}}}]}}"
        )
        .into_bytes()
    };
    for (i, t) in targets.iter().enumerate() {
        if let Ok(p) = from_json(&with_target(t)) {
            p.validate().expect("accepted page must validate");
            assert!(content_id_of(&page_json(&p)).starts_with("b3:"), "case {i}");
        }
    }
    // Sanity: a well-formed page link still works and hashes.
    let p = from_json(&with_target(
        "{\"kind\":\"page\",\"site\":\"example\",\"path\":\"about\"}",
    ))
    .unwrap();
    assert!(content_id_of(&page_json(&p)).starts_with("b3:"));
}


    fn text_page() -> Page {
        Page {
            metadata: Metadata {
                schema: 1,
                site: "example".into(),
                path: "home".into(),
                title: "Example".into(),
                revision: 1,
            },
            components: vec![
                Component::Heading {
                    level: 1,
                    text: "Hi".into(),
                },
                Component::Text {
                    text: "Welcome to Nexus.".into(),
                },
            ],
            capabilities: vec![],
        }
    }

    fn link_page() -> Page {
        let mut p = text_page();
        p.components.push(Component::Link {
            label: "About".into(),
            target: LinkTarget::Page {
                site: "example".into(),
                path: "about".into(),
            },
        });
        p.components.push(Component::Link {
            label: "Docs".into(),
            target: LinkTarget::External {
                hint: "example.net/docs".into(),
            },
        });
        p
    }

    #[test]
    fn renders_title_and_body() {
        let s = render_text(&text_page());
        assert!(s.contains("Example"));
        assert!(s.contains("Welcome to Nexus."));
    }

    #[test]
    fn renders_links() {
        let mut p = text_page();
        p.components.push(Component::Link {
            label: "About".into(),
            target: LinkTarget::Page {
                site: "example".into(),
                path: "about".into(),
            },
        });
        assert!(render_text(&p).contains("example/about"));
    }

    #[test]
    fn links_numbered_with_footer_snapshot() {
        let s = render_text(&link_page());
        let expected = "\
# Example
@example /home  rev:1

# Hi

Welcome to Nexus.

About [1]

Docs [2]

Links:
  [1] example/about
  [2] external: example.net/docs
";
        assert_eq!(s, expected);
    }

    #[test]
    fn wraps_long_text_at_80_cols() {
        let mut p = text_page();
        p.components = vec![Component::Text {
            text: "Lorem ipsum dolor sit amet, consectetur adipiscing elit, sed do eiusmod \
                   tempor incididunt ut labore et dolore magna aliqua. Ut enim ad minim veniam."
                .into(),
        }];
        let s = render_text(&p);
        for line in s.lines() {
            assert!(line.chars().count() <= 80, "overflow: {line:?}");
        }
        // Greedy wrap: second line starts a fresh 80-col budget.
        assert!(
            s.contains("\nincididunt ut labore et dolore magna aliqua. Ut enim ad minim veniam.\n")
        );
    }

    #[test]
    fn long_word_overflows_without_hyphenation() {
        let mut p = text_page();
        let word = "x".repeat(100);
        p.components = vec![Component::Text {
            text: format!("hi {word}"),
        }];
        let s = render_text(&p);
        assert!(s.contains(&word), "long word must survive unsplit");
    }

    #[test]
    fn nested_collections_render_as_bullets_snapshot() {
        let mut p = text_page();
        p.components = vec![Component::Collection {
            items: vec![
                Component::Text {
                    text: "First".into(),
                },
                Component::Collection {
                    items: vec![
                        Component::Text {
                            text: "Nested one".into(),
                        },
                        Component::Link {
                            label: "Nested link".into(),
                            target: LinkTarget::Page {
                                site: "example".into(),
                                path: "about".into(),
                            },
                        },
                    ],
                },
            ],
        }];
        let s = render_text(&p);
        let expected = "\
# Example
@example /home  rev:1

  - First
    - Nested one
    - Nested link [1]

Links:
  [1] example/about
";
        assert_eq!(s, expected);
    }

    #[test]
    fn image_placeholder_snapshot() {
        let mut p = text_page();
        p.components = vec![Component::Image {
            content_id: format!("b3:{}", "ab".repeat(32)),
            alt: "Demo image".into(),
        }];
        let s = render_text(&p);
        // Long alt+id wraps (greedy, no hyphenation); both parts survive.
        assert!(s.contains("Demo image"));
        assert!(s.contains(&"ab".repeat(32)));
        assert!(s.contains("[image:"));
    }

    #[test]
    fn app_placeholder_gated_on_capabilities_snapshot() {
        let mut p = text_page();
        p.capabilities = vec![Capability::Storage { max_kb: 512 }, Capability::Notify];
        p.components = vec![Component::App {
            app_id: "counter".into(),
            props: Props::Json("{\"start\":3}".into()),
        }];
        let s = render_text(&p);
        let expected = format!(
            "\
# Example
@example /home  rev:1

[app:counter] (not executed)
  requires: storage(512KB), notify
  props: {{\"start\":3}}

"
        );
        assert_eq!(s, expected);
    }

    #[test]
    fn app_without_capabilities_requires_none() {
        let mut p = text_page();
        p.components = vec![Component::App {
            app_id: "clock".into(),
            props: Props::Null,
        }];
        let s = render_text(&p);
        assert!(s.contains("[app:clock] (not executed)"));
        assert!(s.contains("requires: none"));
        assert!(!s.contains("props:"));
    }

    #[test]
    fn heading_levels_snapshot() {
        let mut p = text_page();
        p.components = vec![
            Component::Heading {
                level: 1,
                text: "One".into(),
            },
            Component::Heading {
                level: 2,
                text: "Two".into(),
            },
            Component::Heading {
                level: 3,
                text: "Three".into(),
            },
        ];
        let s = render_text(&p);
        assert!(s.contains("# One\n"));
        assert!(s.contains("## Two\n"));
        assert!(s.contains("### Three\n"));
    }

#[test]
fn the_white_characters_are_those_of_char() {
    for c in '\0'..=char::MAX {
        assert_eq!(is_white_char(c), c.is_whitespace(), "{c:?}");
    }
}

#[test]
fn each_flaw_has_its_words() {
    let words = |p: &Page| p.validate().unwrap_err().to_string();
    let mut p = example_page();
    p.metadata.schema = 2;
    assert_eq!(words(&p), "validation: unsupported schema 2");
    let mut p = example_page();
    p.metadata.title = String::new();
    assert_eq!(words(&p), "validation: bad title length");
    let mut p = example_page();
    p.components = vec![Component::Heading {
        level: 7,
        text: "x".into(),
    }];
    assert_eq!(words(&p), "validation: bad heading level");
    p.components = vec![Component::Image {
        content_id: "b3:00".into(),
        alt: String::new(),
    }];
    assert_eq!(words(&p), "validation: bad content id b3:00");
    p.components = vec![Component::Link {
        label: String::new(),
        target: LinkTarget::External { hint: "h".into() },
    }];
    assert_eq!(words(&p), "validation: bad link label");
    p.components = vec![Component::App {
        app_id: "a".repeat(129),
        props: Props::Null,
    }];
    assert_eq!(words(&p), "validation: bad app id");
    p.components = vec![Component::Text {
        text: "t".repeat(256 * 1024 + 1),
    }];
    assert_eq!(words(&p), "validation: text too large");
    p.components = vec![Component::Text { text: "x".into() }; 4097];
    assert_eq!(words(&p), "validation: too many components");
}

#[test]
fn content_ids_are_recognised() {
    assert!(is_content_id(&content_id_of(b"x")));
    assert!(is_content_id(&format!("b3:{}", "AB".repeat(32))));
    assert!(!is_content_id(&"ab".repeat(32)));
    assert!(!is_content_id(&format!("b3:{}", "g0".repeat(32))));
}
