//! The text protocol: requests, responses, and what it refuses.

use nexus::protocol::{
    encode_conditional_request, encode_list_request, encode_records_request, encode_request,
    encode_response, is_valid_path, is_valid_site, parse_conditional_request, parse_list_request,
    parse_records_request, parse_request, parse_response_header, split_response,
    ConditionalFetch, FetchRequest, ListRequest, ProtocolError, RecordsRequest, MAX_BODY,
    MAX_LINE, MAX_PATH_LEN, MAX_SITE_LEN,
};


#[test]
fn roundtrip_request() {
    let req = FetchRequest {
        site: "example".into(),
        path: "home".into(),
    };
    let line = encode_request(&req).unwrap();
    assert_eq!(line, "NXP/0.1 FETCH example home\n");
    assert_eq!(parse_request(&line).unwrap(), req);
}

#[test]
fn roundtrip_records_request() {
    let req = RecordsRequest {
        site: "example".into(),
        path: "home".into(),
    };
    let line = encode_records_request(&req).unwrap();
    assert_eq!(line, "NXP/0.1 RECORDS example home\n");
    assert_eq!(parse_records_request(&line).unwrap(), req);
}

#[test]
fn verbs_do_not_cross_parse() {
    // FETCH lines are not valid RECORDS and vice versa.
    assert!(matches!(
        parse_records_request("NXP/0.1 FETCH example home\n"),
        Err(ProtocolError::BadVerb(_))
    ));
    assert!(matches!(
        parse_request("NXP/0.1 RECORDS example home\n"),
        Err(ProtocolError::BadVerb(_))
    ));
    // LIST is a different shape: no path accepted or required.
    assert!(matches!(
        parse_request("NXP/0.1 LIST example\n"),
        Err(ProtocolError::BadVerb(_))
    ));
    assert!(matches!(
        parse_list_request("NXP/0.1 LIST example extra\n"),
        Err(ProtocolError::BadSite(_))
    ));
}

#[test]
fn roundtrip_list_request() {
    let req = ListRequest {
        site: "example".into(),
    };
    let line = encode_list_request(&req).unwrap();
    assert_eq!(line, "NXP/0.1 LIST example\n");
    assert_eq!(parse_list_request(&line).unwrap(), req);
}

#[test]
fn list_rejects_bad_input() {
    assert!(matches!(
        parse_list_request("NXP/0.1 LIST Example\n"),
        Err(ProtocolError::BadSite(_))
    ));
    assert!(matches!(
        parse_list_request("NXP/0.1 LIST\n"),
        Err(ProtocolError::BadSite(_))
    ));
    assert!(matches!(
        parse_list_request("NXP/0.1 FETCH example\n"),
        Err(ProtocolError::BadVerb(_))
    ));
    assert!(encode_list_request(&ListRequest { site: "".into() }).is_err());
}

#[test]
fn records_at_namespace_roundtrip() {
    let req = RecordsRequest {
        site: "alice".into(),
        path: "@alice".into(),
    };
    let line = encode_records_request(&req).unwrap();
    assert_eq!(line, "NXP/0.1 RECORDS alice @alice\n");
    assert_eq!(parse_records_request(&line).unwrap(), req);
}

#[test]
fn records_at_namespace_rejects_mismatch() {
    // Bare `@`, cross-name, traversal, and bad-site forms all fail.
    for bad in [
        "NXP/0.1 RECORDS alice @\n",
        "NXP/0.1 RECORDS alice @other\n",
        "NXP/0.1 RECORDS alice @../x\n",
        "NXP/0.1 RECORDS Alice @Alice\n",
        "NXP/0.1 RECORDS alice @alice extra\n",
    ] {
        assert!(
            parse_records_request(bad).is_err(),
            "{bad:?} should be rejected"
        );
    }
    // FETCH never admits the namespace.
    assert!(matches!(
        parse_request("NXP/0.1 FETCH alice @alice\n"),
        Err(ProtocolError::BadPath(_))
    ));
    assert!(encode_records_request(&RecordsRequest {
        site: "alice".into(),
        path: "@other".into(),
    })
    .is_err());
}

#[test]
fn records_rejects_bad_site_and_path() {
    assert!(matches!(
        parse_records_request("NXP/0.1 RECORDS Example home\n"),
        Err(ProtocolError::BadSite(_))
    ));
    assert!(matches!(
        parse_records_request("NXP/0.1 RECORDS example ../x\n"),
        Err(ProtocolError::BadPath(_))
    ));
    let bad = RecordsRequest {
        site: "example".into(),
        path: "a b".into(),
    };
    assert!(encode_records_request(&bad).is_err());
}

#[test]
fn nested_path_ok() {
    let req = FetchRequest {
        site: "nolan".into(),
        path: "blog/hello-world".into(),
    };
    let line = encode_request(&req).unwrap();
    assert_eq!(parse_request(&line).unwrap(), req);
}

#[test]
fn rejects_bad_version() {
    assert!(matches!(
        parse_request("NXP/9.9 FETCH example home\n"),
        Err(ProtocolError::BadVersion(_))
    ));
}

#[test]
fn rejects_bad_verb() {
    assert!(matches!(
        parse_request("NXP/0.1 GET example home\n"),
        Err(ProtocolError::BadVerb(_))
    ));
}

#[test]
fn rejects_uppercase_site() {
    assert!(matches!(
        parse_request("NXP/0.1 FETCH Example home\n"),
        Err(ProtocolError::BadSite(_))
    ));
}

#[test]
fn rejects_traversal() {
    assert!(matches!(
        parse_request("NXP/0.1 FETCH example ../secret\n"),
        Err(ProtocolError::BadPath(_))
    ));
    assert!(matches!(
        parse_request("NXP/0.1 FETCH example a//b\n"),
        Err(ProtocolError::BadPath(_))
    ));
    assert!(matches!(
        parse_request("NXP/0.1 FETCH example /home\n"),
        Err(ProtocolError::BadPath(_))
    ));
}

#[test]
fn rejects_injection_newline_in_site() {
    // encode path must reject spaces/newlines
    let bad = FetchRequest {
        site: "a\nINJECT".into(),
        path: "home".into(),
    };
    assert!(encode_request(&bad).is_err());
}

#[test]
fn roundtrip_response() {
    let body = br#"{"hello":"world"}"#;
    let frame = encode_response(200, body).unwrap();
    let (h, b) = split_response(&frame).unwrap();
    assert_eq!(h.code, 200);
    assert_eq!(b, body);
}

#[test]
fn rejects_oversize_body_claim() {
    assert!(matches!(
        parse_response_header(&format!("NXP/0.1 200 {}\n", MAX_BODY + 1)),
        Err(ProtocolError::BodyTooLarge(_))
    ));
}

#[test]
fn rejects_truncated_body() {
    let mut frame = encode_response(200, b"hello").unwrap();
    frame.truncate(frame.len() - 2);
    assert!(matches!(
        split_response(&frame),
        Err(ProtocolError::Truncated)
    ));
}

#[test]
fn rejects_trailing_garbage() {
    let mut frame = encode_response(200, b"hi").unwrap();
    frame.extend_from_slice(b"EXTRA");
    assert!(matches!(
        split_response(&frame),
        Err(ProtocolError::Malformed(_))
    ));
}


fn request_corpus() -> Vec<Vec<u8>> {
    let mut c: Vec<Vec<u8>> = vec![
        b"".to_vec(),
        b"\n".to_vec(),
        b"\r\n".to_vec(),
        b"NXP/0.1 FETCH example home\n".to_vec(),
        b"NXP/0.1 FETCH example home".to_vec(), // no trailing newline (accepted)
        b"NXP/0.1 FETCH example home\r\n".to_vec(),
        b"NXP/0.1 FETCH a b\n".to_vec(),
        b"NXP/9.9 FETCH example home\n".to_vec(),
        b"nxp/0.1 FETCH example home\n".to_vec(),
        b"NXP/0.1 fetch example home\n".to_vec(),
        b"NXP/0.1 GET example home\n".to_vec(),
        b"NXP/0.1 FETCH Example home\n".to_vec(), // uppercase site
        b"NXP/0.1 FETCH -abc home\n".to_vec(),    // leading dash
        b"NXP/0.1 FETCH abc- home\n".to_vec(),    // trailing dash
        b"NXP/0.1 FETCH  home\n".to_vec(),        // empty site (double space)
        b"NXP/0.1 FETCH example \n".to_vec(),     // empty path
        b"NXP/0.1 FETCH example\n".to_vec(),      // missing path
        b"NXP/0.1 FETCH\n".to_vec(),
        b"NXP/0.1\n".to_vec(),
        b"NXP/0.1 FETCH example /home\n".to_vec(), // leading slash
        b"NXP/0.1 FETCH example a//b\n".to_vec(),
        b"NXP/0.1 FETCH example ../secret\n".to_vec(),
        b"NXP/0.1 FETCH example a b c\n".to_vec(), // extra token / space in path
        b"NXP/0.1  FETCH  example  home\n".to_vec(), // double spaces
        b" NXP/0.1 FETCH example home\n".to_vec(), // leading space
        b"NXP/0.1 FETCH example home \n".to_vec(), // trailing space
        b"NXP/0.1 FETCH example h\x00ome\n".to_vec(), // NUL byte
        b"NXP/0.1 FETCH example caf\xc3\xa9\n".to_vec(), // non-ASCII UTF-8
        b"NXP/0.1 FETCH example a\tb\n".to_vec(),  // tab
        b"\xff\xfeNXP/0.1 FETCH example home\n".to_vec(), // invalid UTF-8 prefix
        b"NXP/0.1 FETCH example .hidden\n".to_vec(),
        b"NXP/0.1 FETCH example a+b_c-d.e/f\n".to_vec(), // all allowed punct
    ];
    // Boundary: max-length site/path, overlong site, overlong line.
    c.push(format!("NXP/0.1 FETCH {} home\n", "a".repeat(64)).into_bytes()); // site == MAX
    c.push(format!("NXP/0.1 FETCH {} home\n", "a".repeat(65)).into_bytes()); // site > MAX
    c.push(format!("NXP/0.1 FETCH example {}\n", "b".repeat(256)).into_bytes()); // path == MAX
    c.push(format!("NXP/0.1 FETCH example {}\n", "b".repeat(257)).into_bytes()); // path > MAX
    c.push(format!("NXP/0.1 FETCH example {}\n", "c".repeat(5000)).into_bytes()); // line > MAX_LINE
    c.push(b"NXP/0.1 FETCH example home\nEXTRA".to_vec()); // trailing garbage, no newline split
    c.push(b"NXP/0.1 FETCH example home\n\n".to_vec()); // extra blank line
    c.push("NXP/0.1 FETCH example home\n".repeat(300).into_bytes()); // many lines in one buffer
    c
}

#[test]
fn adversarial_parse_request_never_panics() {
    let corpus = request_corpus();
    assert!(corpus.len() >= 30, "corpus too small: {}", corpus.len());
    for (i, input) in corpus.iter().enumerate() {
        let s = String::from_utf8_lossy(input);
        // Contract: must return, never panic.
        let r = parse_request(&s);
        match r {
            Ok(req) => {
                // Any accepted request must re-encode and re-parse cleanly.
                assert!(!req.site.is_empty(), "case {i}: empty site accepted");
                assert!(!req.path.is_empty(), "case {i}: empty path accepted");
                let line = encode_request(&req).expect("accepted req must encode");
                assert_eq!(parse_request(&line).unwrap(), req, "case {i}: not stable");
            }
            Err(_) => {}
        }
    }
}

#[test]
fn adversarial_parse_request_rejects_overlong_line() {
    let overlong = format!("NXP/0.1 FETCH example {}\n", "x".repeat(MAX_LINE + 1));
    assert!(
        parse_request(&overlong).is_err(),
        "line > MAX_LINE ({MAX_LINE}) must be rejected"
    );
}


fn response_corpus() -> Vec<Vec<u8>> {
    let mut c: Vec<Vec<u8>> = vec![
        b"".to_vec(),
        b"\n".to_vec(),
        b"NXP/0.1 200 5\nhello".to_vec(),
        b"NXP/0.1 200 5\nhello\n".to_vec(), // trailing newline beyond claimed len
        b"NXP/0.1 200 0\n".to_vec(),        // empty body
        b"NXP/0.1 404 0\n".to_vec(),
        b"NXP/0.1 99 0\n".to_vec(),  // code below range
        b"NXP/0.1 600 0\n".to_vec(), // code above range
        b"NXP/0.1 0 0\n".to_vec(),
        b"NXP/0.1 99999 0\n".to_vec(),
        b"NXP/0.1 abc 0\n".to_vec(),              // non-numeric code
        b"NXP/0.1 200 xyz\n".to_vec(),            // non-numeric len
        b"NXP/0.1 200 -1\n".to_vec(),             // negative len
        b"NXP/0.1 200\n".to_vec(),                // missing len
        b"NXP/0.1 200 5".to_vec(),                // no newline at all
        b"NXP/9.9 200 0\n".to_vec(),              // bad version
        b"HTTP/1.1 200 0\n".to_vec(),             // wrong protocol entirely
        b"NXP/0.1 200 5\r\nhello".to_vec(),       // CRLF header
        b"\xff\xfe\x00bad header\nbody".to_vec(), // non-UTF8 header
        b"NXP/0.1 200 5\nhel".to_vec(),           // truncated body
        b"NXP/0.1 200 2\nhiEXTRA".to_vec(),       // trailing garbage
        b"NXP/0.1 200 18446744073709551615\n".to_vec(), // usize::MAX claim
        b"NXP/0.1 200 1048577\n".to_vec(),        // MAX_BODY + 1 claim
        b"NXP/0.1 200 1048576\n".to_vec(),        // MAX_BODY exact claim, body missing
        format!("NXP/0.1 200 0\n{}", "y".repeat(3000)).into_bytes(), // body, claims 0
    ];
    // Overlong header line (> MAX_LINE, no newline within limit).
    c.push(format!("NXP/0.1 200 0 {}\n", "z".repeat(MAX_LINE + 1)).into_bytes());
    // Header split across multiple newlines: first line claims body, rest is body.
    c.push(b"NXP/0.1 200 11\nhello\nworld".to_vec());
    c
}

#[test]
fn adversarial_split_response_never_panics() {
    let corpus = response_corpus();
    assert!(corpus.len() >= 20, "corpus too small: {}", corpus.len());
    for (i, frame) in corpus.iter().enumerate() {
        let r = split_response(frame);
        match r {
            Ok((h, body)) => {
                assert!(
                    (100..=599).contains(&h.code),
                    "case {i}: out-of-range code accepted"
                );
                assert!(
                    body.len() == h.body_len,
                    "case {i}: body len mismatch accepted"
                );
                assert!(h.body_len <= MAX_BODY, "case {i}: oversize accepted");
            }
            Err(_) => {}
        }
        // Header-only path must also never panic on any first-line candidate.
        if let Ok(s) = std::str::from_utf8(frame) {
            let line = s.lines().next().unwrap_or("");
            let _ = parse_response_header(line);
            let _ = parse_response_header(&format!("{line}\n"));
        }
    }
}

#[test]
fn adversarial_split_response_limits() {
    // Oversize claim rejected without allocating the body.
    let hdr = format!("NXP/0.1 200 {}\n", MAX_BODY + 1);
    assert!(parse_response_header(&hdr).is_err());
    assert!(split_response(hdr.as_bytes()).is_err());
    // Exact-limit claim with missing body is Truncated, not a panic.
    let hdr = format!("NXP/0.1 200 {}\n", MAX_BODY);
    assert!(split_response(hdr.as_bytes()).is_err());
}


/// Truncations + hostile single-byte substitutions at every position.
fn request_mutations() -> Vec<Vec<u8>> {
    let base: &[u8] = b"NXP/0.1 FETCH example home\n";
    let mut out: Vec<Vec<u8>> = Vec::new();
    for cut in 0..=base.len() {
        out.push(base[..cut].to_vec());
    }
    for (i, _) in base.iter().enumerate() {
        for &hb in b"\0\n\xff " {
            let mut m = base.to_vec();
            m[i] = hb;
            out.push(m);
        }
    }
    out
}

fn response_mutations() -> Vec<Vec<u8>> {
    let base: &[u8] = b"NXP/0.1 200 5\nhello";
    let mut out: Vec<Vec<u8>> = Vec::new();
    for cut in 0..=base.len() {
        out.push(base[..cut].to_vec());
    }
    for (i, _) in base.iter().enumerate() {
        for &hb in b"\0\n\xff\t" {
            let mut m = base.to_vec();
            m[i] = hb;
            out.push(m);
        }
    }
    // Header bytes that survive per-position edits: NUL in header, non-UTF8
    // inside the header line, non-UTF8 inside the body, MAX_BODY claim with
    // no body, and a two-newline frame.
    out.push(b"NXP/0.1 200\x00 5\nhello".to_vec());
    out.push(b"NXP/0.1 \xff00 5\nhello".to_vec());
    out.push(b"NXP/0.1 200 5\nh\xffllo".to_vec());
    out.push(b"NXP/0.1 200 1048576\n".to_vec());
    out.push(b"NXP/0.1 200 5\nhello\nworld".to_vec());
    out
}

#[test]
fn mutation_battery_over_200_inputs_never_panics() {
    let reqs = request_mutations();
    let resps = response_mutations();
    let total = reqs.len() + resps.len();
    assert!(total >= 200, "mutation corpus too small: {total}");
    for input in &reqs {
        let s = String::from_utf8_lossy(input);
        if let Ok(req) = parse_request(&s) {
            // Accepted requests must round-trip stably.
            assert!(!req.site.is_empty() && !req.path.is_empty());
            let line = encode_request(&req).unwrap();
            assert_eq!(parse_request(&line).unwrap(), req);
        }
    }
    for frame in &resps {
        if let Ok((h, body)) = split_response(frame) {
            assert!(body.len() == h.body_len, "len mismatch on accepted frame");
        }
        // Header-only parse must also be total on any first-line candidate.
        let s = String::from_utf8_lossy(frame);
        let line = s.lines().next().unwrap_or("");
        let _ = parse_response_header(&format!("{line}\n"));
    }
}

#[test]
fn request_field_battery_rejects() {
    for v in [
        "",
        "get",
        "GET",
        "FETCHX",
        "FETC ",
        "FETCH\t",
        "FETCH\nX",
        "FETCH ",
        " F\u{fffd}TCH",
    ] {
        assert!(
            parse_request(&format!("NXP/0.1 {v} example home\n")).is_err(),
            "verb {v:?} accepted"
        );
    }
    for v in [
        "",
        "NXP/",
        "NXP/0",
        "NXP/0.",
        "NXP/0.1x",
        "NXP/0.10",
        "NXP/00.1",
        "NXP/0.1 ",
        "NXP/0.1\t",
        "NXP/ 0.1",
        "NXP//0.1",
        "NXP/0.1\x00",
        "nxp/0.1",
        "NXP/9.9",
        "HTTP/1.1",
        "XNP/0.1",
        "0.1",
    ] {
        assert!(
            parse_request(&format!("{v} FETCH example home\n")).is_err(),
            "version {v:?} accepted"
        );
    }
    for s in [
        "",
        "-",
        "-a",
        "a-",
        "--",
        "A",
        "a_b",
        "ExamplE",
        "\t",
        "a\x00b",
        "ä",
        "α",
        "ａ",
        &"a".repeat(MAX_SITE_LEN + 1),
    ] {
        assert!(
            parse_request(&format!("NXP/0.1 FETCH {s} home\n")).is_err(),
            "site {s:?} accepted"
        );
    }
    for p in [
        "",
        "/",
        "//",
        "../",
        "..",
        "...",
        "a..b",
        "a/../b",
        "a//b",
        "/a",
        "\\",
        "a\\b",
        "%2e%2e",
        "a b",
        "a\tb",
        "a\nb",
        "a\x00b",
        "é",
        &"b".repeat(MAX_PATH_LEN + 1),
    ] {
        assert!(
            parse_request(&format!("NXP/0.1 FETCH example {p}\n")).is_err(),
            "path {p:?} accepted"
        );
    }
}

/// Response header field battery: every variant must be rejected.
#[test]
fn response_field_battery_rejects() {
    for code in [
        "",
        "99",
        "600",
        "0",
        "abc",
        "200 ",
        "200.0",
        "0xC8",
        "2 0",
        "200\t5",
        "\u{ff12}00",
    ] {
        assert!(
            parse_response_header(&format!("NXP/0.1 {code} 5\n")).is_err(),
            "code {code:?} accepted"
        );
    }
    for len in [
        "",
        "-1",
        "0x5",
        "5 ",
        "\t5",
        "\u{ff15}",
        "1_000",
        "18446744073709551615",
        "18446744073709551616",
        "99999999999999999999999999999999999999",
        "1e5",
        "1048577",
    ] {
        assert!(
            parse_response_header(&format!("NXP/0.1 200 {len}\n")).is_err(),
            "len {len:?} accepted"
        );
    }
    for v in ["", "NXP/0.2", "NXP/1.0", "nxp/0.1", "HTTP/1.1", "NXP/0.1 "] {
        assert!(
            parse_response_header(&format!("{v} 200 5\n")).is_err(),
            "version {v:?} accepted"
        );
    }
}

/// Documented non-canonical acceptance: Rust integer parsing tolerates a
/// leading `+` and leading zeros, so `+200`/`0200`/`+5` parse. Range
#[test]
fn non_canonical_plus_sign_accepted_bounded() {
    for line in ["NXP/0.1 +200 +5\n", "NXP/0.1 0200 5\n"] {
        let h = parse_response_header(line).unwrap();
        assert_eq!((h.code, h.body_len), (200, 5), "{line:?}");
    }
    assert!(parse_response_header("NXP/0.1 +99 +5\n").is_err()); // range
    assert!(parse_response_header("NXP/0.1 +600 +5\n").is_err()); // range
    assert!(parse_response_header("NXP/0.1 +200 +1048577\n").is_err()); // cap
    assert!(parse_response_header("NXP/0.1 +200 +99999999999999999999999999\n").is_err());
}

/// Boundary acceptance: limits are inclusive, one over is rejected.
#[test]
fn boundary_battery() {
    let ok = |req: &str| assert!(parse_request(req).is_ok(), "{req:?} should parse");
    ok(&format!(
        "NXP/0.1 FETCH {} home\n",
        "a".repeat(MAX_SITE_LEN)
    ));
    ok(&format!(
        "NXP/0.1 FETCH example {}\n",
        "b".repeat(MAX_PATH_LEN)
    ));
    assert!(parse_request(&format!(
        "NXP/0.1 FETCH {} home\n",
        "a".repeat(MAX_SITE_LEN + 1)
    ))
    .is_err());
    assert!(parse_request(&format!(
        "NXP/0.1 FETCH example {}\n",
        "b".repeat(MAX_PATH_LEN + 1)
    ))
    .is_err());
    // A site cannot contain `.`; a path can.
    assert!(parse_request("NXP/0.1 FETCH site-0-example-9 a/b_c-d.e+f/0\n").is_ok());
    assert!(parse_request("NXP/0.1 FETCH site.example home\n").is_err());
}

/// Characterization battery for the canonical path/site validators.
#[test]
fn validator_characterization_battery() {
    // Single-byte chars: exactly the documented allow set is valid, except
    // `/` alone (leading-slash rule) and `-` alone (leading-dash rule).
    for b in 0u8..=127 {
        let c = b as char;
        let expect =
            (c.is_ascii_alphanumeric() || matches!(c, '/' | '_' | '-' | '.' | '+')) && c != '/';
        let s = c.to_string();
        assert_eq!(is_valid_path(&s), expect, "path char {c:?} ({b})");
        let expect_site = c.is_ascii_lowercase() || c.is_ascii_digit();
        assert_eq!(is_valid_site(&s), expect_site, "site char {c:?} ({b})");
    }
    // Path strings: traversal, separators, NULs, unicode. Note `a/` and `.`
    // are accepted today (trailing-slash and dot-root paths are legal wire
    // paths) — documented current behavior, not a blessing.
    for (p, expect) in [
        ("a/b", true),
        ("a/", true),
        ("a.", true),
        (".hidden", true),
        (".", true),
        ("..", false),
        ("...", false),
        ("a..b", false),
        ("../x", false),
        ("a/../b", false),
        ("a//b", false),
        ("/a", false),
        ("a\\b", false),
        ("%2e%2e", false),
        ("a b", false),
        ("a\tb", false),
        ("a\x00b", false),
        ("é", false),
    ] {
        assert_eq!(is_valid_path(p), expect, "path {p:?}");
    }
    // Site strings: case, dashes, underscores, unicode.
    for (s, expect) in [
        ("a-b", true),
        ("0a1", true),
        ("-a", false),
        ("a-", false),
        ("--", false),
        ("a_b", false),
        ("A", false),
        ("a\x00b", false),
        ("ä", false),
    ] {
        assert_eq!(is_valid_site(s), expect, "site {s:?}");
    }
}

#[test]
fn conditional_requests_read_back() {
    let id = format!("b3:{}", "0a".repeat(32));
    let req = ConditionalFetch {
        site: "example".into(),
        path: "home".into(),
        if_id: Some(id.clone()),
    };
    let line = encode_conditional_request(&req).unwrap();
    assert_eq!(line, format!("NXP/0.1 FETCH example home {id}\n"));
    assert_eq!(parse_conditional_request(&line).unwrap(), req);
    // A plain request is one without a condition.
    let plain = ConditionalFetch {
        site: "example".into(),
        path: "home".into(),
        if_id: None,
    };
    assert_eq!(
        encode_conditional_request(&plain).unwrap(),
        "NXP/0.1 FETCH example home\n"
    );
    assert_eq!(
        parse_conditional_request("NXP/0.1 FETCH example home\n").unwrap(),
        plain
    );
    // The plain reader does not take the condition for a part of the path.
    assert!(matches!(parse_request(&line), Err(ProtocolError::BadPath(_))));
}

#[test]
fn conditional_requests_refuse_other_tokens() {
    for bad in [
        "NXP/0.1 FETCH example home extra\n",
        "NXP/0.1 FETCH example home b3:00\n",
        "NXP/0.1 FETCH example home \n",
        "NXP/0.1 FETCH example ../x\n",
    ] {
        assert!(
            matches!(
                parse_conditional_request(bad),
                Err(ProtocolError::BadPath(_))
            ),
            "{bad:?}"
        );
    }
    assert!(matches!(
        encode_conditional_request(&ConditionalFetch {
            site: "example".into(),
            path: "home".into(),
            if_id: Some("nope".into()),
        }),
        Err(ProtocolError::Malformed(_))
    ));
    assert!(matches!(
        encode_conditional_request(&ConditionalFetch {
            site: "Example".into(),
            path: "home".into(),
            if_id: None,
        }),
        Err(ProtocolError::BadSite(_))
    ));
}

#[test]
fn each_error_has_its_input_and_its_text() {
    let text = |r: Result<FetchRequest, ProtocolError>| r.unwrap_err().to_string();
    assert!(matches!(parse_request("\n"), Err(ProtocolError::Empty)));
    assert_eq!(text(parse_request("\n")), "empty request");
    let long = format!("NXP/0.1 FETCH example {}\n", "x".repeat(MAX_LINE));
    assert!(matches!(parse_request(&long), Err(ProtocolError::LineTooLong)));
    assert!(matches!(
        encode_response(200, &vec![0u8; MAX_BODY + 1]),
        Err(ProtocolError::BodyTooLarge(n)) if n == MAX_BODY + 1
    ));
    assert!(matches!(
        parse_request("NXP/0.2 FETCH example home\n"),
        Err(ProtocolError::BadVersion(v)) if v == "NXP/0.2"
    ));
    assert!(matches!(
        parse_response_header("NXP/0.1 99 0\n"),
        Err(ProtocolError::BadCode(c)) if c == "99"
    ));
    assert!(matches!(
        parse_response_header("NXP/0.1 200 x\n"),
        Err(ProtocolError::BadLength(l)) if l == "x"
    ));
    assert!(matches!(
        split_response(b"NXP/0.1 200 2\nhi!"),
        Err(ProtocolError::Malformed(_))
    ));
    assert!(matches!(
        split_response(b"NXP/0.1 200 4\nhi!"),
        Err(ProtocolError::Truncated)
    ));
    assert_eq!(encode_response(404, b"no").unwrap(), b"NXP/0.1 404 2\nno");
}
