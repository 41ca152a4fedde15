//! NXP/0.1: the text protocol.
//!
//! Request lines:
//!   `NXP/0.1 FETCH <site> <path>\n`: fetch a page body
//!   `NXP/0.1 FETCH <site> <path> <content id>\n`: the same, unless it is the
//!   one with that content id
//!   `NXP/0.1 RECORDS <site> <path>\n`: fetch the signed records of a page
//!   `NXP/0.1 LIST <site>\n`: list the paths of a site
//! Response:
//!   `NXP/0.1 <CODE> <LEN>\n<body bytes>`
//!
//! Every size is bounded.

use crate::digest::{is_content_id, valid_content_id};
use crate::hex_text::is_hex_digit;
use crate::text::{
    byte_len, chars_of, dec_chars, decimal, head, is_digit, is_lower, is_upper,
    law_decimal_round_trip, lemma_dec_chars, lemma_dec_chars_len, lemma_split_joined,
    lemma_split_none, parse_bounded, parse_u16, parse_usize, same_text, split_first, strip_line_end,
    tail, utf8_len, utf8_str, without_line_end,
};
use vstd::prelude::*;
use vstd::string::*;
use vstd::utf8::*;

verus! {

/// Version prefix of every request and response line.
pub const VERSION: &'static str = "NXP/0.1";

/// Most bytes of one header or request line.
pub const MAX_LINE: usize = 4096;

/// Most bytes of a response body.
pub const MAX_BODY: usize = 1024 * 1024;

/// Most bytes of a site name.
pub const MAX_SITE_LEN: usize = 64;

/// Most bytes of a content path.
pub const MAX_PATH_LEN: usize = 256;

/// A `FETCH` request: which site, which path.
#[derive(Debug, Clone, PartialEq, Eq)]
pub struct FetchRequest {
    /// Site name, see [`is_valid_site`].
    pub site: String,
    /// Content path, see [`is_valid_path`].
    pub path: String,
}

/// A `RECORDS` request: which site's signed records, which path.
#[derive(Debug, Clone, PartialEq, Eq)]
pub struct RecordsRequest {
    /// Site name, see [`is_valid_site`].
    pub site: String,
    /// Content path, see [`is_valid_path`], or `@` and the site name.
    pub path: String,
}

/// A `LIST` request: enumerate the paths of a site.
#[derive(Debug, Clone, PartialEq, Eq)]
pub struct ListRequest {
    /// Site name, see [`is_valid_site`].
    pub site: String,
}

/// A response header: status code and exact body length.
#[derive(Debug, Clone, PartialEq, Eq)]
pub struct ResponseHeader {
    /// Status code, 100 to 599.
    pub code: u16,
    /// Number of body bytes that follow the header line.
    pub body_len: usize,
}

/// Every way in which reading or writing the wire form can fail.
#[derive(Debug, Clone, PartialEq, Eq)]
pub enum ProtocolError {
    /// The request line is empty.
    Empty,
    /// The line exceeds [`MAX_LINE`].
    LineTooLong,
    /// The body length exceeds [`MAX_BODY`]; carries the claimed size.
    BodyTooLarge(usize),
    /// The version prefix is not [`VERSION`].
    BadVersion(String),
    /// The verb is not the expected one.
    BadVerb(String),
    /// The site name fails [`is_valid_site`].
    BadSite(String),
    /// The path fails [`is_valid_path`].
    BadPath(String),
    /// The status code is no number or outside 100 to 599.
    BadCode(String),
    /// The body length is no number.
    BadLength(String),
    /// The frame is structurally wrong.
    Malformed(String),
    /// The frame ends before the declared body is complete.
    Truncated,
}

/// The mathematical value of a site and path pair.
pub struct TargetView {
    pub site: Seq<char>,
    pub path: Seq<char>,
}

/// The mathematical value of a response header.
pub struct HeaderView {
    pub code: nat,
    pub body_len: nat,
}

/// The mathematical value of a [`ProtocolError`].
pub enum ProtocolErrorView {
    Empty,
    LineTooLong,
    BodyTooLarge(nat),
    BadVersion(Seq<char>),
    BadVerb(Seq<char>),
    BadSite(Seq<char>),
    BadPath(Seq<char>),
    BadCode(Seq<char>),
    BadLength(Seq<char>),
    Malformed(Seq<char>),
    Truncated,
}

impl View for FetchRequest {
    type V = TargetView;

    open spec fn view(&self) -> TargetView {
        TargetView { site: self.site@, path: self.path@ }
    }
}

impl View for RecordsRequest {
    type V = TargetView;

    open spec fn view(&self) -> TargetView {
        TargetView { site: self.site@, path: self.path@ }
    }
}

impl View for ListRequest {
    type V = Seq<char>;

    open spec fn view(&self) -> Seq<char> {
        self.site@
    }
}

impl View for ResponseHeader {
    type V = HeaderView;

    open spec fn view(&self) -> HeaderView {
        HeaderView { code: self.code as nat, body_len: self.body_len as nat }
    }
}

impl View for ProtocolError {
    type V = ProtocolErrorView;

    open spec fn view(&self) -> ProtocolErrorView {
        match self {
            ProtocolError::Empty => ProtocolErrorView::Empty,
            ProtocolError::LineTooLong => ProtocolErrorView::LineTooLong,
            ProtocolError::BodyTooLarge(n) => ProtocolErrorView::BodyTooLarge(*n as nat),
            ProtocolError::BadVersion(s) => ProtocolErrorView::BadVersion(s@),
            ProtocolError::BadVerb(s) => ProtocolErrorView::BadVerb(s@),
            ProtocolError::BadSite(s) => ProtocolErrorView::BadSite(s@),
            ProtocolError::BadPath(s) => ProtocolErrorView::BadPath(s@),
            ProtocolError::BadCode(s) => ProtocolErrorView::BadCode(s@),
            ProtocolError::BadLength(s) => ProtocolErrorView::BadLength(s@),
            ProtocolError::Malformed(s) => ProtocolErrorView::Malformed(s@),
            ProtocolError::Truncated => ProtocolErrorView::Truncated,
        }
    }
}

/// The result in mathematical values.
pub open spec fn outcome<T: View, E: View>(r: Result<T, E>) -> Result<T::V, E::V> {
    match r {
        Ok(v) => Ok(v@),
        Err(e) => Err(e@),
    }
}

/// What a [`ProtocolError`] says to a reader.
pub open spec fn error_text(e: ProtocolErrorView) -> Seq<char> {
    match e {
        ProtocolErrorView::Empty => "empty request"@,
        ProtocolErrorView::LineTooLong => "line exceeds "@ + dec_chars(MAX_LINE as nat)
            + " bytes"@,
        ProtocolErrorView::BodyTooLarge(n) => "body "@ + dec_chars(n) + " exceeds "@ + dec_chars(
            MAX_BODY as nat,
        ) + " bytes"@,
        ProtocolErrorView::BadVersion(s) => "bad version: "@ + s,
        ProtocolErrorView::BadVerb(s) => "bad verb: "@ + s,
        ProtocolErrorView::BadSite(s) => "bad site: "@ + s,
        ProtocolErrorView::BadPath(s) => "bad path: "@ + s,
        ProtocolErrorView::BadCode(s) => "bad status code: "@ + s,
        ProtocolErrorView::BadLength(s) => "bad length: "@ + s,
        ProtocolErrorView::Malformed(s) => "malformed: "@ + s,
        ProtocolErrorView::Truncated => "truncated frame"@,
    }
}

/// A character of a site name.
pub open spec fn site_char(c: char) -> bool {
    is_lower(c) || is_digit(c) || c == '-'
}

/// A character of a content path.
pub open spec fn path_char(c: char) -> bool {
    is_lower(c) || is_upper(c) || is_digit(c) || c == '/' || c == '_' || c == '-' || c == '.' || c
        == '+'
}

/// A site name: lowercase letters, digits and dashes, at most
/// [`MAX_SITE_LEN`] of them, no dash at either end.
pub open spec fn valid_site(s: Seq<char>) -> bool {
    &&& 0 < s.len() <= MAX_SITE_LEN
    &&& forall|i: int| 0 <= i < s.len() ==> site_char(#[trigger] s[i])
    &&& s[0] != '-'
    &&& s.last() != '-'
}

/// Two equal characters `c` stand side by side in `s`.
pub open spec fn has_pair(s: Seq<char>, c: char) -> bool {
    exists|i: int| 0 <= i < s.len() - 1 && #[trigger] s[i] == c && s[i + 1] == c
}

/// A content path: relative, at most [`MAX_PATH_LEN`] characters, no
/// traversal, no empty segment.
pub open spec fn valid_path(s: Seq<char>) -> bool {
    &&& 0 < s.len() <= MAX_PATH_LEN
    &&& s[0] != '/'
    &&& !has_pair(s, '/')
    &&& !has_pair(s, '.')
    &&& forall|i: int| 0 <= i < s.len() ==> path_char(#[trigger] s[i])
}

/// The request line with the given verb, site and path.
pub open spec fn request_line(verb: Seq<char>, t: TargetView) -> Seq<char> {
    VERSION@ + seq![' '] + verb + seq![' '] + t.site + seq![' '] + t.path + seq!['\n']
}

/// The line that asks for the paths of a site.
pub open spec fn list_line(site: Seq<char>) -> Seq<char> {
    VERSION@ + seq![' '] + "LIST"@ + seq![' '] + site + seq!['\n']
}

/// Which site and path a request may name: the first flaw found is the error.
pub open spec fn checked_target(t: TargetView) -> Result<TargetView, ProtocolErrorView> {
    if !valid_site(t.site) {
        Err(ProtocolErrorView::BadSite(t.site))
    } else if !valid_path(t.path) {
        Err(ProtocolErrorView::BadPath(t.path))
    } else {
        Ok(t)
    }
}

/// As [`checked_target`], but a path that starts with `@` has to be `@` and
/// the site name.
pub open spec fn checked_records_target(t: TargetView) -> Result<TargetView, ProtocolErrorView> {
    if t.path.len() > 0 && t.path[0] == '@' {
        if t.path.skip(1) == t.site && valid_site(t.site) {
            Ok(t)
        } else {
            Err(ProtocolErrorView::BadPath(t.path))
        }
    } else {
        checked_target(t)
    }
}

/// The line for a checked target.
pub open spec fn encoded(
    verb: Seq<char>,
    checked: Result<TargetView, ProtocolErrorView>,
) -> Result<Seq<char>, ProtocolErrorView> {
    match checked {
        Ok(t) => Ok(request_line(verb, t)),
        Err(e) => Err(e),
    }
}

/// The line that asks for the paths of a site, where the site is valid.
pub open spec fn encoded_list(site: Seq<char>) -> Result<Seq<char>, ProtocolErrorView> {
    if valid_site(site) {
        Ok(list_line(site))
    } else {
        Err(ProtocolErrorView::BadSite(site))
    }
}

/// The part of a request line behind the version, or why there is none.
pub open spec fn after_version(line: Seq<char>) -> Result<Seq<char>, ProtocolErrorView> {
    let l = strip_line_end(line);
    if l.len() == 0 {
        Err(ProtocolErrorView::Empty)
    } else if byte_len(l) > MAX_LINE {
        Err(ProtocolErrorView::LineTooLong)
    } else if head(l, ' ') != VERSION@ {
        Err(ProtocolErrorView::BadVersion(head(l, ' ')))
    } else {
        Ok(tail(l, ' '))
    }
}

/// The part of a request line behind the expected verb.
pub open spec fn after_verb(line: Seq<char>, verb: Seq<char>) -> Result<
    Seq<char>,
    ProtocolErrorView,
> {
    match after_version(line) {
        Err(e) => Err(e),
        Ok(rest) => if head(rest, ' ') != verb {
            Err(ProtocolErrorView::BadVerb(head(rest, ' ')))
        } else {
            Ok(tail(rest, ' '))
        },
    }
}

/// Site and path of a text that holds both: the first space parts them.
pub open spec fn target_of(rest: Seq<char>) -> TargetView {
    TargetView { site: head(rest, ' '), path: tail(rest, ' ') }
}

/// What a `FETCH` line asks for.
pub open spec fn parsed_fetch(line: Seq<char>) -> Result<TargetView, ProtocolErrorView> {
    match after_verb(line, "FETCH"@) {
        Err(e) => Err(e),
        Ok(rest) => checked_target(target_of(rest)),
    }
}

/// What a `RECORDS` line asks for.
pub open spec fn parsed_records(line: Seq<char>) -> Result<TargetView, ProtocolErrorView> {
    match after_verb(line, "RECORDS"@) {
        Err(e) => Err(e),
        Ok(rest) => checked_records_target(target_of(rest)),
    }
}

/// What a `LIST` line asks for.
pub open spec fn parsed_list(line: Seq<char>) -> Result<Seq<char>, ProtocolErrorView> {
    match after_verb(line, "LIST"@) {
        Err(e) => Err(e),
        Ok(site) => if valid_site(site) {
            Ok(site)
        } else {
            Err(ProtocolErrorView::BadSite(site))
        },
    }
}

/// A status code that a response may carry.
pub open spec fn valid_code(code: nat) -> bool {
    100 <= code <= 599
}

/// The header line of a response.
pub open spec fn header_line(h: HeaderView) -> Seq<char> {
    VERSION@ + seq![' '] + dec_chars(h.code) + seq![' '] + dec_chars(h.body_len) + seq!['\n']
}

/// The frame that carries a body.
pub open spec fn encoded_response(code: nat, body: Seq<u8>) -> Result<
    Seq<u8>,
    ProtocolErrorView,
> {
    if body.len() > MAX_BODY {
        Err(ProtocolErrorView::BodyTooLarge(body.len()))
    } else if !valid_code(code) {
        Err(ProtocolErrorView::BadCode(dec_chars(code)))
    } else {
        Ok(encode_utf8(header_line(HeaderView { code, body_len: body.len() })) + body)
    }
}

/// What a response header line says.
pub open spec fn parsed_header(line: Seq<char>) -> Result<HeaderView, ProtocolErrorView> {
    let l = strip_line_end(line);
    let code = head(tail(l, ' '), ' ');
    let len = tail(tail(l, ' '), ' ');
    if byte_len(l) > MAX_LINE {
        Err(ProtocolErrorView::LineTooLong)
    } else if head(l, ' ') != VERSION@ {
        Err(ProtocolErrorView::BadVersion(head(l, ' ')))
    } else {
        match parse_bounded(code, u16::MAX as nat) {
            None => Err(ProtocolErrorView::BadCode(code)),
            Some(c) => if !valid_code(c) {
                Err(ProtocolErrorView::BadCode(dec_chars(c)))
            } else {
                match parse_bounded(len, usize::MAX as nat) {
                    None => Err(ProtocolErrorView::BadLength(len)),
                    Some(n) => if n > MAX_BODY {
                        Err(ProtocolErrorView::BodyTooLarge(n))
                    } else {
                        Ok(HeaderView { code: c, body_len: n })
                    },
                }
            },
        }
    }
}

/// Position of the first newline byte, or the length without one.
pub open spec fn newline_at(frame: Seq<u8>) -> nat
    decreases frame.len(),
{
    if frame.len() == 0 || frame[0] == 10 {
        0
    } else {
        1 + newline_at(frame.skip(1))
    }
}

/// Header and body of a frame: the body has to have the declared length.
pub open spec fn parsed_response(frame: Seq<u8>) -> Result<
    (HeaderView, Seq<u8>),
    ProtocolErrorView,
> {
    let nl = newline_at(frame) as int;
    let body = frame.skip(nl + 1);
    if nl >= frame.len() {
        Err(ProtocolErrorView::Truncated)
    } else if nl > MAX_LINE {
        Err(ProtocolErrorView::LineTooLong)
    } else if !valid_utf8(frame.take(nl + 1)) {
        Err(ProtocolErrorView::Malformed("response header is not valid UTF-8"@))
    } else {
        match parsed_header(decode_utf8(frame.take(nl + 1))) {
            Err(e) => Err(e),
            Ok(h) => if body.len() < h.body_len {
                Err(ProtocolErrorView::Truncated)
            } else if body.len() > h.body_len {
                Err(
                    ProtocolErrorView::Malformed(
                        "body has "@ + dec_chars(body.len()) + " bytes, header claims "@
                            + dec_chars(h.body_len),
                    ),
                )
            } else {
                Ok((h, body))
            },
        }
    }
}

impl ProtocolError {
    /// What the error says to a reader.
    pub fn to_string(&self) -> (out: String)
        ensures
            out@ == error_text(self@),
    {
        match self {
            ProtocolError::Empty => "empty request".to_owned(),
            ProtocolError::LineTooLong => "line exceeds ".to_owned().concat(
                decimal(MAX_LINE as u64).as_str(),
            ).concat(" bytes"),
            ProtocolError::BodyTooLarge(n) => "body ".to_owned().concat(
                decimal(*n as u64).as_str(),
            ).concat(" exceeds ").concat(decimal(MAX_BODY as u64).as_str()).concat(" bytes"),
            ProtocolError::BadVersion(s) => "bad version: ".to_owned().concat(s.as_str()),
            ProtocolError::BadVerb(s) => "bad verb: ".to_owned().concat(s.as_str()),
            ProtocolError::BadSite(s) => "bad site: ".to_owned().concat(s.as_str()),
            ProtocolError::BadPath(s) => "bad path: ".to_owned().concat(s.as_str()),
            ProtocolError::BadCode(s) => "bad status code: ".to_owned().concat(s.as_str()),
            ProtocolError::BadLength(s) => "bad length: ".to_owned().concat(s.as_str()),
            ProtocolError::Malformed(s) => "malformed: ".to_owned().concat(s.as_str()),
            ProtocolError::Truncated => "truncated frame".to_owned(),
        }
    }
}

proof fn lemma_ascii_len(s: Seq<char>)
    requires
        forall|i: int| 0 <= i < s.len() ==> '\0' <= #[trigger] s[i] <= '\u{7f}',
    ensures
        byte_len(s) == s.len(),
{
    is_ascii_chars_encode_utf8(s);
}

/// Whether `s` is a site name.
pub fn is_valid_site(s: &str) -> (valid: bool)
    ensures
        valid == valid_site(s@),
{
    let chars = chars_of(s);
    if chars.len() == 0 || chars.len() > MAX_SITE_LEN {
        return false;
    }
    let mut i: usize = 0;
    while i < chars.len()
        invariant
            i <= chars.len(),
            chars@ == s@,
            forall|j: int| 0 <= j < i ==> site_char(#[trigger] chars@[j]),
        decreases chars.len() - i,
    {
        let c = chars[i];
        if !((c >= 'a' && c <= 'z') || (c >= '0' && c <= '9') || c == '-') {
            assert(!site_char(s@[i as int]));
            return false;
        }
        i = i + 1;
    }
    chars[0] != '-' && chars[chars.len() - 1] != '-'
}

/// Whether two equal characters `c` stand side by side.
fn holds_pair(chars: &Vec<char>, c: char) -> (found: bool)
    ensures
        found == has_pair(chars@, c),
{
    if chars.len() == 0 {
        return false;
    }
    let mut i: usize = 0;
    while i < chars.len() - 1
        invariant
            0 < chars.len(),
            i <= chars.len() - 1,
            forall|j: int| 0 <= j < i ==> !(#[trigger] chars@[j] == c && chars@[j + 1] == c),
        decreases chars.len() - i,
    {
        if chars[i] == c && chars[i + 1] == c {
            return true;
        }
        i = i + 1;
    }
    false
}

/// Whether `s` is a content path.
pub fn is_valid_path(s: &str) -> (valid: bool)
    ensures
        valid == valid_path(s@),
{
    let chars = chars_of(s);
    if chars.len() == 0 || chars.len() > MAX_PATH_LEN {
        return false;
    }
    if chars[0] == '/' || holds_pair(&chars, '/') || holds_pair(&chars, '.') {
        return false;
    }
    let mut i: usize = 0;
    while i < chars.len()
        invariant
            i <= chars.len(),
            chars@ == s@,
            forall|j: int| 0 <= j < i ==> path_char(#[trigger] chars@[j]),
        decreases chars.len() - i,
    {
        let c = chars[i];
        if !((c >= 'a' && c <= 'z') || (c >= 'A' && c <= 'Z') || (c >= '0' && c <= '9') || c == '/'
            || c == '_' || c == '-' || c == '.' || c == '+') {
            assert(!path_char(s@[i as int]));
            return false;
        }
        i = i + 1;
    }
    true
}

/// The request line with the given verb, site and path.
fn write_request_line(verb: &str, site: &str, path: &str) -> (line: String)
    ensures
        line@ == request_line(verb@, TargetView { site: site@, path: path@ }),
{
    let mut line = VERSION.to_owned();
    line.push(' ');
    line.append(verb);
    line.push(' ');
    line.append(site);
    line.push(' ');
    line.append(path);
    line.push('\n');
    line
}

/// The request line, where site and path are valid.
fn encode_request_line(verb: &str, site: &str, path: &str) -> (out: Result<String, ProtocolError>)
    ensures
        outcome(out) == encoded(verb@, checked_target(TargetView { site: site@, path: path@ })),
{
    if !is_valid_site(site) {
        return Err(ProtocolError::BadSite(site.to_owned()));
    }
    if !is_valid_path(path) {
        return Err(ProtocolError::BadPath(path.to_owned()));
    }
    Ok(write_request_line(verb, site, path))
}

/// The wire line of a `FETCH` request.
pub fn encode_request(req: &FetchRequest) -> (out: Result<String, ProtocolError>)
    ensures
        outcome(out) == encoded("FETCH"@, checked_target(req@)),
{
    encode_request_line("FETCH", req.site.as_str(), req.path.as_str())
}

/// Whether `path` is `@` and the site name.
fn names_endpoint(path: &str, site: &str) -> (same: bool)
    requires
        path@.len() > 0,
    ensures
        same == (path@.skip(1) == site@),
{
    let n = path.unicode_len();
    assert(path@.subrange(1, n as int) =~= path@.skip(1));
    same_text(path.substring_char(1, n), site)
}

/// Whether `path` lies in the namespace of endpoint records.
fn starts_with_at(path: &str) -> (found: bool)
    ensures
        found == (path@.len() > 0 && path@[0] == '@'),
{
    path.unicode_len() > 0 && path.get_char(0) == '@'
}

/// The wire line of a `RECORDS` request.
pub fn encode_records_request(req: &RecordsRequest) -> (out: Result<String, ProtocolError>)
    ensures
        outcome(out) == encoded("RECORDS"@, checked_records_target(req@)),
{
    if starts_with_at(req.path.as_str()) {
        if !names_endpoint(req.path.as_str(), req.site.as_str()) || !is_valid_site(
            req.site.as_str(),
        ) {
            return Err(ProtocolError::BadPath(req.path.clone()));
        }
        return Ok(write_request_line("RECORDS", req.site.as_str(), req.path.as_str()));
    }
    encode_request_line("RECORDS", req.site.as_str(), req.path.as_str())
}

/// The wire line of a `LIST` request.
pub fn encode_list_request(req: &ListRequest) -> (out: Result<String, ProtocolError>)
    ensures
        outcome(out) == encoded_list(req@),
{
    if !is_valid_site(req.site.as_str()) {
        return Err(ProtocolError::BadSite(req.site.clone()));
    }
    let mut line = VERSION.to_owned();
    line.push(' ');
    line.append("LIST");
    line.push(' ');
    line.append(req.site.as_str());
    line.push('\n');
    assert(line@ =~= list_line(req.site@));
    Ok(line)
}

/// The part of a request line behind the expected verb.
fn split_request_line<'a>(line: &'a str, verb: &str) -> (out: Result<&'a str, ProtocolError>)
    ensures
        match out {
            Ok(rest) => after_verb(line@, verb@) == Ok::<Seq<char>, ProtocolErrorView>(rest@),
            Err(e) => after_verb(line@, verb@) == Err::<Seq<char>, ProtocolErrorView>(e@),
        },
{
    let line = without_line_end(line);
    if line.is_empty() {
        return Err(ProtocolError::Empty);
    }
    if utf8_len(line) > MAX_LINE {
        return Err(ProtocolError::LineTooLong);
    }
    let (version, rest) = split_first(line, ' ');
    if !same_text(version, VERSION) {
        return Err(ProtocolError::BadVersion(version.to_owned()));
    }
    let (found, rest) = split_first(rest, ' ');
    if !same_text(found, verb) {
        return Err(ProtocolError::BadVerb(found.to_owned()));
    }
    Ok(rest)
}

/// Site and path, where both are valid.
fn check_site_path(site: &str, path: &str) -> (out: Result<(), ProtocolError>)
    ensures
        match out {
            Ok(_) => checked_target(TargetView { site: site@, path: path@ }) is Ok,
            Err(e) => checked_target(TargetView { site: site@, path: path@ }) == Err::<
                TargetView,
                ProtocolErrorView,
            >(e@),
        },
{
    if !is_valid_site(site) {
        return Err(ProtocolError::BadSite(site.to_owned()));
    }
    if !is_valid_path(path) {
        return Err(ProtocolError::BadPath(path.to_owned()));
    }
    Ok(())
}

/// Reads one `FETCH` line.
pub fn parse_request(line: &str) -> (out: Result<FetchRequest, ProtocolError>)
    ensures
        outcome(out) == parsed_fetch(line@),
{
    let rest = match split_request_line(line, "FETCH") {
        Ok(rest) => rest,
        Err(e) => return Err(e),
    };
    let (site, path) = split_first(rest, ' ');
    match check_site_path(site, path) {
        Ok(_) => Ok(FetchRequest { site: site.to_owned(), path: path.to_owned() }),
        Err(e) => Err(e),
    }
}

/// Reads one `RECORDS` line.
pub fn parse_records_request(line: &str) -> (out: Result<RecordsRequest, ProtocolError>)
    ensures
        outcome(out) == parsed_records(line@),
{
    let rest = match split_request_line(line, "RECORDS") {
        Ok(rest) => rest,
        Err(e) => return Err(e),
    };
    let (site, path) = split_first(rest, ' ');
    if starts_with_at(path) {
        if !names_endpoint(path, site) || !is_valid_site(site) {
            return Err(ProtocolError::BadPath(path.to_owned()));
        }
        return Ok(RecordsRequest { site: site.to_owned(), path: path.to_owned() });
    }
    match check_site_path(site, path) {
        Ok(_) => Ok(RecordsRequest { site: site.to_owned(), path: path.to_owned() }),
        Err(e) => Err(e),
    }
}

/// Reads one `LIST` line.
pub fn parse_list_request(line: &str) -> (out: Result<ListRequest, ProtocolError>)
    ensures
        outcome(out) == parsed_list(line@),
{
    let site = match split_request_line(line, "LIST") {
        Ok(rest) => rest,
        Err(e) => return Err(e),
    };
    if !is_valid_site(site) {
        return Err(ProtocolError::BadSite(site.to_owned()));
    }
    Ok(ListRequest { site: site.to_owned() })
}

/// The frame that carries `body` under `code`.
pub fn encode_response(code: u16, body: &[u8]) -> (out: Result<Vec<u8>, ProtocolError>)
    ensures
        outcome(out) == encoded_response(code as nat, body@),
{
    if body.len() > MAX_BODY {
        return Err(ProtocolError::BodyTooLarge(body.len()));
    }
    if code < 100 || code > 599 {
        return Err(ProtocolError::BadCode(decimal(code as u64)));
    }
    let mut header = VERSION.to_owned();
    header.push(' ');
    header.append(decimal(code as u64).as_str());
    header.push(' ');
    header.append(decimal(body.len() as u64).as_str());
    header.push('\n');
    assert(header@ =~= header_line(HeaderView { code: code as nat, body_len: body@.len() }));
    let mut frame: Vec<u8> = Vec::new();
    frame.extend_from_slice(header.as_str().as_bytes());
    frame.extend_from_slice(body);
    assert(frame@ =~= encode_utf8(header@) + body@);
    Ok(frame)
}

/// Reads a response header line.
pub fn parse_response_header(line: &str) -> (out: Result<ResponseHeader, ProtocolError>)
    ensures
        outcome(out) == parsed_header(line@),
{
    let line = without_line_end(line);
    if utf8_len(line) > MAX_LINE {
        return Err(ProtocolError::LineTooLong);
    }
    let (version, rest) = split_first(line, ' ');
    if !same_text(version, VERSION) {
        return Err(ProtocolError::BadVersion(version.to_owned()));
    }
    let (code, len) = split_first(rest, ' ');
    let code: u16 = match parse_u16(code) {
        Some(c) => c,
        None => return Err(ProtocolError::BadCode(code.to_owned())),
    };
    if code < 100 || code > 599 {
        return Err(ProtocolError::BadCode(decimal(code as u64)));
    }
    let body_len: usize = match parse_usize(len) {
        Some(n) => n,
        None => return Err(ProtocolError::BadLength(len.to_owned())),
    };
    if body_len > MAX_BODY {
        return Err(ProtocolError::BodyTooLarge(body_len));
    }
    Ok(ResponseHeader { code, body_len })
}

proof fn lemma_newline_at(frame: Seq<u8>, k: int)
    requires
        0 <= k <= frame.len(),
        k < frame.len() ==> frame[k] == 10,
        forall|i: int| 0 <= i < k ==> frame[i] != 10,
    ensures
        newline_at(frame) == k,
    decreases k,
{
    if k > 0 {
        assert(frame[0] != 10);
        assert forall|i: int| 0 <= i < k - 1 implies frame.skip(1)[i] != 10 by {
            assert(frame[i + 1] != 10);
        }
        lemma_newline_at(frame.skip(1), k - 1);
    }
}

/// Splits a response frame into header and body.
pub fn split_response(frame: &[u8]) -> (out: Result<(ResponseHeader, &[u8]), ProtocolError>)
    ensures
        match out {
            Ok(parts) => parsed_response(frame@) == Ok::<
                (HeaderView, Seq<u8>),
                ProtocolErrorView,
            >((parts.0@, parts.1@)),
            Err(e) => parsed_response(frame@) == Err::<(HeaderView, Seq<u8>), ProtocolErrorView>(
                e@,
            ),
        },
{
    let mut nl: usize = 0;
    while nl < frame.len() && frame[nl] != 10
        invariant
            nl <= frame.len(),
            forall|j: int| 0 <= j < nl ==> frame@[j] != 10,
        decreases frame.len() - nl,
    {
        nl = nl + 1;
    }
    proof {
        lemma_newline_at(frame@, nl as int);
    }
    if nl == frame.len() {
        return Err(ProtocolError::Truncated);
    }
    if nl > MAX_LINE {
        return Err(ProtocolError::LineTooLong);
    }
    let (line, body) = frame.split_at(nl + 1);
    assert(line@ =~= frame@.take(nl + 1));
    assert(body@ =~= frame@.skip(nl + 1));
    let text = match utf8_str(line) {
        Some(text) => text,
        None => {
            return Err(
                ProtocolError::Malformed("response header is not valid UTF-8".to_owned()),
            );
        },
    };
    proof {
        encode_utf8_decode_utf8(text@);
    }
    let header = match parse_response_header(text) {
        Ok(h) => h,
        Err(e) => return Err(e),
    };
    if body.len() < header.body_len {
        return Err(ProtocolError::Truncated);
    }
    if body.len() > header.body_len {
        return Err(
            ProtocolError::Malformed(
                "body has ".to_owned().concat(decimal(body.len() as u64).as_str()).concat(
                    " bytes, header claims ",
                ).concat(decimal(header.body_len as u64).as_str()),
            ),
        );
    }
    Ok((header, body))
}

/// A printable ASCII text: no control character, no other script.
spec fn printable(s: Seq<char>) -> bool {
    forall|i: int| 0 <= i < s.len() ==> ' ' <= #[trigger] s[i] <= '~'
}

proof fn lemma_printable_pair(a: Seq<char>, b: Seq<char>)
    requires
        printable(a),
        printable(b),
    ensures
        printable(a + seq![' '] + b),
{
    let s = a + seq![' '] + b;
    assert forall|i: int| 0 <= i < s.len() implies ' ' <= #[trigger] s[i] <= '~' by {
        if i > a.len() {
            assert(s[i] == b[i - a.len() - 1]);
        }
    }
}

proof fn lemma_strip_newline(l: Seq<char>)
    requires
        printable(l),
    ensures
        strip_line_end(l.push('\n')) == l,
{
    assert(l.push('\n').drop_last() =~= l);
    if l.len() > 0 {
        assert(' ' <= l[l.len() - 1]);
    }
}

/// Version, verb and rest of a line are read back as they were written.
proof fn lemma_line_read_back(verb: Seq<char>, rest: Seq<char>)
    requires
        verb == "FETCH"@ || verb == "RECORDS"@ || verb == "LIST"@,
        printable(rest),
        0 < rest.len() <= 2000,
    ensures
        after_verb((VERSION@ + seq![' '] + verb + seq![' '] + rest).push('\n'), verb) == Ok::<
            Seq<char>,
            ProtocolErrorView,
        >(rest),
{
    reveal_strlit("NXP/0.1");
    reveal_strlit("FETCH");
    reveal_strlit("RECORDS");
    reveal_strlit("LIST");
    let l = VERSION@ + seq![' '] + verb + seq![' '] + rest;
    lemma_printable_pair(verb, rest);
    lemma_printable_pair(VERSION@, verb + seq![' '] + rest);
    assert(l =~= VERSION@ + seq![' '] + (verb + seq![' '] + rest));
    lemma_strip_newline(l);
    lemma_ascii_len(l);
    lemma_split_joined(VERSION@, ' ', verb + seq![' '] + rest);
    lemma_split_joined(verb, ' ', rest);
}

proof fn lemma_site_printable(site: Seq<char>)
    requires
        valid_site(site),
    ensures
        printable(site),
        forall|i: int| 0 <= i < site.len() ==> #[trigger] site[i] != ' ',
{
    assert forall|i: int| 0 <= i < site.len() implies ' ' < #[trigger] site[i] <= '~' by {
        assert(site_char(site[i]));
    }
}

proof fn lemma_target_printable(t: TargetView)
    requires
        checked_records_target(t) is Ok,
    ensures
        printable(t.site),
        printable(t.path),
        0 < t.site.len() <= MAX_SITE_LEN,
        0 < t.path.len() <= MAX_PATH_LEN + 1,
        forall|i: int| 0 <= i < t.site.len() ==> #[trigger] t.site[i] != ' ',
{
    lemma_site_printable(t.site);
    if t.path.len() > 0 && t.path[0] == '@' {
        assert forall|i: int| 0 <= i < t.path.len() implies ' ' <= #[trigger] t.path[i] <= '~' by {
            if i > 0 {
                assert(t.path[i] == t.path.skip(1)[i - 1]);
            }
        }
    } else {
        assert forall|i: int| 0 <= i < t.path.len() implies ' ' <= #[trigger] t.path[i] <= '~' by {
            assert(path_char(t.path[i]));
        }
    }
}

/// A request line is version, verb and rest.
proof fn lemma_request_line(verb: Seq<char>, t: TargetView)
    ensures
        request_line(verb, t) == (VERSION@ + seq![' '] + verb + seq![' '] + (t.site + seq![' ']
            + t.path)).push('\n'),
{
    assert(request_line(verb, t) =~= (VERSION@ + seq![' '] + verb + seq![' '] + (t.site + seq![' ']
        + t.path)).push('\n'));
}

proof fn lemma_target_read_back(verb: Seq<char>, t: TargetView)
    requires
        verb == "FETCH"@ || verb == "RECORDS"@,
        checked_records_target(t) is Ok,
    ensures
        after_verb(request_line(verb, t), verb) == Ok::<Seq<char>, ProtocolErrorView>(
            t.site + seq![' '] + t.path,
        ),
        target_of(t.site + seq![' '] + t.path) == t,
{
    let rest = t.site + seq![' '] + t.path;
    lemma_target_printable(t);
    lemma_printable_pair(t.site, t.path);
    lemma_request_line(verb, t);
    lemma_line_read_back(verb, rest);
    lemma_split_joined(t.site, ' ', t.path);
}

/// A `FETCH` request that can be written is read back as it was.
pub proof fn law_fetch_round_trip(t: TargetView)
    requires
        encoded("FETCH"@, checked_target(t)) is Ok,
    ensures
        parsed_fetch(encoded("FETCH"@, checked_target(t))->Ok_0) == Ok::<
            TargetView,
            ProtocolErrorView,
        >(t),
{
    if t.path[0] == '@' {
        assert(path_char(t.path[0]));
    }
    lemma_target_read_back("FETCH"@, t);
}

/// A `RECORDS` request that can be written is read back as it was, in the
/// endpoint namespace too.
pub proof fn law_records_round_trip(t: TargetView)
    requires
        encoded("RECORDS"@, checked_records_target(t)) is Ok,
    ensures
        parsed_records(encoded("RECORDS"@, checked_records_target(t))->Ok_0) == Ok::<
            TargetView,
            ProtocolErrorView,
        >(t),
{
    lemma_target_read_back("RECORDS"@, t);
}

/// A `LIST` request that can be written is read back as it was.
pub proof fn law_list_round_trip(site: Seq<char>)
    requires
        encoded_list(site) is Ok,
    ensures
        parsed_list(encoded_list(site)->Ok_0) == Ok::<Seq<char>, ProtocolErrorView>(site),
{
    lemma_site_printable(site);
    lemma_line_read_back("LIST"@, site);
    assert(list_line(site) =~= (VERSION@ + seq![' '] + "LIST"@ + seq![' '] + site).push('\n'));
}

/// Whatever a reader accepts can be written, and is then read as the same
/// request again.
pub proof fn law_accepted_requests_are_stable(line: Seq<char>)
    ensures
        parsed_fetch(line) matches Ok(t) ==> encoded("FETCH"@, checked_target(t)) is Ok
            && parsed_fetch(encoded("FETCH"@, checked_target(t))->Ok_0) == parsed_fetch(line),
        parsed_records(line) matches Ok(t) ==> encoded("RECORDS"@, checked_records_target(t)) is Ok
            && parsed_records(encoded("RECORDS"@, checked_records_target(t))->Ok_0)
            == parsed_records(line),
        parsed_list(line) matches Ok(site) ==> encoded_list(site) is Ok && parsed_list(
            encoded_list(site)->Ok_0,
        ) == parsed_list(line),
{
    if let Ok(t) = parsed_fetch(line) {
        law_fetch_round_trip(t);
    }
    if let Ok(t) = parsed_records(line) {
        law_records_round_trip(t);
    }
    if let Ok(site) = parsed_list(line) {
        law_list_round_trip(site);
    }
}

/// A line that one verb's reader accepts is refused by the two others, for
/// its verb.
pub proof fn law_verbs_do_not_cross_parse(line: Seq<char>)
    ensures
        parsed_fetch(line) is Ok ==> parsed_records(line) == Err::<TargetView, ProtocolErrorView>(
            ProtocolErrorView::BadVerb("FETCH"@),
        ) && parsed_list(line) == Err::<Seq<char>, ProtocolErrorView>(
            ProtocolErrorView::BadVerb("FETCH"@),
        ),
        parsed_records(line) is Ok ==> parsed_fetch(line) == Err::<TargetView, ProtocolErrorView>(
            ProtocolErrorView::BadVerb("RECORDS"@),
        ) && parsed_list(line) == Err::<Seq<char>, ProtocolErrorView>(
            ProtocolErrorView::BadVerb("RECORDS"@),
        ),
        parsed_list(line) is Ok ==> parsed_fetch(line) == Err::<TargetView, ProtocolErrorView>(
            ProtocolErrorView::BadVerb("LIST"@),
        ) && parsed_records(line) == Err::<TargetView, ProtocolErrorView>(
            ProtocolErrorView::BadVerb("LIST"@),
        ),
{
    reveal_strlit("FETCH");
    reveal_strlit("RECORDS");
    reveal_strlit("LIST");
    assert("FETCH"@.len() == 5);
    assert("RECORDS"@.len() == 7);
    assert("LIST"@.len() == 4);
}

/// A request that is accepted names a valid site, and a path without
/// traversal, without an empty segment and without a leading slash; nothing
/// of it can break out of its line.
pub proof fn law_accepted_targets_are_safe(line: Seq<char>)
    ensures
        parsed_fetch(line) matches Ok(t) ==> valid_site(t.site) && valid_path(t.path),
        parsed_records(line) matches Ok(t) ==> valid_site(t.site) && (valid_path(t.path) || t.path
            == seq!['@'] + t.site),
        parsed_list(line) matches Ok(site) ==> valid_site(site),
        parsed_fetch(line) matches Ok(t) ==> !t.site.contains('\n') && !t.path.contains('\n')
            && !t.site.contains(' ') && !t.path.contains(' '),
{
    if let Ok(t) = parsed_fetch(line) {
        assert forall|i: int| 0 <= i < t.path.len() implies ' ' < #[trigger] t.path[i] by {
            assert(path_char(t.path[i]));
        }
        lemma_site_printable(t.site);
    }
    if let Ok(t) = parsed_records(line) {
        if t.path.len() > 0 && t.path[0] == '@' {
            assert(t.path =~= seq!['@'] + t.site);
        }
    }
}

proof fn lemma_dec_printable(n: nat)
    ensures
        printable(dec_chars(n)),
        forall|i: int| 0 <= i < dec_chars(n).len() ==> #[trigger] dec_chars(n)[i] != ' ',
{
    lemma_dec_chars(n);
    assert forall|i: int| 0 <= i < dec_chars(n).len() implies ' ' < #[trigger] dec_chars(n)[i]
        <= '~' by {
        assert(is_digit(dec_chars(n)[i]));
    }
}

proof fn lemma_header_read_back(h: HeaderView)
    requires
        valid_code(h.code),
        h.body_len <= MAX_BODY,
    ensures
        parsed_header(header_line(h)) == Ok::<HeaderView, ProtocolErrorView>(h),
        printable(header_line(h).drop_last()),
        header_line(h).last() == '\n',
        header_line(h).len() <= 60,
{
    reveal_strlit("NXP/0.1");
    let c = dec_chars(h.code);
    let n = dec_chars(h.body_len);
    lemma_dec_printable(h.code);
    lemma_dec_printable(h.body_len);
    lemma_dec_chars_len(h.code);
    lemma_dec_chars_len(h.body_len);
    law_decimal_round_trip(h.code);
    law_decimal_round_trip(h.body_len);
    let rest = c + seq![' '] + n;
    let l = VERSION@ + seq![' '] + rest;
    lemma_printable_pair(c, n);
    lemma_printable_pair(VERSION@, rest);
    assert(header_line(h) =~= l.push('\n'));
    assert(l =~= header_line(h).drop_last());
    lemma_strip_newline(l);
    lemma_ascii_len(l);
    lemma_split_joined(VERSION@, ' ', rest);
    lemma_split_joined(c, ' ', n);
}

/// A response that can be written is split into its code and its body again.
pub proof fn law_response_round_trip(code: nat, body: Seq<u8>)
    requires
        encoded_response(code, body) is Ok,
    ensures
        parsed_response(encoded_response(code, body)->Ok_0) == Ok::<
            (HeaderView, Seq<u8>),
            ProtocolErrorView,
        >((HeaderView { code, body_len: body.len() }, body)),
{
    let h = HeaderView { code, body_len: body.len() };
    let line = header_line(h);
    let frame = encode_utf8(line) + body;
    lemma_header_read_back(h);
    assert forall|i: int| 0 <= i < line.len() implies '\0' <= #[trigger] line[i] <= '\u{7f}' by {
        if i < line.len() - 1 {
            assert(line.drop_last()[i] == line[i]);
        }
    }
    is_ascii_chars_encode_utf8(line);
    encode_utf8_decode_utf8(line);
    encode_utf8_valid_utf8(line);
    let k = line.len() - 1;
    assert forall|i: int| 0 <= i < k implies frame[i] != 10 by {
        assert(line.drop_last()[i] == line[i]);
        assert(line[i] as u8 == encode_utf8(line)[i]);
    }
    assert(frame[k] == encode_utf8(line)[k]);
    assert(line[k] as u8 == encode_utf8(line)[k]);
    lemma_newline_at(frame, k);
    assert(frame.take(k + 1) =~= encode_utf8(line));
    assert(frame.skip(k + 1) =~= body);
}

/// An accepted response carries a code from 100 to 599, and a body of
/// exactly the declared length, which is bounded.
pub proof fn law_accepted_responses_are_bounded(frame: Seq<u8>)
    ensures
        parsed_response(frame) matches Ok(parts) ==> valid_code(parts.0.code)
            && parts.1.len() == parts.0.body_len && parts.0.body_len <= MAX_BODY,
{
}

/// A `FETCH` request that may carry the content id of a page that the client
/// holds already.
#[derive(Debug, Clone, PartialEq, Eq)]
pub struct ConditionalFetch {
    /// Site name, see [`is_valid_site`].
    pub site: String,
    /// Content path, see [`is_valid_path`].
    pub path: String,
    /// Content id of the page that the client holds.
    pub if_id: Option<String>,
}

/// The mathematical value of a [`ConditionalFetch`].
pub struct ConditionalView {
    pub target: TargetView,
    pub if_id: Option<Seq<char>>,
}

impl View for ConditionalFetch {
    type V = ConditionalView;

    open spec fn view(&self) -> ConditionalView {
        ConditionalView {
            target: TargetView { site: self.site@, path: self.path@ },
            if_id: match self.if_id {
                Some(id) => Some(id@),
                None => None,
            },
        }
    }
}

/// The line of a `FETCH` request, with the content id behind the path.
pub open spec fn encoded_conditional(c: ConditionalView) -> Result<
    Seq<char>,
    ProtocolErrorView,
> {
    match (checked_target(c.target), c.if_id) {
        (Err(e), _) => Err(e),
        (Ok(t), None) => Ok(request_line("FETCH"@, t)),
        (Ok(t), Some(id)) => if valid_content_id(id) {
            Ok(
                request_line(
                    "FETCH"@,
                    TargetView { site: t.site, path: t.path + seq![' '] + id },
                ),
            )
        } else {
            Err(ProtocolErrorView::Malformed("bad content id: "@ + id))
        },
    }
}

/// What a `FETCH` line asks for, with or without a content id behind the
/// path.
pub open spec fn parsed_conditional(line: Seq<char>) -> Result<
    ConditionalView,
    ProtocolErrorView,
> {
    match after_verb(line, "FETCH"@) {
        Err(e) => Err(e),
        Ok(rest) => {
            let t = target_of(rest);
            let id = tail(t.path, ' ');
            let (target, if_id) = if valid_content_id(id) {
                (TargetView { site: t.site, path: head(t.path, ' ') }, Some(id))
            } else {
                (t, None)
            };
            match checked_target(target) {
                Ok(target) => Ok(ConditionalView { target, if_id }),
                Err(e) => Err(e),
            }
        },
    }
}

/// The wire line of a `FETCH` request that may be conditional.
pub fn encode_conditional_request(req: &ConditionalFetch) -> (out: Result<String, ProtocolError>)
    ensures
        outcome(out) == encoded_conditional(req@),
{
    match check_site_path(req.site.as_str(), req.path.as_str()) {
        Ok(_) => {},
        Err(e) => return Err(e),
    }
    match &req.if_id {
        None => Ok(write_request_line("FETCH", req.site.as_str(), req.path.as_str())),
        Some(id) => {
            if !is_content_id(id.as_str()) {
                return Err(
                    ProtocolError::Malformed("bad content id: ".to_owned().concat(id.as_str())),
                );
            }
            let mut path = req.path.clone();
            path.push(' ');
            path.append(id.as_str());
            assert(path@ =~= req.path@ + seq![' '] + id@);
            Ok(write_request_line("FETCH", req.site.as_str(), path.as_str()))
        },
    }
}

/// Reads one `FETCH` line that may be conditional.
pub fn parse_conditional_request(line: &str) -> (out: Result<ConditionalFetch, ProtocolError>)
    ensures
        outcome(out) == parsed_conditional(line@),
{
    let rest = match split_request_line(line, "FETCH") {
        Ok(rest) => rest,
        Err(e) => return Err(e),
    };
    let (site, whole) = split_first(rest, ' ');
    let (first, id) = split_first(whole, ' ');
    let conditional = is_content_id(id);
    let path = if conditional {
        first
    } else {
        whole
    };
    match check_site_path(site, path) {
        Ok(_) => Ok(
            ConditionalFetch {
                site: site.to_owned(),
                path: path.to_owned(),
                if_id: if conditional {
                    Some(id.to_owned())
                } else {
                    None
                },
            },
        ),
        Err(e) => Err(e),
    }
}

/// A conditional `FETCH` request that can be written is read back as it was.
pub proof fn law_conditional_round_trip(c: ConditionalView)
    requires
        encoded_conditional(c) is Ok,
    ensures
        parsed_conditional(encoded_conditional(c)->Ok_0) == Ok::<
            ConditionalView,
            ProtocolErrorView,
        >(c),
{
    let t = c.target;
    assert forall|i: int| 0 <= i < t.path.len() implies #[trigger] t.path[i] != ' ' && t.path[i]
        != '@' by {
        assert(path_char(t.path[i]));
    }
    lemma_target_printable(t);
    match c.if_id {
        None => {
            lemma_target_read_back("FETCH"@, t);
            lemma_split_none(t.path, ' ');
        },
        Some(id) => {
            reveal_strlit("b3:");
            assert forall|i: int| 0 <= i < id.len() implies ' ' <= #[trigger] id[i] <= '~' by {
                if i >= 3 {
                    assert(is_hex_digit(id[i]));
                } else {
                    assert(id[i] == id.take(3)[i]);
                }
            }
            let path = t.path + seq![' '] + id;
            let rest = t.site + seq![' '] + path;
            lemma_printable_pair(t.path, id);
            lemma_printable_pair(t.site, path);
            lemma_line_read_back("FETCH"@, rest);
            lemma_request_line("FETCH"@, TargetView { site: t.site, path });
            lemma_split_joined(t.site, ' ', path);
            lemma_split_joined(t.path, ' ', id);
        },
    }
}

/// Without a content id, a conditional request is a plain one: the two
/// readers accept the same lines, but for those that carry a content id.
pub proof fn law_plain_requests_are_unconditional(line: Seq<char>)
    ensures
        parsed_fetch(line) matches Ok(t) ==> parsed_conditional(line) == Ok::<
            ConditionalView,
            ProtocolErrorView,
        >(ConditionalView { target: t, if_id: None }),
        parsed_conditional(line) matches Ok(c) ==> (c.if_id is None ==> parsed_fetch(line) == Ok::<
            TargetView,
            ProtocolErrorView,
        >(c.target)),
{
    if let Ok(t) = parsed_fetch(line) {
        assert forall|i: int| 0 <= i < t.path.len() implies #[trigger] t.path[i] != ' ' by {
            assert(path_char(t.path[i]));
        }
        lemma_split_none(t.path, ' ');
    }
}

/// What a site name is: 1 to 64 lower-case letters, digits and dashes, with
/// no dash at either end.
pub proof fn law_site_names(s: Seq<char>)
    ensures
        valid_site(s) <==> {
            &&& 1 <= s.len() <= 64
            &&& forall|i: int|
                0 <= i < s.len() ==> ('a' <= #[trigger] s[i] <= 'z' || '0' <= s[i] <= '9' || s[i]
                    == '-')
            &&& s[0] != '-'
            &&& s[s.len() - 1] != '-'
        },
{
    if valid_site(s) {
        assert forall|i: int| 0 <= i < s.len() implies ('a' <= #[trigger] s[i] <= 'z' || '0' <= s[i]
            <= '9' || s[i] == '-') by {
            assert(site_char(s[i]));
        }
    }
}

/// What a content path is: 1 to 256 characters of a small set, relative, with
/// neither an empty segment nor two dots in a row.
pub proof fn law_content_paths(s: Seq<char>)
    ensures
        valid_path(s) <==> {
            &&& 1 <= s.len() <= 256
            &&& s[0] != '/'
            &&& forall|i: int|
                0 <= i < s.len() ==> ('a' <= #[trigger] s[i] <= 'z' || 'A' <= s[i] <= 'Z' || '0'
                    <= s[i] <= '9' || s[i] == '/' || s[i] == '_' || s[i] == '-' || s[i] == '.'
                    || s[i] == '+')
            &&& forall|i: int|
                0 <= i && i + 1 < s.len() ==> !(#[trigger] s[i] == '/' && s[i + 1] == '/') && !(s[i]
                    == '.' && s[i + 1] == '.')
        },
{
    if valid_path(s) {
        assert forall|i: int| 0 <= i < s.len() implies ('a' <= #[trigger] s[i] <= 'z' || 'A' <= s[i]
            <= 'Z' || '0' <= s[i] <= '9' || s[i] == '/' || s[i] == '_' || s[i] == '-' || s[i] == '.'
            || s[i] == '+') by {
            assert(path_char(s[i]));
        }
        assert forall|i: int| 0 <= i && i + 1 < s.len() implies !(#[trigger] s[i] == '/' && s[i + 1]
            == '/') && !(s[i] == '.' && s[i + 1] == '.') by {
            assert(!has_pair(s, '/'));
            assert(!has_pair(s, '.'));
        }
    }
}

/// The line that asks for something is the version, the verb and what is
/// asked for, one space between any two, and a newline.
pub proof fn law_request_lines(site: Seq<char>, path: Seq<char>)
    ensures
        ({
            let t = TargetView { site, path };
            &&& encoded("FETCH"@, checked_target(t)) == if !valid_site(site) {
                Err::<Seq<char>, ProtocolErrorView>(ProtocolErrorView::BadSite(site))
            } else if !valid_path(path) {
                Err(ProtocolErrorView::BadPath(path))
            } else {
                Ok("NXP/0.1 FETCH "@ + site + " "@ + path + "\n"@)
            }
            &&& valid_site(site) && (valid_path(path) || path == seq!['@'] + site) ==> encoded(
                "RECORDS"@,
                checked_records_target(t),
            ) == Ok::<Seq<char>, ProtocolErrorView>(
                "NXP/0.1 RECORDS "@ + site + " "@ + path + "\n"@,
            )
            &&& encoded("RECORDS"@, checked_records_target(t)) is Ok ==> valid_site(site) && (
            valid_path(path) || path == seq!['@'] + site)
            &&& encoded_list(site) == if valid_site(site) {
                Ok::<Seq<char>, ProtocolErrorView>("NXP/0.1 LIST "@ + site + "\n"@)
            } else {
                Err(ProtocolErrorView::BadSite(site))
            }
        }),
{
    reveal_strlit("NXP/0.1");
    reveal_strlit("FETCH");
    reveal_strlit("RECORDS");
    reveal_strlit("LIST");
    reveal_strlit("NXP/0.1 FETCH ");
    reveal_strlit("NXP/0.1 RECORDS ");
    reveal_strlit("NXP/0.1 LIST ");
    reveal_strlit(" ");
    reveal_strlit("\n");
    let t = TargetView { site, path };
    assert(request_line("FETCH"@, t) =~= "NXP/0.1 FETCH "@ + site + " "@ + path + "\n"@);
    assert(request_line("RECORDS"@, t) =~= "NXP/0.1 RECORDS "@ + site + " "@ + path + "\n"@);
    assert(list_line(site) =~= "NXP/0.1 LIST "@ + site + "\n"@);
    if valid_path(path) {
        assert(path_char(path[0]));
    }
    if path.len() > 0 && path[0] == '@' {
        assert((seq!['@'] + site).skip(1) =~= site);
        if path.skip(1) == site {
            assert(path =~= seq!['@'] + site);
        }
    }
}

/// A line that is accepted as a request says so in full: apart from how it
/// ends, it is the very line that asks for what was read.
pub proof fn law_accepted_lines_are_requests(line: Seq<char>)
    ensures
        ({
            let l = strip_line_end(line);
            &&& parsed_fetch(line) matches Ok(t) ==> l.push('\n') == "NXP/0.1 FETCH "@ + t.site
                + " "@ + t.path + "\n"@
            &&& parsed_records(line) matches Ok(t) ==> l.push('\n') == "NXP/0.1 RECORDS "@ + t.site
                + " "@ + t.path + "\n"@
            &&& parsed_list(line) matches Ok(site) ==> l.push('\n') == "NXP/0.1 LIST "@ + site
                + "\n"@
            &&& parsed_conditional(line) matches Ok(c) ==> (c.if_id matches Some(id) ==> l.push(
                '\n',
            ) == "NXP/0.1 FETCH "@ + c.target.site + " "@ + c.target.path + " "@ + id + "\n"@
                && valid_content_id(id) && valid_site(c.target.site) && valid_path(c.target.path))
        }),
{
    if let Ok(t) = parsed_fetch(line) {
        lemma_fetch_line(line, t);
    }
    if let Ok(t) = parsed_records(line) {
        lemma_records_line(line, t);
    }
    if let Ok(site) = parsed_list(line) {
        lemma_list_line(line, site);
    }
    if let Ok(c) = parsed_conditional(line) {
        if let Some(id) = c.if_id {
            lemma_conditional_line(line, c, id);
        }
    }
}

proof fn lemma_fetch_line(line: Seq<char>, t: TargetView)
    requires
        parsed_fetch(line) == Ok::<TargetView, ProtocolErrorView>(t),
    ensures
        strip_line_end(line).push('\n') == "NXP/0.1 FETCH "@ + t.site + " "@ + t.path + "\n"@,
{
    let rest = after_verb(line, "FETCH"@)->Ok_0;
    lemma_asked(line, "FETCH"@);
    lemma_cut(rest);
    lemma_asked_text("FETCH"@, "NXP/0.1 FETCH "@, rest, strip_line_end(line));
    lemma_last_newline("NXP/0.1 FETCH "@, t.site, t.path);
}

proof fn lemma_records_line(line: Seq<char>, t: TargetView)
    requires
        parsed_records(line) == Ok::<TargetView, ProtocolErrorView>(t),
    ensures
        strip_line_end(line).push('\n') == "NXP/0.1 RECORDS "@ + t.site + " "@ + t.path + "\n"@,
{
    let rest = after_verb(line, "RECORDS"@)->Ok_0;
    lemma_asked(line, "RECORDS"@);
    lemma_cut(rest);
    lemma_asked_text("RECORDS"@, "NXP/0.1 RECORDS "@, rest, strip_line_end(line));
    lemma_last_newline("NXP/0.1 RECORDS "@, t.site, t.path);
}

proof fn lemma_list_line(line: Seq<char>, site: Seq<char>)
    requires
        parsed_list(line) == Ok::<Seq<char>, ProtocolErrorView>(site),
    ensures
        strip_line_end(line).push('\n') == "NXP/0.1 LIST "@ + site + "\n"@,
{
    let l = strip_line_end(line);
    lemma_asked(line, "LIST"@);
    lemma_asked_text("LIST"@, "NXP/0.1 LIST "@, site, l);
    reveal_strlit("\n");
    assert(l.push('\n') =~= "NXP/0.1 LIST "@ + site + "\n"@);
}

proof fn lemma_conditional_line(line: Seq<char>, c: ConditionalView, id: Seq<char>)
    requires
        parsed_conditional(line) == Ok::<ConditionalView, ProtocolErrorView>(c),
        c.if_id == Some(id),
    ensures
        strip_line_end(line).push('\n') == "NXP/0.1 FETCH "@ + c.target.site + " "@ + c.target.path
            + " "@ + id + "\n"@,
        valid_content_id(id),
        valid_site(c.target.site),
        valid_path(c.target.path),
{
    let rest = after_verb(line, "FETCH"@)->Ok_0;
    lemma_asked(line, "FETCH"@);
    lemma_cut(rest);
    lemma_asked_text("FETCH"@, "NXP/0.1 FETCH "@, rest, strip_line_end(line));
    let path = tail(rest, ' ');
    lemma_cut(path);
    lemma_last_newline("NXP/0.1 FETCH "@, c.target.site, path);
    lemma_inner_space("NXP/0.1 FETCH "@ + c.target.site + " "@, c.target.path, id);
}

proof fn lemma_inner_space(start: Seq<char>, path: Seq<char>, id: Seq<char>)
    ensures
        start + (path + seq![' '] + id) + "\n"@ == start + path + " "@ + id + "\n"@,
{
    reveal_strlit(" ");
    assert(start + (path + seq![' '] + id) + "\n"@ =~= start + path + " "@ + id + "\n"@);
}

proof fn lemma_asked(line: Seq<char>, verb: Seq<char>)
    requires
        after_verb(line, verb) matches Ok(rest) && rest.len() > 0,
    ensures
        strip_line_end(line) == VERSION@ + seq![' '] + verb + seq![' '] + after_verb(
            line,
            verb,
        )->Ok_0,
{
    let l = strip_line_end(line);
    lemma_cut(l);
    lemma_cut(tail(l, ' '));
    let rest = after_verb(line, verb)->Ok_0;
    crate::text::lemma_index_of(tail(l, ' '), ' ');
    assert(tail(l, ' ').len() > 0);
    assert(l =~= VERSION@ + seq![' '] + verb + seq![' '] + rest);
}

proof fn lemma_asked_text(verb: Seq<char>, start: Seq<char>, rest: Seq<char>, l: Seq<char>)
    requires
        l == VERSION@ + seq![' '] + verb + seq![' '] + rest,
        verb == "FETCH"@ && start == "NXP/0.1 FETCH "@ || verb == "RECORDS"@ && start
            == "NXP/0.1 RECORDS "@ || verb == "LIST"@ && start == "NXP/0.1 LIST "@,
    ensures
        l == start + rest,
{
    reveal_strlit("NXP/0.1");
    reveal_strlit("FETCH");
    reveal_strlit("RECORDS");
    reveal_strlit("LIST");
    reveal_strlit("NXP/0.1 FETCH ");
    reveal_strlit("NXP/0.1 RECORDS ");
    reveal_strlit("NXP/0.1 LIST ");
    assert(start =~= VERSION@ + seq![' '] + verb + seq![' ']);
}

proof fn lemma_last_newline(start: Seq<char>, site: Seq<char>, path: Seq<char>)
    ensures
        (start + (site + seq![' '] + path)).push('\n') == start + site + " "@ + path + "\n"@,
{
    reveal_strlit(" ");
    reveal_strlit("\n");
    assert((start + (site + seq![' '] + path)).push('\n') =~= start + site + " "@ + path
        + "\n"@);
}

/// What stands before the first space and what stands behind it.
proof fn lemma_cut(s: Seq<char>)
    ensures
        tail(s, ' ').len() > 0 ==> s == head(s, ' ') + seq![' '] + tail(s, ' '),
{
    crate::text::lemma_index_of(s, ' ');
    if tail(s, ' ').len() > 0 {
        assert(s =~= head(s, ' ') + seq![' '] + tail(s, ' '));
    }
}

/// A response is sent exactly where its body has at most a mebibyte and its
/// code is one of 100 to 599: as the version, the code, the length of the body
/// and a newline, and then the body.
pub proof fn law_response_frames(code: nat, body: Seq<u8>)
    ensures
        encoded_response(code, body) == if body.len() > 1048576 {
            Err::<Seq<u8>, ProtocolErrorView>(ProtocolErrorView::BodyTooLarge(body.len()))
        } else if !(100 <= code <= 599) {
            Err(ProtocolErrorView::BadCode(dec_chars(code)))
        } else {
            Ok(
                encode_utf8(
                    "NXP/0.1 "@ + dec_chars(code) + " "@ + dec_chars(body.len()) + "\n"@,
                ) + body,
            )
        },
{
    reveal_strlit("NXP/0.1");
    reveal_strlit("NXP/0.1 ");
    reveal_strlit(" ");
    reveal_strlit("\n");
    assert(header_line(HeaderView { code, body_len: body.len() }) =~= "NXP/0.1 "@ + dec_chars(code)
        + " "@ + dec_chars(body.len()) + "\n"@);
}

/// A response is accepted only in full: its body is all that stands behind the
/// first newline, exactly as long as its header says; a shorter one is
/// truncated.
pub proof fn law_responses_are_exact(frame: Seq<u8>)
    ensures
        parsed_response(frame) matches Ok((h, body)) ==> {
            &&& exists|nl: int|
                0 <= nl < frame.len() && #[trigger] frame[nl] == 10 && body == frame.skip(nl + 1)
                    && (forall|i: int| 0 <= i < nl ==> #[trigger] frame[i] != 10) && parsed_header(
                    decode_utf8(frame.take(nl + 1)),
                ) == Ok::<HeaderView, ProtocolErrorView>(h)
            &&& h.body_len == body.len()
        },
        (forall|i: int| 0 <= i < frame.len() ==> #[trigger] frame[i] != 10) ==> parsed_response(
            frame,
        ) == Err::<(HeaderView, Seq<u8>), ProtocolErrorView>(ProtocolErrorView::Truncated),
{
    lemma_first_newline(frame);
    let nl = newline_at(frame) as int;
    if parsed_response(frame) is Ok {
        assert(frame[nl] == 10);
    }
}

proof fn lemma_first_newline(s: Seq<u8>)
    ensures
        newline_at(s) <= s.len(),
        newline_at(s) < s.len() ==> s[newline_at(s) as int] == 10,
        forall|i: int| 0 <= i < newline_at(s) ==> #[trigger] s[i] != 10,
    decreases s.len(),
{
    if s.len() > 0 && s[0] != 10 {
        lemma_first_newline(s.skip(1));
        assert forall|i: int| 0 <= i < newline_at(s) implies #[trigger] s[i] != 10 by {
            if i > 0 {
                assert(s.skip(1)[i - 1] == s[i]);
            }
        }
    }
}

/// A response header is accepted exactly where it is the version, a code of
/// 100 to 599 and a length of at most a mebibyte.
pub proof fn law_response_headers(line: Seq<char>)
    ensures
        parsed_header(line) matches Ok(h) ==> {
            let l = strip_line_end(line);
            &&& byte_len(l) <= 4096
            &&& head(l, ' ') == "NXP/0.1"@
            &&& crate::text::parse_uint(head(tail(l, ' '), ' ')) == Some(h.code)
            &&& crate::text::parse_uint(tail(tail(l, ' '), ' ')) == Some(h.body_len)
            &&& 100 <= h.code <= 599
            &&& h.body_len <= 1048576
        },
{
}

/// Why a line is no request: the first of these faults, whatever is asked.
pub proof fn law_refused_lines(line: Seq<char>, verb: Seq<char>)
    ensures
        ({
            let l = strip_line_end(line);
            let rest = tail(l, ' ');
            after_verb(line, verb) == if l.len() == 0 {
                Err::<Seq<char>, ProtocolErrorView>(ProtocolErrorView::Empty)
            } else if byte_len(l) > 4096 {
                Err(ProtocolErrorView::LineTooLong)
            } else if head(l, ' ') != "NXP/0.1"@ {
                Err(ProtocolErrorView::BadVersion(head(l, ' ')))
            } else if head(rest, ' ') != verb {
                Err(ProtocolErrorView::BadVerb(head(rest, ' ')))
            } else {
                Ok(tail(rest, ' '))
            }
        }),
{
}

/// The text of an error names its kind and gives what it is about; lengths
/// are in decimal.
pub proof fn law_error_texts(n: nat, s: Seq<char>)
    ensures
        error_text(ProtocolErrorView::Empty) == "empty request"@,
        error_text(ProtocolErrorView::LineTooLong) == "line exceeds "@ + dec_chars(4096)
            + " bytes"@,
        error_text(ProtocolErrorView::BodyTooLarge(n)) == "body "@ + dec_chars(n) + " exceeds "@
            + dec_chars(1048576) + " bytes"@,
        error_text(ProtocolErrorView::BadVersion(s)) == "bad version: "@ + s,
        error_text(ProtocolErrorView::BadVerb(s)) == "bad verb: "@ + s,
        error_text(ProtocolErrorView::BadSite(s)) == "bad site: "@ + s,
        error_text(ProtocolErrorView::BadPath(s)) == "bad path: "@ + s,
        error_text(ProtocolErrorView::BadCode(s)) == "bad status code: "@ + s,
        error_text(ProtocolErrorView::BadLength(s)) == "bad length: "@ + s,
        error_text(ProtocolErrorView::Malformed(s)) == "malformed: "@ + s,
        error_text(ProtocolErrorView::Truncated) == "truncated frame"@,
{
}

/// What a request line is refused for once its verb was read: a site that is
/// none, and then a path that is none; the records of a name are asked for
/// under that name only.
pub proof fn law_refused_targets(line: Seq<char>, rest: Seq<char>)
    ensures
        ({
            let site = head(rest, ' ');
            let path = tail(rest, ' ');
            &&& after_verb(line, "FETCH"@) == Ok::<Seq<char>, ProtocolErrorView>(rest)
                ==> parsed_fetch(line) == if !valid_site(site) {
                Err::<TargetView, ProtocolErrorView>(ProtocolErrorView::BadSite(site))
            } else if !valid_path(path) {
                Err(ProtocolErrorView::BadPath(path))
            } else {
                Ok(TargetView { site, path })
            }
            &&& after_verb(line, "RECORDS"@) == Ok::<Seq<char>, ProtocolErrorView>(rest)
                ==> parsed_records(line) == if path == seq!['@'] + site && valid_site(site) {
                Ok::<TargetView, ProtocolErrorView>(TargetView { site, path })
            } else if path.len() > 0 && path[0] == '@' {
                Err(ProtocolErrorView::BadPath(path))
            } else if !valid_site(site) {
                Err(ProtocolErrorView::BadSite(site))
            } else if !valid_path(path) {
                Err(ProtocolErrorView::BadPath(path))
            } else {
                Ok(TargetView { site, path })
            }
            &&& after_verb(line, "LIST"@) == Ok::<Seq<char>, ProtocolErrorView>(rest)
                ==> parsed_list(line) == if valid_site(rest) {
                Ok::<Seq<char>, ProtocolErrorView>(rest)
            } else {
                Err(ProtocolErrorView::BadSite(rest))
            }
        }),
{
    let site = head(rest, ' ');
    let path = tail(rest, ' ');
    if path.len() > 0 && path[0] == '@' {
        assert(path =~= seq!['@'] + path.skip(1));
        if path == seq!['@'] + site {
            assert(path.skip(1) =~= site);
        }
    }
    if path == seq!['@'] + site {
        assert(path[0] == '@');
    }
}

/// What a response header is refused for, in the order of the tests.
pub proof fn law_refused_headers(line: Seq<char>)
    ensures
        ({
            let l = strip_line_end(line);
            let code = head(tail(l, ' '), ' ');
            let len = tail(tail(l, ' '), ' ');
            parsed_header(line) == if byte_len(l) > 4096 {
                Err::<HeaderView, ProtocolErrorView>(ProtocolErrorView::LineTooLong)
            } else if head(l, ' ') != "NXP/0.1"@ {
                Err(ProtocolErrorView::BadVersion(head(l, ' ')))
            } else {
                match parse_bounded(code, 65535) {
                    None => Err(ProtocolErrorView::BadCode(code)),
                    Some(c) => if c < 100 || c > 599 {
                        Err(ProtocolErrorView::BadCode(dec_chars(c)))
                    } else {
                        match parse_bounded(len, usize::MAX as nat) {
                            None => Err(ProtocolErrorView::BadLength(len)),
                            Some(n) => if n > 1048576 {
                                Err(ProtocolErrorView::BodyTooLarge(n))
                            } else {
                                Ok(HeaderView { code: c, body_len: n })
                            },
                        }
                    },
                }
            }
        }),
{
}

/// A response whose body is not as long as its header says is refused: as
/// truncated where bytes are missing, as malformed where there are more.
pub proof fn law_bodies_are_as_long_as_told(line: Seq<char>, body: Seq<u8>)
    requires
        0 < line.len() <= 4097,
        line.last() == '\n',
        forall|i: int| 0 <= i < line.len() - 1 ==> ' ' <= #[trigger] line[i] <= '~',
    ensures
        parsed_response(encode_utf8(line) + body) == match parsed_header(line) {
            Err(e) => Err::<(HeaderView, Seq<u8>), ProtocolErrorView>(e),
            Ok(h) => if body.len() < h.body_len {
                Err(ProtocolErrorView::Truncated)
            } else if body.len() > h.body_len {
                Err(
                    ProtocolErrorView::Malformed(
                        "body has "@ + dec_chars(body.len()) + " bytes, header claims "@
                            + dec_chars(h.body_len),
                    ),
                )
            } else {
                Ok((h, body))
            },
        },
{
    let bytes = encode_utf8(line);
    let frame = bytes + body;
    let k = line.len() - 1;
    assert forall|i: int| 0 <= i < line.len() implies '\0' <= #[trigger] line[i] <= '\u{7f}' by {
        if i < k {
            assert(' ' <= line[i] <= '~');
        }
    }
    is_ascii_chars_encode_utf8(line);
    assert(frame.take(k + 1) =~= bytes);
    assert(frame.skip(k + 1) =~= body);
    assert forall|i: int| 0 <= i < k implies frame[i] != 10 by {
        assert(bytes[i] == line[i] as u8);
        assert(' ' <= line[i] <= '~');
    }
    assert(bytes[k] == line[k] as u8);
    lemma_newline_at(frame, k);
    encode_utf8_valid_utf8(line);
    encode_utf8_decode_utf8(line);
}

} // verus!
