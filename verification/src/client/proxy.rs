//! Requests of local programs: their heads, their targets, their request lines.
use crate::buffer;
use crate::chars;
use crate::client::constants::MAX_HEADER_LEN;
use crate::decimal;
use crate::text;
use bytes::BytesMut;
use vstd::prelude::*;
use vstd::slice::slice_subrange;
use vstd::string::*;
use vstd::utf8::*;

verus! {

/// Why a local request was not served.
#[derive(Debug)]
pub enum ProxyError {
    /// The connection ended before the request was there.
    Closed,
    /// The request is no HTTP.
    Invalid(String),
    /// The request has no method.
    NoMethod,
    /// The request has no target.
    NoPath,
    /// The head of the request is too long.
    HeaderTooLarge,
    /// The target of a CONNECT request makes no sense.
    InvalidTarget(String),
    /// The target of a CONNECT request has no port.
    TargetPort(String),
    /// The target is no URL.
    InvalidUrl,
    /// The URL has no host.
    NoHost,
    /// The URL has no port, and none is implied.
    NoPort,
    /// The request line does not end.
    NoNewline,
    /// The request line is no text.
    LineEncoding,
    /// The request line has no parts.
    MalformedLine(String),
}

impl ProxyError {
    /// The error in words.
    pub open spec fn text(self) -> Seq<char> {
        match self {
            ProxyError::Closed => "connection closed during header parsing"@,
            ProxyError::Invalid(reason) => reason@,
            ProxyError::NoMethod => "no method"@,
            ProxyError::NoPath => "no path"@,
            ProxyError::HeaderTooLarge => "header too large"@,
            ProxyError::InvalidTarget(target) => "invalid target: "@ + target@,
            ProxyError::TargetPort(target) => "port required: "@ + target@,
            ProxyError::InvalidUrl => "invalid proxy URL"@,
            ProxyError::NoHost => "URL has no host"@,
            ProxyError::NoPort => "port required"@,
            ProxyError::NoNewline => "request line has no newline"@,
            ProxyError::LineEncoding => "request line is not valid UTF-8"@,
            ProxyError::MalformedLine(line) => "malformed request line: "@ + line@,
        }
    }

    /// The error in words.
    pub fn message(&self) -> (r: String)
        ensures
            r@ == self.text(),
    {
        match self {
            ProxyError::Closed => String::from_str("connection closed during header parsing"),
            ProxyError::Invalid(reason) => String::from_str(reason.as_str()),
            ProxyError::NoMethod => String::from_str("no method"),
            ProxyError::NoPath => String::from_str("no path"),
            ProxyError::HeaderTooLarge => String::from_str("header too large"),
            ProxyError::InvalidTarget(target) => {
                let mut out = String::from_str("invalid target: ");
                out.append(target.as_str());
                out
            },
            ProxyError::TargetPort(target) => {
                let mut out = String::from_str("port required: ");
                out.append(target.as_str());
                out
            },
            ProxyError::InvalidUrl => String::from_str("invalid proxy URL"),
            ProxyError::NoHost => String::from_str("URL has no host"),
            ProxyError::NoPort => String::from_str("port required"),
            ProxyError::NoNewline => String::from_str("request line has no newline"),
            ProxyError::LineEncoding => String::from_str("request line is not valid UTF-8"),
            ProxyError::MalformedLine(line) => {
                let mut out = String::from_str("malformed request line: ");
                out.append(line.as_str());
                out
            },
        }
    }
}

/// The head of a request.
pub struct ParsedHead {
    pub method: Option<String>,
    pub path: Option<String>,
    pub headers: Vec<(String, Vec<u8>)>,
    pub len: usize,
}

/// Names and values of headers.
pub open spec fn header_views(headers: Seq<(String, Vec<u8>)>) -> Seq<(Seq<char>, Seq<u8>)> {
    headers.map_values(|h: (String, Vec<u8>)| (h.0@, h.1@))
}

/// The characters of a text, where there is one.
pub open spec fn opt_view(s: Option<String>) -> Option<Seq<char>> {
    match s {
        Some(t) => Some(t@),
        None => None,
    }
}

/// What HTTP finds at the front of some bytes: method, path, headers and length
/// of a request's head, or nothing yet, or why it is none.
pub uninterp spec fn http_head(buf: Seq<u8>) -> Result<
    Option<(Option<Seq<char>>, Option<Seq<char>>, Seq<(Seq<char>, Seq<u8>)>, nat)>,
    Seq<char>,
>;

/// `httparse::Request::parse` with room for sixty-four headers. A head lies
/// within the bytes that it was found in.
#[verifier::external_body]
fn parse_head(buf: &[u8]) -> (r: Result<Option<ParsedHead>, String>)
    ensures
        match r {
            Ok(Some(h)) => http_head(buf@) == Ok::<
                Option<(Option<Seq<char>>, Option<Seq<char>>, Seq<(Seq<char>, Seq<u8>)>, nat)>,
                Seq<char>,
            >(
                Some((opt_view(h.method), opt_view(h.path), header_views(h.headers@), h.len as nat)),
            ) && h.len <= buf@.len(),
            Ok(None) => http_head(buf@) matches Ok(h) && h is None,
            Err(e) => http_head(buf@) matches Err(words) && words == e@,
        },
{
    let mut headers = [httparse::EMPTY_HEADER; 64];
    let mut req = httparse::Request::new(&mut headers);
    match req.parse(buf) {
        Ok(httparse::Status::Complete(len)) => Ok(Some(ParsedHead {
            method: req.method.map(|m| m.to_owned()),
            path: req.path.map(|p| p.to_owned()),
            headers: req.headers.iter().map(|h| (h.name.to_owned(), h.value.to_vec())).collect(),
            len,
        })),
        Ok(httparse::Status::Partial) => Ok(None),
        Err(e) => Err(e.to_string()),
    }
}

/// The text that some bytes stand for, with a mark in place of what is no UTF-8.
pub uninterp spec fn lossy_text(b: Seq<u8>) -> Seq<char>;

/// `String::from_utf8_lossy`. Valid UTF-8 is taken as it is.
#[verifier::external_body]
fn text_lossy(b: &[u8]) -> (r: String)
    ensures
        r@ == lossy_text(b@),
        valid_utf8(b@) ==> r@ == decode_utf8(b@),
{
    String::from_utf8_lossy(b).into_owned()
}

/// The value of the first header with this name, whatever the case of its letters.
pub open spec fn header_value(headers: Seq<(Seq<char>, Seq<u8>)>, name: Seq<char>) -> Option<
    Seq<u8>,
>
    decreases headers.len(),
{
    if headers.len() == 0 {
        None
    } else if chars::ascii_lower_all(headers[0].0) == chars::ascii_lower_all(name) {
        Some(headers[0].1)
    } else {
        header_value(headers.skip(1), name)
    }
}

/// The value of the first header with this name, as text.
pub fn extract_header(headers: &[(String, Vec<u8>)], name: &str) -> (r: Option<String>)
    ensures
        match header_value(header_views(headers@), name@) {
            Some(v) => r matches Some(s) && s@ == lossy_text(v),
            None => r is None,
        },
{
    let wanted: Vec<char> = chars::chars_of(name);
    let ghost all = header_views(headers@);
    let mut i: usize = 0;
    proof {
        assert(all.skip(0) =~= all);
    }
    while i < headers.len()
        invariant
            i <= headers@.len(),
            wanted@ == name@,
            all == header_views(headers@),
            header_value(all, name@) == header_value(all.skip(i as int), name@),
        decreases headers@.len() - i,
    {
        let found: Vec<char> = chars::chars_of(headers[i].0.as_str());
        proof {
            assert(all.skip(i as int)[0] == all[i as int]);
            assert(all.skip(i as int).skip(1) =~= all.skip(i as int + 1));
        }
        if chars::same_ignoring_case(&found, &wanted) {
            return Some(text_lossy(headers[i].1.as_slice()));
        }
        i = i + 1;
    }
    None
}

/// What a local program has sent so far.
pub enum ParseOutcome {
    /// A whole head.
    Complete { method: String, header_len: usize, url: String, proxy_auth: Option<String> },
    /// Not yet a whole head.
    NeedMore,
    /// No request.
    Failed(ProxyError),
}

/// What to make of what HTTP has found in `buffered` bytes. The credentials are
/// looked for where they are needed.
pub open spec fn judged(
    head: Result<
        Option<(Option<Seq<char>>, Option<Seq<char>>, Seq<(Seq<char>, Seq<u8>)>, nat)>,
        Seq<char>,
    >,
    buffered: nat,
    need_proxy_auth: bool,
    r: ParseOutcome,
) -> bool {
    match head {
        Err(words) => r matches ParseOutcome::Failed(ProxyError::Invalid(e)) && e@ == words,
        Ok(None) => if buffered > MAX_HEADER_LEN {
            r == ParseOutcome::Failed(ProxyError::HeaderTooLarge)
        } else {
            r is NeedMore
        },
        Ok(Some((None, _, _, _))) => r == ParseOutcome::Failed(ProxyError::NoMethod),
        Ok(Some((Some(_), None, _, _))) => r == ParseOutcome::Failed(ProxyError::NoPath),
        Ok(Some((Some(m), Some(p), headers, len))) => {
            &&& r matches ParseOutcome::Complete { method, header_len, url, proxy_auth }
            &&& method@ == m
            &&& url@ == p
            &&& header_len == len
            &&& match header_value(headers, "proxy-authorization"@) {
                Some(v) if need_proxy_auth => proxy_auth matches Some(s) && s@ == lossy_text(v),
                _ => proxy_auth is None,
            }
        },
    }
}

/// The head view of a parsed head.
pub open spec fn head_view(h: Result<Option<ParsedHead>, String>) -> Result<
    Option<(Option<Seq<char>>, Option<Seq<char>>, Seq<(Seq<char>, Seq<u8>)>, nat)>,
    Seq<char>,
> {
    match h {
        Err(e) => Err(e@),
        Ok(None) => Ok(None),
        Ok(Some(p)) => Ok(
            Some((opt_view(p.method), opt_view(p.path), header_views(p.headers@), p.len as nat)),
        ),
    }
}

/// Decides what to make of what HTTP has found in `buffered` bytes.
pub fn judge_head(
    head: Result<Option<ParsedHead>, String>,
    buffered: usize,
    need_proxy_auth: bool,
) -> (r: ParseOutcome)
    ensures
        judged(head_view(head), buffered as nat, need_proxy_auth, r),
{
    match head {
        Err(e) => ParseOutcome::Failed(ProxyError::Invalid(e)),
        Ok(None) => if buffered > MAX_HEADER_LEN {
            ParseOutcome::Failed(ProxyError::HeaderTooLarge)
        } else {
            ParseOutcome::NeedMore
        },
        Ok(Some(h)) => {
            let proxy_auth: Option<String> = if need_proxy_auth {
                extract_header(&h.headers, "proxy-authorization")
            } else {
                None
            };
            let method: String = match h.method {
                Some(m) => m,
                None => {
                    return ParseOutcome::Failed(ProxyError::NoMethod);
                },
            };
            let url: String = match h.path {
                Some(p) => p,
                None => {
                    return ParseOutcome::Failed(ProxyError::NoPath);
                },
            };
            ParseOutcome::Complete { method, header_len: h.len, url, proxy_auth }
        },
    }
}

/// Looks for the head of a request in what a local program has sent.
pub fn parse_proxy_request(buffer: &[u8], need_proxy_auth: bool) -> (r: ParseOutcome)
    ensures
        judged(http_head(buffer@), buffer@.len(), need_proxy_auth, r),
        r matches ParseOutcome::Complete { header_len, .. } ==> header_len <= buffer@.len(),
{
    let head: Result<Option<ParsedHead>, String> = parse_head(buffer);
    judge_head(head, buffer.len(), need_proxy_auth)
}

/// Host and port of an authority, where it is one.
pub uninterp spec fn authority_parts(s: Seq<char>) -> Option<(Seq<char>, Option<u16>)>;

/// `http::uri::Authority` read from text, with its `host` and `port_u16`.
#[verifier::external_body]
fn parse_authority(s: &str) -> (r: Option<(String, Option<u16>)>)
    ensures
        match r {
            Some((host, port)) => authority_parts(s@) == Some((host@, port)),
            None => authority_parts(s@) is None,
        },
{
    let authority: http::uri::Authority = s.parse().ok()?;
    Some((authority.host().to_owned(), authority.port_u16()))
}

/// A URL in its normal form, and the parts of it that matter here.
pub struct UrlParts {
    pub href: String,
    pub host: Option<String>,
    pub port: Option<u16>,
    pub path: String,
    pub query: Option<String>,
    pub fragment: Option<String>,
}

/// Normal form, host, port, path, query and fragment of a URL, where it is one.
/// The port may be implied by the scheme.
pub uninterp spec fn url_parts(s: Seq<char>) -> Option<
    (Seq<char>, Option<Seq<char>>, Option<u16>, Seq<char>, Option<Seq<char>>, Option<Seq<char>>),
>;

/// `url::Url::parse`, with `as_str`, `host_str`, `port_or_known_default`, `path`,
/// `query` and `fragment` of the result.
#[verifier::external_body]
pub(crate) fn parse_url(s: &str) -> (r: Option<UrlParts>)
    ensures
        match r {
            Some(u) => url_parts(s@) == Some(parts_view(u)),
            None => url_parts(s@) is None,
        },
{
    let url = url::Url::parse(s).ok()?;
    Some(UrlParts {
        href: url.as_str().to_owned(),
        host: url.host_str().map(|h| h.to_owned()),
        port: url.port_or_known_default(),
        path: url.path().to_owned(),
        query: url.query().map(|q| q.to_owned()),
        fragment: url.fragment().map(|f| f.to_owned()),
    })
}

/// The parts of a URL as sequences.
pub open spec fn parts_view(u: UrlParts) -> (
    Seq<char>,
    Option<Seq<char>>,
    Option<u16>,
    Seq<char>,
    Option<Seq<char>>,
    Option<Seq<char>>,
) {
    (u.href@, opt_view(u.host), u.port, u.path@, opt_view(u.query), opt_view(u.fragment))
}

/// A host without the square brackets around it, where there are both.
pub open spec fn without_brackets(host: Seq<char>) -> Seq<char> {
    if host.len() >= 2 && host[0] == '[' && host.last() == ']' {
        host.subrange(1, host.len() - 1)
    } else {
        host
    }
}

/// A host and a port as one text.
pub open spec fn host_port(host: Seq<char>, port: u16) -> Seq<char> {
    host + seq![':'] + decimal::decimal(port as nat)
}

fn write_host_port(host: &str, port: u16) -> (r: String)
    ensures
        r@ == host_port(host@, port),
{
    let mut out = String::from_str(host);
    out.append(":");
    decimal::push_decimal(&mut out, port as u64);
    proof {
        reveal_strlit(":");
        assert(":"@ =~= seq![':']);
        assert(out@ =~= host_port(host@, port));
    }
    out
}

/// The target that an authority names.
pub open spec fn authority_target(parts: Option<(Seq<char>, Option<u16>)>) -> Option<
    Option<Seq<char>>,
> {
    match parts {
        None => None,
        Some((_, None)) => Some(None),
        Some((host, Some(port))) => Some(Some(host_port(without_brackets(host), port))),
    }
}

/// The target of a CONNECT request, from the parts of its authority `url`.
pub fn connect_target(parts: Option<(String, Option<u16>)>, url: &str) -> (r: Result<
    String,
    ProxyError,
>)
    ensures
        match authority_target(
            (match parts {
                Some((host, port)) => Some((host@, port)),
                None => None,
            }),
        ) {
            None => r matches Err(ProxyError::InvalidTarget(t)) && t@ == url@,
            Some(None) => r matches Err(ProxyError::TargetPort(t)) && t@ == url@,
            Some(Some(target)) => r matches Ok(t) && t@ == target,
        },
{
    let (host, port): (String, Option<u16>) = match parts {
        Some(p) => p,
        None => {
            return Err(ProxyError::InvalidTarget(String::from_str(url)));
        },
    };
    let port: u16 = match port {
        Some(p) => p,
        None => {
            return Err(ProxyError::TargetPort(String::from_str(url)));
        },
    };
    let all: Vec<char> = chars::chars_of(host.as_str());
    let n: usize = all.len();
    if n >= 2 && all[0] == '[' && all[n - 1] == ']' {
        let inner = slice_subrange(&all, 1, n - 1);
        proof {
            assert(inner@ =~= without_brackets(host@));
        }
        return Ok(write_host_port(chars::string_from(inner).as_str(), port));
    }
    Ok(write_host_port(host.as_str(), port))
}

/// The target of a URL, from its parts.
pub open spec fn url_target(
    parts: Option<
        (
            Seq<char>,
            Option<Seq<char>>,
            Option<u16>,
            Seq<char>,
            Option<Seq<char>>,
            Option<Seq<char>>,
        ),
    >,
) -> Result<Seq<char>, ProxyError> {
    match parts {
        None => Err(ProxyError::InvalidUrl),
        Some((_, None, _, _, _, _)) => Err(ProxyError::NoHost),
        Some((_, Some(_), None, _, _, _)) => Err(ProxyError::NoPort),
        Some((_, Some(host), Some(port), _, _, _)) => Ok(host_port(host, port)),
    }
}

/// The target of a request for a URL.
pub fn request_target(parts: Option<UrlParts>) -> (r: Result<String, ProxyError>)
    ensures
        match url_target(
            (match parts {
                Some(u) => Some(parts_view(u)),
                None => None,
            }),
        ) {
            Ok(target) => r matches Ok(t) && t@ == target,
            Err(e) => r == Err::<String, ProxyError>(e),
        },
{
    match parts {
        None => Err(ProxyError::InvalidUrl),
        Some(u) => match u.host {
            None => Err(ProxyError::NoHost),
            Some(host) => match u.port {
                None => Err(ProxyError::NoPort),
                Some(port) => Ok(write_host_port(host.as_str(), port)),
            },
        },
    }
}

/// Whether a method is CONNECT.
pub fn is_connect(method: &str) -> (r: bool)
    ensures
        r == (method@ == "CONNECT"@),
{
    let all: Vec<char> = chars::chars_of(method);
    let name: Vec<char> = chars::chars_of("CONNECT");
    chars::same_chars(&all, &name)
}

/// What comes of looking for the target of a request.
pub open spec fn target_outcome(
    method: Seq<char>,
    url: Seq<char>,
    r: Result<String, ProxyError>,
) -> bool {
    if method == "CONNECT"@ {
        match authority_target(authority_parts(url)) {
            None => r matches Err(ProxyError::InvalidTarget(t)) && t@ == url,
            Some(None) => r matches Err(ProxyError::TargetPort(t)) && t@ == url,
            Some(Some(target)) => r matches Ok(t) && t@ == target,
        }
    } else {
        match url_target(url_parts(url)) {
            Ok(target) => r matches Ok(t) && t@ == target,
            Err(e) => r == Err::<String, ProxyError>(e),
        }
    }
}

/// The host and port that a request goes to.
pub fn resolve_target_host(method: &str, url: &str) -> (r: Result<String, ProxyError>)
    ensures
        target_outcome(method@, url@, r),
{
    if is_connect(method) {
        return connect_target(parse_authority(url), url);
    }
    request_target(parse_url(url))
}

/// The path, the query and the fragment of a URL.
pub open spec fn origin_form(
    path: Seq<char>,
    query: Option<Seq<char>>,
    fragment: Option<Seq<char>>,
) -> Seq<char> {
    let with_query = match query {
        Some(q) => path + seq!['?'] + q,
        None => path,
    };
    match fragment {
        Some(f) => with_query + seq!['#'] + f,
        None => with_query,
    }
}

/// `s` without the carriage returns behind.
pub open spec fn without_returns(s: Seq<char>) -> Seq<char>
    decreases s.len(),
{
    if s.len() > 0 && s.last() == '\r' {
        without_returns(s.drop_last())
    } else {
        s
    }
}

/// A request whose line asks for `origin` in place of a whole URL; the version
/// and everything behind the line stay.
pub open spec fn rewritten(buf: Seq<u8>, method: Seq<char>, origin: Seq<char>, r: Result<
    (),
    ProxyError,
>, after: Seq<u8>) -> bool {
    match buf.index_of_first(0x0au8) {
        None => r == Err::<(), ProxyError>(ProxyError::NoNewline) && after == buf,
        Some(end) => if !valid_utf8(buf.take(end)) {
            r == Err::<(), ProxyError>(ProxyError::LineEncoding) && after == buf
        } else {
            let line = without_returns(decode_utf8(buf.take(end)));
            match line.index_of_last(' ') {
                None => (r matches Err(ProxyError::MalformedLine(l)) && l@ == line) && after == buf,
                Some(i) => r is Ok && after == encode_utf8(
                    method + seq![' '] + origin + seq![' '] + line.skip(i + 1) + seq!['\r', '\n'],
                ) + buf.skip(end + 1),
            }
        },
    }
}

fn trim_returns(s: &[char]) -> (r: &[char])
    ensures
        r@ == without_returns(s@),
{
    let mut end: usize = s.len();
    proof {
        assert(s@.take(end as int) =~= s@);
    }
    while end > 0 && s[end - 1] == '\r'
        invariant
            end <= s@.len(),
            without_returns(s@) == without_returns(s@.take(end as int)),
        decreases end,
    {
        proof {
            assert(s@.take(end as int).last() == s@[end as int - 1]);
            assert(s@.take(end as int).drop_last() =~= s@.take(end as int - 1));
        }
        end = end - 1;
    }
    proof {
        assert(end > 0 ==> s@.take(end as int).last() == s@[end as int - 1]);
        assert(s@.take(end as int) =~= s@.subrange(0, end as int));
    }
    slice_subrange(s, 0, end)
}

/// Writes the path, the query and the fragment of a URL.
pub fn write_origin(parts: &UrlParts) -> (r: String)
    ensures
        r@ == origin_form(parts.path@, opt_view(parts.query), opt_view(parts.fragment)),
{
    let mut out = String::from_str(parts.path.as_str());
    proof {
        reveal_strlit("?");
        reveal_strlit("#");
        assert("?"@ =~= seq!['?']);
        assert("#"@ =~= seq!['#']);
    }
    match &parts.query {
        Some(q) => {
            out.append("?");
            out.append(q.as_str());
        },
        None => {},
    }
    match &parts.fragment {
        Some(f) => {
            out.append("#");
            out.append(f.as_str());
        },
        None => {},
    }
    proof {
        assert(out@ =~= origin_form(parts.path@, opt_view(parts.query), opt_view(parts.fragment)));
    }
    out
}

/// Puts `origin` into the request line in `buf`.
pub fn rewrite_request_line(buf: &mut BytesMut, method: &str, origin: &str) -> (r: Result<
    (),
    ProxyError,
>)
    ensures
        rewritten(
            buffer::buffered(*old(buf)),
            method@,
            origin@,
            r,
            buffer::buffered(*final(buf)),
        ),
{
    let all = buffer::buf_slice(buf);
    let total: usize = all.len();
    let line_end: usize = match text::find_byte(0x0a, all) {
        Some(i) => i,
        None => {
            return Err(ProxyError::NoNewline);
        },
    };
    let ghost before = buffer::buffered(*buf);
    let line = slice_subrange(all, 0, line_end);
    let rest = slice_subrange(all, line_end + 1, total);
    proof {
        assert(line@ =~= before.take(line_end as int));
        assert(rest@ =~= before.skip(line_end as int + 1));
    }
    let first_line: &str = match text::utf8_text(line) {
        Some(s) => s,
        None => {
            return Err(ProxyError::LineEncoding);
        },
    };
    proof {
        encode_utf8_decode_utf8(first_line@);
    }
    let letters: Vec<char> = chars::chars_of(first_line);
    let trimmed = trim_returns(&letters);
    let length: usize = trimmed.len();
    let space: usize = match chars::rfind_char(trimmed, ' ') {
        Some(i) => i,
        None => {
            return Err(ProxyError::MalformedLine(chars::string_from(trimmed)));
        },
    };
    let version = slice_subrange(trimmed, space + 1, length);
    proof {
        assert(version@ =~= trimmed@.skip(space as int + 1));
        reveal_strlit(" ");
        reveal_strlit("\r\n");
        assert(" "@ =~= seq![' ']);
        assert("\r\n"@ =~= seq!['\r', '\n']);
    }
    let mut new_line = String::from_str(method);
    new_line.append(" ");
    new_line.append(origin);
    new_line.append(" ");
    new_line.append(chars::string_from(version).as_str());
    new_line.append("\r\n");
    let mut out: Vec<u8> = Vec::new();
    out.extend_from_slice(new_line.as_str().as_bytes());
    out.extend_from_slice(rest);
    proof {
        assert(out@ =~= encode_utf8(new_line@) + before.skip(line_end as int + 1));
    }
    *buf = buffer::buf_from_slice(&out);
    Ok(())
}

/// Turns a request for a whole URL into one for its path; any other request stays.
pub fn rewrite_absolute_url(buf: &mut BytesMut, method: &str, url: &str) -> (r: Result<
    (),
    ProxyError,
>)
    ensures
        match url_parts(url@) {
            None => r is Ok && buffer::buffered(*final(buf)) == buffer::buffered(*old(buf)),
            Some((_, _, _, path, query, fragment)) => rewritten(
                buffer::buffered(*old(buf)),
                method@,
                origin_form(path, query, fragment),
                r,
                buffer::buffered(*final(buf)),
            ),
        },
{
    match parse_url(url) {
        None => Ok(()),
        Some(parts) => {
            let origin: String = write_origin(&parts);
            rewrite_request_line(buf, method, origin.as_str())
        },
    }
}

/// The body of a request passes the rewriting untouched: it stays behind the
/// head, byte for byte.
pub proof fn law_body_untouched(
    buf: Seq<u8>,
    method: Seq<char>,
    origin: Seq<char>,
    r: Result<(), ProxyError>,
    after: Seq<u8>,
    body: Seq<u8>,
    head: Seq<u8>,
)
    requires
        buf == head + body,
        head.contains(0x0au8),
        rewritten(buf, method, origin, r, after),
    ensures
        after.len() >= body.len(),
        after.skip(after.len() - body.len()) == body,
{
    let i = choose|i: int| 0 <= i < head.len() && head[i] == 0x0au8;
    assert(buf[i] == 0x0au8);
    assert(buf.contains(0x0au8));
    buf.index_of_first_ensures(0x0au8);
    let end = buf.index_of_first(0x0au8)->0;
    assert(end <= i);
    if after == buf {
        assert(after.skip(after.len() - body.len()) =~= body);
    } else {
        let rest = buf.skip(end + 1);
        let front = after.take(after.len() - rest.len());
        assert(after =~= front + rest);
        assert(after.skip(after.len() - body.len()) =~= body);
    }
}

} // verus!
