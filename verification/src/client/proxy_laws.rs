//! What holds of every request that a local program makes.
use crate::buffer;
use crate::chars;
use crate::client::connection;
use crate::client::connection::{
    choose_route, is_authorized, open_plain_tunnel, ClientConnState, ClientConnectionActor, ConnRoute,
    ConnStep, PlainRequest,
};
use crate::client::handshake;
use crate::client::handshake::{
    judge_connect, prepare_tunnel, ConnectVerdict, PqSessionTicket, TunnelRequest,
};
use crate::client::proxy;
use crate::client::proxy::{
    connect_target, extract_header, is_connect, judge_head, request_target, rewrite_request_line,
    write_origin, ParseOutcome, ParsedHead, ProxyError, UrlParts,
};
use crate::client::utils;
use crate::client::utils::{
    check_response_status, is_silent_error, on_download_end, on_upload_end, write_cookie, IoKind,
    RootCause, UploadEnd,
};
use crate::decimal;
use crate::server::handlers::{dispatch_route, Route};
use crate::server::masters::MasterStore;
use crate::session;
use crate::session::{parse_target, TunnelRefusal};
use crate::shaper::{FrameError, TrafficConfig};
use crate::text;
use bytes::BytesMut;
use vstd::prelude::*;
use vstd::string::*;
use vstd::utf8::*;

verus! {

/// The origin form of a URL begins with its path and loses nothing: a query stands
/// behind the path after a question mark, and a fragment behind that after a hash.
pub proof fn law_origin_form_loses_nothing(parts: &UrlParts, r: String)
    requires
        call_ensures(write_origin, (parts,), r),
    ensures
        ({
            let p = parts.path@.len() as int;
            let q = match parts.query {
                Some(q) => 1 + q@.len() as int,
                None => 0int,
            };
            let f = match parts.fragment {
                Some(f) => 1 + f@.len() as int,
                None => 0int,
            };
            &&& r@.len() == p + q + f
            &&& r@.take(p) == parts.path@
            &&& parts.query is Some ==> r@[p] == '?' && r@.subrange(p + 1, p + q) == parts.query->0@
            &&& parts.fragment is Some ==> r@[p + q] == '#' && r@.skip(p + q + 1)
                == parts.fragment->0@
        }),
{
    let p = parts.path@.len() as int;
    assert(r@.take(p) =~= parts.path@);
    match parts.query {
        Some(q) => {
            assert(r@.subrange(p + 1, p + 1 + q@.len()) =~= q@);
            match parts.fragment {
                Some(f) => {
                    assert(r@.skip(p + 1 + q@.len() + 1) =~= f@);
                },
                None => {},
            }
        },
        None => {
            match parts.fragment {
                Some(f) => {
                    assert(r@.skip(p + 1) =~= f@);
                },
                None => {},
            }
        },
    }
}

/// Path, query and fragment can be told from the origin form: two URLs whose paths
/// hold neither question mark nor hash, and whose queries hold no hash, have the
/// same origin form only where they have the same parts.
pub proof fn law_origin_form_is_read_back(a: &UrlParts, b: &UrlParts, r: String, s: String)
    requires
        call_ensures(write_origin, (a,), r),
        call_ensures(write_origin, (b,), s),
        r@ == s@,
        !a.path@.contains('?') && !a.path@.contains('#'),
        !b.path@.contains('?') && !b.path@.contains('#'),
        a.query is Some ==> !a.query->0@.contains('#'),
        b.query is Some ==> !b.query->0@.contains('#'),
    ensures
        a.path@ == b.path@,
        proxy::opt_view(a.query) == proxy::opt_view(b.query),
        proxy::opt_view(a.fragment) == proxy::opt_view(b.fragment),
{
    law_origin_form_loses_nothing(a, r);
    law_origin_form_loses_nothing(b, s);
    lemma_path_ends(a, b, r@);
    lemma_path_ends(b, a, r@);
    let t = r@;
    let p = a.path@.len() as int;
    assert(a.path@ =~= b.path@);
    lemma_query_ends(a, b, t);
    lemma_query_ends(b, a, t);
    if a.query is Some {
        assert(a.query->0@ =~= b.query->0@);
    }
    if a.fragment is Some {
        assert(a.fragment->0@ =~= b.fragment->0@);
    }
}

/// The path of one origin form does not end before that of another.
proof fn lemma_path_ends(a: &UrlParts, b: &UrlParts, t: Seq<char>)
    requires
        t == proxy::origin_form(a.path@, proxy::opt_view(a.query), proxy::opt_view(a.fragment)),
        t == proxy::origin_form(b.path@, proxy::opt_view(b.query), proxy::opt_view(b.fragment)),
        !b.path@.contains('?') && !b.path@.contains('#'),
    ensures
        b.path@.len() <= a.path@.len(),
{
    let p = a.path@.len() as int;
    if p < b.path@.len() {
        assert(t[p] == b.path@[p]);
        assert(b.path@.contains(b.path@[p]));
        assert(t.len() >= b.path@.len());
        if a.query is Some {
            assert(t[p] == '?');
        } else if a.fragment is Some {
            assert(t[p] == '#');
        } else {
            assert(t.len() == p);
        }
    }
}

/// Where paths are equally long, a query of one is as long as that of the other.
proof fn lemma_query_ends(a: &UrlParts, b: &UrlParts, t: Seq<char>)
    requires
        t == proxy::origin_form(a.path@, proxy::opt_view(a.query), proxy::opt_view(a.fragment)),
        t == proxy::origin_form(b.path@, proxy::opt_view(b.query), proxy::opt_view(b.fragment)),
        a.path@.len() == b.path@.len(),
        b.query is Some ==> !b.query->0@.contains('#'),
    ensures
        b.query is Some ==> a.query is Some && b.query->0@.len() <= a.query->0@.len(),
        a.query is None && b.query is None ==> (a.fragment is Some <==> b.fragment is Some),
        a.query is Some && b.query is Some && a.query->0@.len() == b.query->0@.len() ==> (
        a.fragment is Some <==> b.fragment is Some),
{
    let p = a.path@.len() as int;
    if b.query is Some {
        assert(t[p] == '?');
        assert(t.len() > p);
        if a.query is None {
            if a.fragment is Some {
                assert(t[p] == '#');
            } else {
                assert(t.len() == p);
            }
        } else {
            let n = a.query->0@.len() as int;
            let q = b.query->0@;
            if n < q.len() {
                assert(t[p + 1 + n] == q[n]);
                assert(q.contains(q[n]));
                if a.fragment is Some {
                    assert(t[p + 1 + n] == '#');
                } else {
                    assert(t.len() == p + 1 + n);
                }
            }
        }
    }
}

/// A request line that asks for a whole URL asks for the path after: method and
/// path are put in front of the version, and every byte behind the line stays.
pub proof fn law_request_line_is_rewritten(
    buf: &mut BytesMut,
    method: &str,
    origin: &str,
    front: Seq<char>,
    version: Seq<char>,
    rest: Seq<u8>,
    r: Result<(), ProxyError>,
)
    requires
        call_ensures(rewrite_request_line, (buf, method, origin), r),
        buffer::buffered(*old(buf)) == encode_utf8(front + seq![' '] + version + seq!['\r'])
            + seq![0x0au8] + rest,
        forall|i: int|
            0 <= i < encode_utf8(front + seq![' '] + version + seq!['\r']).len() ==> encode_utf8(
                front + seq![' '] + version + seq!['\r'],
            )[i] != 0x0a,
        version.len() > 0,
        version.last() != '\r',
        !version.contains(' '),
    ensures
        r is Ok,
        buffer::buffered(*final(buf)) == encode_utf8(
            method@ + seq![' '] + origin@ + seq![' '] + version + seq!['\r', '\n'],
        ) + rest,
{
    let line = front + seq![' '] + version + seq!['\r'];
    let bytes = encode_utf8(line);
    let all = buffer::buffered(*old(buf));
    text::lemma_index_of_first(all, 0x0au8, bytes.len() as int);
    assert(all.take(bytes.len() as int) =~= bytes);
    encode_utf8_valid_utf8(line);
    encode_utf8_decode_utf8(line);
    let core = front + seq![' '] + version;
    assert(line.drop_last() =~= core);
    assert(core.last() == version.last());
    reveal_with_fuel(proxy::without_returns, 3);
    assert(proxy::without_returns(line) == core);
    let n = front.len() as int;
    assert(core[n] == ' ');
    assert(core.contains(core[n]));
    core.index_of_last_ensures(' ');
    let i = core.index_of_last(' ')->0;
    if i > n {
        assert(core[i] == version[i - n - 1]);
        assert(version.contains(version[i - n - 1]));
    }
    assert(core.skip(n + 1) =~= version);
    assert(all.skip(bytes.len() as int + 1) =~= rest);
}

/// What is no request line stays as it came: bytes without a line feed, a line that
/// is no text, and a line without a space.
pub proof fn law_bad_request_lines_stay(
    buf: &mut BytesMut,
    method: &str,
    origin: &str,
    r: Result<(), ProxyError>,
)
    requires
        call_ensures(rewrite_request_line, (buf, method, origin), r),
    ensures
        r is Err ==> buffer::buffered(*final(buf)) == buffer::buffered(*old(buf)),
        (forall|i: int|
            0 <= i < buffer::buffered(*old(buf)).len() ==> buffer::buffered(*old(buf))[i] != 0x0a)
            ==> r == Err::<(), ProxyError>(ProxyError::NoNewline),
{
    if forall|i: int|
        0 <= i < buffer::buffered(*old(buf)).len() ==> buffer::buffered(*old(buf))[i] != 0x0a {
        text::lemma_no_index_of_first(buffer::buffered(*old(buf)), 0x0au8);
    }
}

/// The first header of a name counts, whatever the case of its letters; without one
/// there is no value.
pub proof fn law_first_header_counts(
    headers: &[(String, Vec<u8>)],
    name: &str,
    i: int,
    r: Option<String>,
)
    requires
        call_ensures(extract_header, (headers, name), r),
        0 <= i <= headers@.len(),
        forall|j: int|
            0 <= j < i ==> chars::ascii_lower_all((#[trigger] headers@[j]).0@)
                != chars::ascii_lower_all(name@),
        i < headers@.len() ==> chars::ascii_lower_all(headers@[i].0@) == chars::ascii_lower_all(
            name@,
        ),
    ensures
        i == headers@.len() ==> r is None,
        i < headers@.len() ==> r is Some && r->0@ == proxy::lossy_text(headers@[i].1@),
{
    lemma_header_value(headers@, name@, 0, i);
    assert(proxy::header_views(headers@).skip(0) =~= proxy::header_views(headers@));
}

proof fn lemma_header_value(headers: Seq<(String, Vec<u8>)>, name: Seq<char>, from: int, i: int)
    requires
        0 <= from <= i <= headers.len(),
        forall|j: int|
            from <= j < i ==> chars::ascii_lower_all((#[trigger] headers[j]).0@)
                != chars::ascii_lower_all(name),
        i < headers.len() ==> chars::ascii_lower_all(headers[i].0@) == chars::ascii_lower_all(name),
    ensures
        proxy::header_value(proxy::header_views(headers).skip(from), name) == if i < headers.len() {
            Some(headers[i].1@)
        } else {
            None
        },
    decreases i - from,
{
    let views = proxy::header_views(headers).skip(from);
    if from < i {
        lemma_header_value(headers, name, from + 1, i);
        assert(views[0] == (headers[from].0@, headers[from].1@));
        assert(views.skip(1) =~= proxy::header_views(headers).skip(from + 1));
    } else if from < headers.len() {
        assert(views[0] == (headers[from].0@, headers[from].1@));
    }
}

/// A head that has not come whole is waited for up to 16384 bytes. A whole one is
/// taken as it is, and its credentials are read only where they are asked for.
pub proof fn law_heads_are_judged(
    head: Result<Option<ParsedHead>, String>,
    buffered: usize,
    need_proxy_auth: bool,
    r: ParseOutcome,
)
    requires
        call_ensures(judge_head, (head, buffered, need_proxy_auth), r),
    ensures
        head is Err ==> (r matches ParseOutcome::Failed(ProxyError::Invalid(e)) && e@
            == head->Err_0@),
        head is Ok && head->Ok_0 is None && buffered <= 16_384 ==> r is NeedMore,
        head is Ok && head->Ok_0 is None && buffered > 16_384 ==> r == ParseOutcome::Failed(
            ProxyError::HeaderTooLarge,
        ),
        head is Ok && head->Ok_0 is Some && head->Ok_0->0.method is None ==> r
            == ParseOutcome::Failed(ProxyError::NoMethod),
        head is Ok && head->Ok_0 is Some && head->Ok_0->0.method is Some && head->Ok_0->0.path is None
            ==> r == ParseOutcome::Failed(ProxyError::NoPath),
        head is Ok && head->Ok_0 is Some && head->Ok_0->0.method is Some && head->Ok_0->0.path is Some
            ==> {
            &&& r is Complete
            &&& r->method@ == head->Ok_0->0.method->0@
            &&& r->url@ == head->Ok_0->0.path->0@
            &&& r->header_len == head->Ok_0->0.len
            &&& !need_proxy_auth ==> r->proxy_auth is None
            &&& head->Ok_0->0.headers@.len() == 0 ==> r->proxy_auth is None
        },
{
}

/// Credentials are read from the first header that is named for them.
pub proof fn law_credentials_are_read(
    h: ParsedHead,
    buffered: usize,
    i: int,
    r: ParseOutcome,
)
    requires
        call_ensures(judge_head, (Ok::<Option<ParsedHead>, String>(Some(h)), buffered, true), r),
        h.method is Some,
        h.path is Some,
        0 <= i <= h.headers@.len(),
        forall|j: int|
            0 <= j < i ==> chars::ascii_lower_all((#[trigger] h.headers@[j]).0@)
                != chars::ascii_lower_all("proxy-authorization"@),
        i < h.headers@.len() ==> chars::ascii_lower_all(h.headers@[i].0@) == chars::ascii_lower_all(
            "proxy-authorization"@,
        ),
    ensures
        r is Complete,
        i == h.headers@.len() ==> r->proxy_auth is None,
        i < h.headers@.len() ==> r->proxy_auth is Some && r->proxy_auth->0@ == proxy::lossy_text(
            h.headers@[i].1@,
        ),
{
    lemma_header_value(h.headers@, "proxy-authorization"@, 0, i);
    assert(proxy::header_views(h.headers@).skip(0) =~= proxy::header_views(h.headers@));
}

/// The target of a tunnel is the host that the authority names, out of its square
/// brackets, a colon and the port. An authority without a port has no target.
pub proof fn law_authority_names_target(
    host: String,
    port: Option<u16>,
    inner: Seq<char>,
    url: &str,
    r: Result<String, ProxyError>,
    none: Result<String, ProxyError>,
)
    requires
        call_ensures(connect_target, (Some((host, port)), url), r),
        call_ensures(connect_target, (None::<(String, Option<u16>)>, url), none),
        host@ == inner && (inner.len() == 0 || inner[0] != '[') || host@ == seq!['['] + inner + seq![
            ']',
        ],
    ensures
        port is Some ==> (r matches Ok(t) && t@ == inner + seq![':'] + decimal::decimal(
            port->0 as nat,
        )),
        port is None ==> (r matches Err(ProxyError::TargetPort(t)) && t@ == url@),
        none matches Err(ProxyError::InvalidTarget(t)) && t@ == url@,
{
    if host@ == seq!['['] + inner + seq![']'] {
        assert(host@.subrange(1, host@.len() - 1) =~= inner);
    }
}

/// The target of a request for a URL is the host that the URL names, a colon and
/// the port.
pub proof fn law_url_names_target(
    parts: UrlParts,
    r: Result<String, ProxyError>,
    none: Result<String, ProxyError>,
)
    requires
        call_ensures(request_target, (Some(parts),), r),
        call_ensures(request_target, (None::<UrlParts>,), none),
    ensures
        none == Err::<String, ProxyError>(ProxyError::InvalidUrl),
        parts.host is None ==> r == Err::<String, ProxyError>(ProxyError::NoHost),
        parts.host is Some && parts.port is None ==> r == Err::<String, ProxyError>(
            ProxyError::NoPort,
        ),
        parts.host is Some && parts.port is Some ==> (r matches Ok(t) && t@ == parts.host->0@ + seq![
            ':',
        ] + decimal::decimal(parts.port->0 as nat)),
{
}

/// What the client names as its target the server reads as the same host and port.
pub proof fn law_target_crosses_tunnel(
    parts: UrlParts,
    host: String,
    port: u16,
    target: String,
    received: &str,
    r: Result<(String, u16), TunnelRefusal>,
)
    requires
        parts.host == Some(host),
        parts.port == Some(port),
        call_ensures(request_target, (Some(parts),), Ok::<String, ProxyError>(target)),
        call_ensures(parse_target, (received,), r),
        received@ == target@,
    ensures
        r matches Ok((h, p)) && h@ == host@ && p == port,
{
    session::law_target_is_read_back(received, host@, port, r);
}

/// Only the method of seven capital letters asks for a tunnel.
pub proof fn law_connect_is_one_word(method: &str, r: bool)
    requires
        call_ensures(is_connect, (method,), r),
    ensures
        r <==> method@ == seq!['C', 'O', 'N', 'N', 'E', 'C', 'T'],
{
    reveal_strlit("CONNECT");
    assert("CONNECT"@ =~= seq!['C', 'O', 'N', 'N', 'E', 'C', 'T']);
}

/// Where no credentials are asked for every request passes, and where they are, one
/// with just these, but for white space around them.
pub proof fn law_credentials_must_match(
    expected: &str,
    given: &str,
    i: int,
    j: int,
    none: bool,
    missing: bool,
    r: bool,
)
    requires
        call_ensures(is_authorized, (None::<&str>, Some(given)), none),
        call_ensures(is_authorized, (Some(expected), None::<&str>), missing),
        call_ensures(is_authorized, (Some(expected), Some(given)), r),
        0 <= i < j <= given@.len(),
        forall|k: int|
            0 <= k < i || j <= k < given@.len() ==> chars::is_white(#[trigger] given@[k]),
        !chars::is_white(given@[i]),
        !chars::is_white(given@[j - 1]),
    ensures
        none,
        !missing,
        r <==> given@.subrange(i, j) == expected@,
{
    chars::lemma_trimmed(given@, i, j);
}

/// A request with a whole head goes where it asks, once it has the credentials: a
/// tunnel is confirmed, and its bytes are kept without the head. Without them it is
/// asked for them, and the head is dropped.
pub proof fn law_requests_are_handled(
    c: &mut ClientConnectionActor,
    method: String,
    header_len: usize,
    url: String,
    proxy_auth: Option<String>,
    r: ConnStep,
)
    requires
        call_ensures(
            ClientConnectionActor::handle,
            (c, ParseOutcome::Complete { method, header_len, url, proxy_auth }),
            r,
        ),
        header_len <= old(c).waiting().len(),
    ensures
        old(c).expected() is Some && proxy_auth is None ==> {
            &&& r is Challenge
            &&& final(c).state_view() is Parsing
            &&& final(c).waiting() == old(c).waiting().skip(header_len as int)
        },
        old(c).expected() is None && method@ == "CONNECT"@ ==> {
            &&& final(c).waiting() == old(c).waiting().skip(header_len as int)
            &&& r == (ConnStep::Established {
                read_early: old(c).waiting().len() - header_len < 16_384,
            })
            &&& final(c).state_view() is Early
            &&& final(c).state_view()->Early_0@ == url@
        },
        old(c).expected() is None && method@ != "CONNECT"@ ==> (r is Ready || r is Failed),
        r is Ready ==> final(c).state_view() is Active,
        r is Failed ==> final(c).state_view() is Closed,
{
}

/// A request that is not whole is read on, and one that is none is given up.
pub proof fn law_partial_requests_wait(
    c: &mut ClientConnectionActor,
    d: &mut ClientConnectionActor,
    e: ProxyError,
    more: ConnStep,
    failed: ConnStep,
)
    requires
        call_ensures(ClientConnectionActor::handle, (c, ParseOutcome::NeedMore), more),
        call_ensures(ClientConnectionActor::handle, (d, ParseOutcome::Failed(e)), failed),
    ensures
        more is Read,
        final(c).state_view() is Parsing,
        final(c).waiting() == old(c).waiting(),
        failed == ConnStep::Failed(e),
        final(d).state_view() is Closed,
{
}

/// The first bytes of a tunnel are collected up to 16384, or until none come, and go
/// on to the target together.
pub proof fn law_first_bytes_are_collected(
    c: &mut ClientConnectionActor,
    chunk: Option<&[u8]>,
    host: Seq<char>,
    port: u16,
    r: ConnStep,
)
    requires
        call_ensures(ClientConnectionActor::on_early, (c, chunk), r),
        old(c).state_view() is Early,
        proxy::authority_parts(old(c).state_view()->Early_0@) == Some((host, Some(port))),
        host.len() > 0,
        host[0] != '[',
    ensures
        ({
            let all = match chunk {
                Some(bytes) => old(c).waiting() + bytes@,
                None => old(c).waiting(),
            };
            &&& chunk is Some && all.len() < 16_384 ==> r is ReadEarly && final(c).waiting() == all
                && final(c).state_view() == old(c).state_view()
            &&& chunk is None || all.len() >= 16_384 ==> {
                &&& r matches ConnStep::Ready { target, payload }
                &&& target@ == host + seq![':'] + decimal::decimal(port as nat)
                &&& buffer::frozen(payload) == all
                &&& final(c).state_view() is Active
            }
        }),
{
}

/// A connection that no rule sends straight to its target goes through a tunnel,
/// and an encrypted one exactly where the server's key is known.
pub proof fn law_tunnels_are_encrypted_with_key(target: &str, has_server_key: bool, r: ConnRoute)
    requires
        call_ensures(
            choose_route,
            (None::<&crate::bypass::rules::BypassRules>, target, has_server_key),
            r,
        ),
    ensures
        has_server_key ==> r == ConnRoute::Encrypted,
        !has_server_key ==> r == ConnRoute::Plain,
{
}

/// The request for an unencrypted tunnel is taken for one: its stream number, sent as
/// the session cookie beside the target header, leads there whatever tunnels and
/// sessions the server has.
pub proof fn law_plain_tunnel_is_routed_plain(
    payload: &[u8],
    traffic: &TrafficConfig,
    request: PlainRequest,
    cookie: &str,
    tunnel_runs: bool,
    masters: &MasterStore,
    route: Route,
)
    requires
        call_ensures(open_plain_tunnel, (payload, traffic), Ok::<PlainRequest, FrameError>(request)),
        cookie@ == request.stream_id@,
        call_ensures(dispatch_route, (true, Some(cookie), tunnel_runs, masters), route),
    ensures
        route == Route::Plaintext,
{
    if cookie@.contains(':') {
        let i = choose|i: int| 0 <= i < cookie@.len() && cookie@[i] == ':';
        assert(crate::server::handlers::is_uuid_char(request.stream_id@[i]));
    }
}

/// The request for an encrypted tunnel never is: its cookie leads to a tunnel or a
/// session, with or without a target header.
pub proof fn law_sealed_tunnel_is_never_plain(
    ticket: &PqSessionTicket,
    stream_id: &[u8; 16],
    target: &str,
    payload: &[u8],
    traffic: &TrafficConfig,
    request: TunnelRequest,
    cookie: &str,
    has_target: bool,
    tunnel_runs: bool,
    masters: &MasterStore,
    route: Route,
)
    requires
        call_ensures(
            prepare_tunnel,
            (ticket, stream_id, target, payload, traffic),
            Ok::<TunnelRequest, FrameError>(request),
        ),
        cookie@ == request.cookie_value@,
        !ticket.session_id@.contains(':'),
        call_ensures(dispatch_route, (has_target, Some(cookie), tunnel_runs, masters), route),
    ensures
        route != Route::Plaintext,
        tunnel_runs ==> route == Route::Tunnel,
        !tunnel_runs && masters.entries().contains_key(ticket.session_id@) ==> route == Route::Spawn,
        !tunnel_runs && !masters.entries().contains_key(ticket.session_id@) ==> route
            == Route::SessionNotFound,
{
    let sid = ticket.session_id@;
    assert(handshake::names_tunnel(cookie@, ticket.master@, sid, stream_id@, target@));
    let (target_part, stream_part) = choose|target_part: Seq<char>, stream_part: Seq<char>|
        {
            &&& cookie@ == sid + seq![':'] + target_part + seq![':'] + stream_part
            &&& #[trigger] handshake::parts_open(
                ticket.master@,
                stream_id@,
                target@,
                target_part,
                stream_part,
            )
            &&& (!sid.contains(':') ==> session::cookie_parts(cookie@) == Some(
                (sid, target_part, stream_part),
            ))
        };
    let i = sid.len() as int;
    assert(cookie@[i] == ':');
    assert(cookie@.contains(cookie@[i]));
    assert forall|j: int| 0 <= j < i implies cookie@[j] != ':' by {
        assert(sid.contains(sid[j]));
    }
    chars::lemma_first_index(cookie@, ':', i);
    assert(cookie@.take(i) =~= sid);
}

/// A cookie is a name, an equals sign, the value, and behind a semicolon and a space
/// padding that starts with its own name.
pub proof fn law_cookie_is_written(name: &str, value: &str, pad: usize, r: String)
    requires
        call_ensures(write_cookie, (name, value, pad), r),
        pad <= 34,
    ensures
        ({
            let n = name@.len() as int;
            let m = value@.len() as int;
            &&& r@.len() == n + m + 3 + pad
            &&& r@.take(n) == name@
            &&& r@[n] == '='
            &&& r@.subrange(n + 1, n + 1 + m) == value@
            &&& r@[n + 1 + m] == ';'
            &&& r@[n + 2 + m] == ' '
            &&& pad >= 8 ==> r@.subrange(n + m + 3, n + m + 11) == "padding="@
            &&& forall|i: int| n + m + 11 <= i < r@.len() ==> r@[i] == 'X'
        }),
{
    reveal_strlit("=");
    reveal_strlit("; ");
    reveal_strlit("padding=XXXXXXXXXXXXXXXXXXXXXXXXXX");
    reveal_strlit("padding=");
    let n = name@.len() as int;
    let m = value@.len() as int;
    assert(r@.take(n) =~= name@);
    assert(r@.subrange(n + 1, n + 1 + m) =~= value@);
    if pad >= 8 {
        assert(r@.subrange(n + m + 3, n + m + 11) =~= "padding="@);
    }
}

/// Bytes are cut into pieces of 16384, all of them but the last, which holds what is
/// left and is never empty.
pub proof fn law_pieces_are_full(s: Seq<u8>, i: int)
    requires
        0 <= i < utils::pieces(s).len(),
    ensures
        i + 1 < utils::pieces(s).len() ==> utils::pieces(s)[i].len() == 16_384,
        i + 1 == utils::pieces(s).len() ==> 0 < utils::pieces(s)[i].len() <= 16_384,
        i + 1 == utils::pieces(s).len() ==> utils::pieces(s)[i].len() + 16_384 * i == s.len(),
        forall|j: int|
            0 <= j < utils::pieces(s)[i].len() ==> #[trigger] utils::pieces(s)[i][j] == s[16_384 * i
                + j],
{
}

/// What is sent first is a beginning of the bytes, all of them where they are few.
pub proof fn law_head_is_a_beginning(s: Seq<u8>, max: nat)
    ensures
        utils::head(s, max).is_prefix_of(s),
        s.len() <= max ==> utils::head(s, max).len() == s.len(),
        s.len() > max ==> utils::head(s, max).len() == max,
{
}

/// Exactly the two hundreds are a success.
pub proof fn law_success_is_two_hundred(status: u16, context: &str, r: Result<(), String>)
    requires
        call_ensures(check_response_status, (status, context), r),
    ensures
        r is Ok <==> status / 100 == 2,
        r is Err ==> r->Err_0@.take(context@.len() as int) == context@,
{
    reveal_strlit(": ");
    if r is Err {
        assert(r->Err_0@.take(context@.len() as int) =~= context@);
    }
}

/// An answer of 428 asks for a new handshake, a success opens the tunnel, and any
/// other refuses it.
pub proof fn law_answers_to_opening(status: u16, r: ConnectVerdict)
    requires
        call_ensures(judge_connect, (status,), r),
    ensures
        r is Rehandshake <==> status == 428,
        r is Open <==> status / 100 == 2,
        r is Rejected <==> status != 428 && status / 100 != 2,
{
}

/// An upload that has finished or was cancelled leaves the download going; one that
/// failed or died breaks it off.
pub proof fn law_failed_upload_ends_download(end: UploadEnd, r: Result<(), String>)
    requires
        call_ensures(on_upload_end, (end,), r),
    ensures
        r is Ok <==> end is Finished || end is Cancelled,
        end is Failed ==> r == Err::<(), String>(end->Failed_0),
{
}

/// A download that failed fails the connection, under its label where it has one.
pub proof fn law_failed_download_fails(
    result: Result<(), String>,
    label: Option<&str>,
    r: Result<(), String>,
)
    requires
        call_ensures(on_download_end, (result, label), r),
    ensures
        r is Ok <==> result is Ok,
        r is Err && label is Some ==> r->Err_0@ == label->0@,
        r is Err && label is None ==> r == result,
{
}

/// A peer that went away is no news: a stream that was reset, by it or by the
/// library, or a connection that was reset, cut, not there or broken.
pub proof fn law_lost_peers_are_silent(
    reset: bool,
    library: bool,
    kind: IoKind,
    h2: bool,
    io: bool,
)
    requires
        call_ensures(is_silent_error, (&RootCause::H2 { reset, library },), h2),
        call_ensures(is_silent_error, (&RootCause::Io(kind),), io),
    ensures
        h2 <==> reset || library,
        io <==> kind == IoKind::ConnectionReset || kind == IoKind::UnexpectedEof || kind
            == IoKind::NotConnected || kind == IoKind::BrokenPipe,
{
}

/// Words that tell of a connection that ended before its request are no news, wherever
/// in them that stands.
pub proof fn law_early_ends_are_silent(
    words: String,
    front: Seq<char>,
    back: Seq<char>,
    r: bool,
)
    requires
        call_ensures(is_silent_error, (&RootCause::Other(words),), r),
        encode_utf8(words@) == encode_utf8(front) + encode_utf8(
            "connection closed during header parsing"@,
        ) + encode_utf8(back),
    ensures
        r,
{
    let hay = encode_utf8(words@);
    let needle = encode_utf8("connection closed during header parsing"@);
    let at = encode_utf8(front).len() as int;
    assert(hay.subrange(at, at + needle.len()) =~= needle);
    assert(text::occurs_at(hay, needle, at));
    lemma_first_exists(hay, needle, at);
}

proof fn lemma_first_exists(hay: Seq<u8>, needle: Seq<u8>, at: int)
    requires
        text::occurs_at(hay, needle, at),
    ensures
        text::first_occurrence(hay, needle) is Some,
    decreases at,
{
    if exists|j: int| 0 <= j < at && #[trigger] text::occurs_at(hay, needle, j) {
        let j = choose|j: int| 0 <= j < at && #[trigger] text::occurs_at(hay, needle, j);
        lemma_first_exists(hay, needle, j);
    } else {
        assert(text::first_at(hay, needle, at));
    }
}

} // verus!
