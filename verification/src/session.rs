//! The session cookie: session name, sealed target and sealed stream number.
use crate::base64url;
use crate::chars;
use crate::crypto::cipher;
use crate::crypto::cipher::{decrypt_bytes, encrypt_bytes, MAX_PLAINTEXT_LEN};
use crate::crypto::handshake;
use crate::crypto::handshake::{derive_connection_keys, derive_cookie_stream_key};
use crate::decimal;
use crate::error::ServerError;
use crate::shaper::FrameError;
use crate::text;
use vstd::prelude::*;
use vstd::slice::slice_subrange;
use vstd::string::*;
use vstd::utf8::*;

verus! {

/// Why a session cookie opens no tunnel.
#[derive(Debug, Clone, Copy, PartialEq, Eq, Structural)]
pub enum TunnelRefusal {
    CookieFormat,
    SessionNotFound,
    MasterExpired,
    CookieEncoding,
    StreamIdSealed,
    StreamIdLength,
    StreamClaimed,
    StreamConsumed,
    TargetSealed,
    TargetUtf8,
    TargetFormat,
    TargetPort,
}

impl TunnelRefusal {
    /// The status of the answer: the client is to shake hands again, unless
    /// the target itself makes no sense.
    pub open spec fn status(self) -> u16 {
        match self {
            TunnelRefusal::TargetFormat => 400,
            TunnelRefusal::TargetPort => 400,
            _ => 428,
        }
    }

    /// The reason in words.
    pub open spec fn text(self) -> Seq<char> {
        match self {
            TunnelRefusal::CookieFormat => "invalid session cookie format"@,
            TunnelRefusal::SessionNotFound => "session not found"@,
            TunnelRefusal::MasterExpired => "master key expired"@,
            TunnelRefusal::CookieEncoding => "invalid cookie encoding"@,
            TunnelRefusal::StreamIdSealed => "failed to decrypt conn_nonce"@,
            TunnelRefusal::StreamIdLength => "invalid conn_nonce length"@,
            TunnelRefusal::StreamClaimed => "nonce already claimed"@,
            TunnelRefusal::StreamConsumed => "nonce already consumed"@,
            TunnelRefusal::TargetSealed => "failed to decrypt target"@,
            TunnelRefusal::TargetUtf8 => "invalid target utf8"@,
            TunnelRefusal::TargetFormat => "target must be host:port"@,
            TunnelRefusal::TargetPort => "invalid port"@,
        }
    }

    /// The answer to the client.
    pub fn to_error(&self) -> (r: ServerError)
        ensures
            r.says(self.status(), self.text()),
    {
        match self {
            TunnelRefusal::CookieFormat => ServerError::precondition_required(
                "invalid session cookie format",
            ),
            TunnelRefusal::SessionNotFound => ServerError::precondition_required("session not found"),
            TunnelRefusal::MasterExpired => ServerError::precondition_required("master key expired"),
            TunnelRefusal::CookieEncoding => ServerError::precondition_required(
                "invalid cookie encoding",
            ),
            TunnelRefusal::StreamIdSealed => ServerError::precondition_required(
                "failed to decrypt conn_nonce",
            ),
            TunnelRefusal::StreamIdLength => ServerError::precondition_required(
                "invalid conn_nonce length",
            ),
            TunnelRefusal::StreamClaimed => ServerError::precondition_required(
                "nonce already claimed",
            ),
            TunnelRefusal::StreamConsumed => ServerError::precondition_required(
                "nonce already consumed",
            ),
            TunnelRefusal::TargetSealed => ServerError::precondition_required(
                "failed to decrypt target",
            ),
            TunnelRefusal::TargetUtf8 => ServerError::precondition_required("invalid target utf8"),
            TunnelRefusal::TargetFormat => ServerError::bad_request("target must be host:port"),
            TunnelRefusal::TargetPort => ServerError::bad_request("invalid port"),
        }
    }
}

/// The three parts of a session cookie. The last one may hold further colons.
pub open spec fn cookie_parts(c: Seq<char>) -> Option<(Seq<char>, Seq<char>, Seq<char>)> {
    match c.index_of_first(':') {
        None => None,
        Some(i) => {
            let rest = c.skip(i + 1);
            match rest.index_of_first(':') {
                None => None,
                Some(j) => Some((c.take(i), rest.take(j), rest.skip(j + 1))),
            }
        },
    }
}

/// What stands before the first colon, or everything.
pub open spec fn session_of(c: Seq<char>) -> Seq<char> {
    match c.index_of_first(':') {
        None => c,
        Some(i) => c.take(i),
    }
}

/// The stream number that a part of the cookie seals.
pub open spec fn opened_stream(master: Seq<u8>, part: Seq<char>) -> Result<Seq<u8>, TunnelRefusal> {
    match base64url::base64_decoded(part) {
        Err(_) => Err(TunnelRefusal::CookieEncoding),
        Ok(sealed) => match cipher::opened_payload(handshake::cookie_stream_key(master), sealed) {
            Err(_) => Err(TunnelRefusal::StreamIdSealed),
            Ok(id) => if id.len() != 16 {
                Err(TunnelRefusal::StreamIdLength)
            } else {
                Ok(id)
            },
        },
    }
}

/// The target that a part of the cookie seals under the keys of a stream.
pub open spec fn opened_target(master: Seq<u8>, stream_id: Seq<u8>, part: Seq<char>) -> Result<
    Seq<char>,
    TunnelRefusal,
> {
    match base64url::base64_decoded(part) {
        Err(_) => Err(TunnelRefusal::CookieEncoding),
        Ok(sealed) => match cipher::opened_payload(
            handshake::connection_secret(master, stream_id).subrange(64, 96),
            sealed,
        ) {
            Err(_) => Err(TunnelRefusal::TargetSealed),
            Ok(bytes) => if valid_utf8(bytes) {
                Ok(decode_utf8(bytes))
            } else {
                Err(TunnelRefusal::TargetUtf8)
            },
        },
    }
}

/// Host and port of a target: what stands before and behind its last colon.
pub open spec fn host_and_port(target: Seq<char>) -> Result<(Seq<char>, u16), TunnelRefusal> {
    match target.index_of_last(':') {
        None => Err(TunnelRefusal::TargetFormat),
        Some(i) => match chars::parsed_number(target.skip(i + 1), 0xffff) {
            None => Err(TunnelRefusal::TargetPort),
            Some(port) => Ok((target.take(i), port as u16)),
        },
    }
}

/// Splits a session cookie into its parts.
pub fn split_cookie(cookie: &str) -> (r: Option<(String, String, String)>)
    ensures
        match cookie_parts(cookie@) {
            None => r is None,
            Some((sid, target, stream)) => r matches Some((a, b, c)) && a@ == sid && b@ == target
                && c@ == stream,
        },
{
    let all: Vec<char> = chars::chars_of(cookie);
    let total: usize = all.len();
    let i: usize = match chars::find_char(&all, ':') {
        Some(i) => i,
        None => {
            return None;
        },
    };
    let rest = slice_subrange(&all, i + 1, total);
    proof {
        assert(rest@ =~= cookie@.skip(i as int + 1));
    }
    let j: usize = match chars::find_char(rest, ':') {
        Some(j) => j,
        None => {
            return None;
        },
    };
    let sid = slice_subrange(&all, 0, i);
    let target = slice_subrange(rest, 0, j);
    let stream = slice_subrange(rest, j + 1, rest.len());
    proof {
        assert(sid@ =~= cookie@.take(i as int));
        assert(target@ =~= rest@.take(j as int));
        assert(stream@ =~= rest@.skip(j as int + 1));
    }
    Some((chars::string_from(sid), chars::string_from(target), chars::string_from(stream)))
}

/// The session that a cookie names.
pub fn cookie_session(cookie: &str) -> (r: String)
    ensures
        r@ == session_of(cookie@),
{
    let all: Vec<char> = chars::chars_of(cookie);
    match chars::find_char(&all, ':') {
        Some(i) => {
            let sid = slice_subrange(&all, 0, i);
            proof {
                assert(sid@ =~= cookie@.take(i as int));
            }
            chars::string_from(sid)
        },
        None => chars::string_from(&all),
    }
}

/// The first sixteen bytes of a slice.
pub(crate) fn array_16(s: &[u8]) -> (r: [u8; 16])
    requires
        s@.len() == 16,
    ensures
        r@ == s@,
{
    let mut out: [u8; 16] = [0u8; 16];
    let mut i: usize = 0;
    while i < 16
        invariant
            i <= 16,
            s@.len() == 16,
            forall|j: int| 0 <= j < i ==> out@[j] == s@[j],
        decreases 16 - i,
    {
        out[i] = s[i];
        i = i + 1;
    }
    proof {
        assert(out@ =~= s@);
    }
    out
}

/// Opens the stream number of a cookie.
pub fn open_stream_id(master: &[u8; 32], part: &str) -> (r: Result<[u8; 16], TunnelRefusal>)
    ensures
        match r {
            Ok(id) => opened_stream(master@, part@) == Ok::<Seq<u8>, TunnelRefusal>(id@),
            Err(e) => opened_stream(master@, part@) == Err::<Seq<u8>, TunnelRefusal>(e),
        },
{
    let key: [u8; 32] = derive_cookie_stream_key(master);
    let sealed: Vec<u8> = match base64url::decode(part) {
        Ok(s) => s,
        Err(_) => {
            return Err(TunnelRefusal::CookieEncoding);
        },
    };
    match decrypt_bytes(&key, &sealed) {
        Ok(id) => {
            if id.len() != 16 {
                return Err(TunnelRefusal::StreamIdLength);
            }
            Ok(array_16(&id))
        },
        Err(_) => Err(TunnelRefusal::StreamIdSealed),
    }
}

/// Opens the target of a cookie with the target key of its stream.
pub fn open_target(target_key: &[u8; 32], part: &str) -> (r: Result<String, TunnelRefusal>)
    ensures
        forall|master: Seq<u8>, stream_id: Seq<u8>|
            target_key@ == #[trigger] handshake::connection_secret(master, stream_id).subrange(
                64,
                96,
            ) ==> match r {
                Ok(t) => opened_target(master, stream_id, part@) == Ok::<Seq<char>, TunnelRefusal>(t@),
                Err(e) => opened_target(master, stream_id, part@) == Err::<
                    Seq<char>,
                    TunnelRefusal,
                >(e),
            },
{
    let sealed: Vec<u8> = match base64url::decode(part) {
        Ok(s) => s,
        Err(_) => {
            return Err(TunnelRefusal::CookieEncoding);
        },
    };
    match decrypt_bytes(target_key, &sealed) {
        Ok(bytes) => match text::utf8_text(&bytes) {
            Some(s) => {
                proof {
                    encode_utf8_decode_utf8(s@);
                }
                Ok(String::from_str(s))
            },
            None => Err(TunnelRefusal::TargetUtf8),
        },
        Err(_) => Err(TunnelRefusal::TargetSealed),
    }
}

/// Splits a target into host and port.
pub fn parse_target(target: &str) -> (r: Result<(String, u16), TunnelRefusal>)
    ensures
        match host_and_port(target@) {
            Ok((host, port)) => r matches Ok((h, p)) && h@ == host && p == port,
            Err(e) => r == Err::<(String, u16), TunnelRefusal>(e),
        },
{
    let all: Vec<char> = chars::chars_of(target);
    let i: usize = match chars::rfind_char(&all, ':') {
        Some(i) => i,
        None => {
            return Err(TunnelRefusal::TargetFormat);
        },
    };
    let host = slice_subrange(&all, 0, i);
    let port = slice_subrange(&all, i + 1, all.len());
    proof {
        assert(host@ =~= target@.take(i as int));
        assert(port@ =~= target@.skip(i as int + 1));
    }
    match chars::parse_number(port, 0xffff) {
        Some(p) => Ok((chars::string_from(host), p as u16)),
        None => Err(TunnelRefusal::TargetPort),
    }
}

/// Makes the cookie that opens a tunnel to `target` under a session: a server
/// that holds the session's master key reads stream number and target from it.
pub fn seal_session_cookie(
    master: &[u8; 32],
    session_id: &str,
    stream_id: &[u8; 16],
    target: &str,
) -> (r: Result<String, FrameError>)
    requires
        2 * (target.spec_bytes().len() + 28) <= isize::MAX,
    ensures
        r is Ok <==> target.spec_bytes().len() <= MAX_PLAINTEXT_LEN,
        r matches Err(e) ==> e == FrameError::EncryptionFailed,
        r matches Ok(cookie) ==> exists|target_part: Seq<char>, stream_part: Seq<char>|
            {
                &&& cookie@ == session_id@ + seq![':'] + target_part + seq![':'] + stream_part
                &&& #[trigger] opened_target(master@, stream_id@, target_part) == Ok::<
                    Seq<char>,
                    TunnelRefusal,
                >(target@)
                &&& #[trigger] opened_stream(master@, stream_part) == Ok::<
                    Seq<u8>,
                    TunnelRefusal,
                >(stream_id@)
                &&& (!session_id@.contains(':') ==> cookie_parts(cookie@) == Some(
                    (session_id@, target_part, stream_part),
                ))
            },
{
    let (_up, _down, target_key): ([u8; 32], [u8; 32], [u8; 32]) = derive_connection_keys(
        master,
        stream_id,
    );
    let enc_target: Vec<u8> = match encrypt_bytes(&target_key, target.as_bytes()) {
        Ok(c) => c,
        Err(e) => {
            return Err(e);
        },
    };
    let stream_key: [u8; 32] = derive_cookie_stream_key(master);
    let enc_stream: Vec<u8> = match encrypt_bytes(&stream_key, stream_id) {
        Ok(c) => c,
        Err(e) => {
            return Err(e);
        },
    };
    let target_part: String = base64url::encode(&enc_target);
    let stream_part: String = base64url::encode(&enc_stream);
    let mut cookie = String::from_str(session_id);
    cookie.append(":");
    cookie.append(target_part.as_str());
    cookie.append(":");
    cookie.append(stream_part.as_str());
    proof {
        reveal_strlit(":");
        assert(":"@ =~= seq![':']);
        encode_utf8_valid_utf8(target@);
        encode_utf8_decode_utf8(target@);
        assert(opened_target(master@, stream_id@, target_part@) == Ok::<Seq<char>, TunnelRefusal>(
            target@,
        ));
        assert(opened_stream(master@, stream_part@) == Ok::<Seq<u8>, TunnelRefusal>(stream_id@));
        if !session_id@.contains(':') {
            lemma_cookie_parts(session_id@, target_part@, stream_part@);
        }
    }
    Ok(cookie)
}

/// A name without colons and an encoded part are found again in a cookie.
proof fn lemma_cookie_parts(sid: Seq<char>, target: Seq<char>, stream: Seq<char>)
    requires
        !sid.contains(':'),
        forall|i: int| 0 <= i < target.len() ==> base64url::is_alphabet(#[trigger] target[i]),
    ensures
        cookie_parts(sid + seq![':'] + target + seq![':'] + stream) == Some((sid, target, stream)),
{
    let c = sid + seq![':'] + target + seq![':'] + stream;
    let i = sid.len() as int;
    assert forall|j: int| 0 <= j < i implies c[j] != ':' by {
        assert(sid.contains(sid[j]));
    }
    chars::lemma_first_index(c, ':', i);
    let rest = c.skip(i + 1);
    let k = target.len() as int;
    assert forall|j: int| 0 <= j < k implies rest[j] != ':' by {
        assert(rest[j] == target[j]);
        assert(base64url::is_alphabet(target[j]));
    }
    chars::lemma_first_index(rest, ':', k);
    assert(c.take(i) =~= sid);
    assert(rest.take(k) =~= target);
    assert(rest.skip(k + 1) =~= stream);
}

/// A target written as host, colon and port in decimal is read back as that host
/// and that port, whatever the host, and whichever port.
pub proof fn law_target_is_read_back(
    target: &str,
    host: Seq<char>,
    port: u16,
    r: Result<(String, u16), TunnelRefusal>,
)
    requires
        call_ensures(parse_target, (target,), r),
        target@ == host + seq![':'] + decimal::decimal(port as nat),
    ensures
        r matches Ok((h, p)) && h@ == host && p == port,
{
    lemma_host_and_port(host, port as nat);
}

/// Where the number behind the last colon is beyond every port, the target is refused.
pub proof fn law_port_is_bounded(
    target: &str,
    host: Seq<char>,
    n: nat,
    r: Result<(String, u16), TunnelRefusal>,
)
    requires
        call_ensures(parse_target, (target,), r),
        target@ == host + seq![':'] + decimal::decimal(n),
        n > 65_535,
    ensures
        r == Err::<(String, u16), TunnelRefusal>(TunnelRefusal::TargetPort),
{
    lemma_host_and_port(host, n);
}

/// A target without a colon has no port, and one with anything but a number behind
/// its last colon has a bad one.
pub proof fn law_target_needs_port(
    target: &str,
    host: Seq<char>,
    port: Seq<char>,
    r: Result<(String, u16), TunnelRefusal>,
)
    requires
        call_ensures(parse_target, (target,), r),
        !port.contains(':'),
    ensures
        target@ == port ==> r == Err::<(String, u16), TunnelRefusal>(TunnelRefusal::TargetFormat),
        target@ == host + seq![':'] + port && (port.len() == 0 || !('0' <= port.last() <= '9'))
            ==> r == Err::<(String, u16), TunnelRefusal>(TunnelRefusal::TargetPort),
        target@ == host + seq![':'] + port && (exists|k: int|
            0 < k < port.len() && !('0' <= #[trigger] port[k] <= '9')) ==> r == Err::<
            (String, u16),
            TunnelRefusal,
        >(TunnelRefusal::TargetPort),
{
    let t = target@;
    t.index_of_last_ensures(':');
    if t == host + seq![':'] + port {
        let i = host.len() as int;
        assert(t[i] == ':');
        assert(t.contains(t[i]));
        let j = t.index_of_last(':')->0;
        if j > i {
            assert(t[j] == port[j - i - 1]);
            assert(port.contains(port[j - i - 1]));
        }
        assert(t.skip(i + 1) =~= port);
        if exists|k: int| 0 < k < port.len() && !('0' <= #[trigger] port[k] <= '9') {
            let k = choose|k: int| 0 < k < port.len() && !('0' <= #[trigger] port[k] <= '9');
            if port[0] == '+' {
                assert(port.skip(1)[k - 1] == port[k]);
            }
        }
        if port.len() > 0 && !('0' <= port.last() <= '9') {
            assert(port[port.len() - 1] == port.last());
            if port[0] == '+' && port.len() > 1 {
                assert(port.skip(1)[port.len() - 2] == port.last());
            }
        }
    }
}

/// What stands before and behind the last colon, where a number stands behind it.
pub proof fn lemma_host_and_port(host: Seq<char>, n: nat)
    ensures
        host_and_port(host + seq![':'] + decimal::decimal(n)) == (if n <= 65_535 {
            Ok::<(Seq<char>, u16), TunnelRefusal>((host, n as u16))
        } else {
            Err(TunnelRefusal::TargetPort)
        }),
{
    let t = host + seq![':'] + decimal::decimal(n);
    let i = host.len() as int;
    decimal::law_decimal_roundtrip(n);
    assert(t[i] == ':');
    assert(t.contains(t[i]));
    t.index_of_last_ensures(':');
    let j = t.index_of_last(':')->0;
    if j > i {
        assert(t[j] == decimal::decimal(n)[j - i - 1]);
    }
    assert(t.skip(i + 1) =~= decimal::decimal(n));
    assert(t.take(i) =~= host);
    assert('0' <= decimal::decimal(n)[0] <= '9');
}

/// A cookie is three parts with colons between: session and target hold none, and
/// what is behind the second colon is the last part, however it goes on.
pub proof fn law_cookie_is_split_at_colons(
    cookie: &str,
    sid: Seq<char>,
    target: Seq<char>,
    stream: Seq<char>,
    r: Option<(String, String, String)>,
)
    requires
        call_ensures(split_cookie, (cookie,), r),
        cookie@ == sid + seq![':'] + target + seq![':'] + stream,
        !sid.contains(':'),
        !target.contains(':'),
    ensures
        r matches Some((a, b, c)) && a@ == sid && b@ == target && c@ == stream,
{
    let c = cookie@;
    let i = sid.len() as int;
    assert forall|j: int| 0 <= j < i implies c[j] != ':' by {
        assert(sid.contains(sid[j]));
    }
    chars::lemma_first_index(c, ':', i);
    let rest = c.skip(i + 1);
    let k = target.len() as int;
    assert forall|j: int| 0 <= j < k implies rest[j] != ':' by {
        assert(rest[j] == target[j]);
        assert(target.contains(target[j]));
    }
    chars::lemma_first_index(rest, ':', k);
    assert(c.take(i) =~= sid);
    assert(rest.take(k) =~= target);
    assert(rest.skip(k + 1) =~= stream);
}

/// A cookie with fewer than two colons has no three parts.
pub proof fn law_cookie_needs_two_colons(
    cookie: &str,
    sid: Seq<char>,
    rest: Seq<char>,
    r: Option<(String, String, String)>,
)
    requires
        call_ensures(split_cookie, (cookie,), r),
        !sid.contains(':'),
        !rest.contains(':'),
        cookie@ == sid || cookie@ == sid + seq![':'] + rest,
    ensures
        r is None,
{
    let c = cookie@;
    c.index_of_first_ensures(':');
    if c == sid + seq![':'] + rest {
        let i = sid.len() as int;
        assert forall|j: int| 0 <= j < i implies c[j] != ':' by {
            assert(sid.contains(sid[j]));
        }
        chars::lemma_first_index(c, ':', i);
        assert(c.skip(i + 1) =~= rest);
        rest.index_of_first_ensures(':');
    }
}

/// A cookie names the session in front of its first colon, or is the session's name.
pub proof fn law_cookie_names_session(cookie: &str, sid: Seq<char>, rest: Seq<char>, r: String)
    requires
        call_ensures(cookie_session, (cookie,), r),
        !sid.contains(':'),
        cookie@ == sid || cookie@ == sid + seq![':'] + rest,
    ensures
        r@ == sid,
{
    let c = cookie@;
    c.index_of_first_ensures(':');
    if c != sid {
        let i = sid.len() as int;
        assert forall|j: int| 0 <= j < i implies c[j] != ':' by {
            assert(sid.contains(sid[j]));
        }
        chars::lemma_first_index(c, ':', i);
        assert(c.take(i) =~= sid);
    }
}

/// The stream number of a cookie is sixteen bytes; what does not decode, does not
/// open or has another length is refused, each in its own words.
pub proof fn law_stream_number_is_opened(
    master: &[u8; 32],
    part: &str,
    key: [u8; 32],
    r: Result<[u8; 16], TunnelRefusal>,
)
    requires
        call_ensures(open_stream_id, (master, part), r),
        call_ensures(derive_cookie_stream_key, (master,), key),
    ensures
        match base64url::base64_decoded(part@) {
            Err(_) => r is Err && r->Err_0 == TunnelRefusal::CookieEncoding,
            Ok(sealed) => match cipher::opened_payload(key@, sealed) {
                Err(_) => r is Err && r->Err_0 == TunnelRefusal::StreamIdSealed,
                Ok(id) => if id.len() == 16 {
                    r is Ok && r->Ok_0@ == id
                } else {
                    r is Err && r->Err_0 == TunnelRefusal::StreamIdLength
                },
            },
        },
{
}

/// Refusals that concern the target's text are the client's fault for good; after
/// every other one it shakes hands again.
pub proof fn law_refusals_are_answered(e: TunnelRefusal, r: ServerError)
    requires
        call_ensures(TunnelRefusal::to_error, (&e,), r),
    ensures
        e == TunnelRefusal::TargetFormat || e == TunnelRefusal::TargetPort ==> r.0 == 400,
        e != TunnelRefusal::TargetFormat && e != TunnelRefusal::TargetPort ==> r.0 == 428,
{
}

} // verus!
