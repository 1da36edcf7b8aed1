//! What the server does with a request: where it goes, which tunnel it opens, what it is answered.
use crate::buffer;
use crate::chars;
use crate::crypto::cipher;
use crate::crypto::cipher::AesFrameCipher;
use crate::crypto::handshake;
use crate::crypto::handshake::{
    derive_connection_keys, derive_handshake_key, derive_initial_master,
};
use crate::crypto::keys;
use crate::crypto::keys::{KeyError, MLKEM_CT_LEN, X25519_KEY_LEN};
use crate::error::ServerError;
use crate::hello;
use crate::hello::ClientHelloError;
use crate::server::constants::{MASTER_EXPIRY_SECS, MAX_FRAME_BUF_SIZE};
use crate::server::masters;
use crate::server::masters::MasterStore;
use crate::server::nonce_registry;
use crate::server::nonce_registry::NonceRegistry;
use crate::server::utils;
use crate::session;
use crate::session::TunnelRefusal;
use crate::shaper::config;
use crate::shaper::config::PaddingConfig;
use crate::shaper::frame;
use crate::shaper::frame::{EncodingType, Front, MAX_BINARY_FRAME_LEN};
use crate::shaper::{FrameError, TrafficConfig};
use bytes::BytesMut;
use vstd::prelude::*;
use vstd::slice::slice_subrange;
use vstd::string::*;
use vstd::utf8::*;

verus! {

/// Where a request goes.
#[derive(Debug, Clone, Copy, PartialEq, Eq, Structural)]
pub enum Route {
    /// An unencrypted tunnel to the target in the header.
    Plaintext,
    /// A tunnel that already runs.
    Tunnel,
    /// A new tunnel of a known session.
    Spawn,
    /// The session is unknown.
    SessionNotFound,
    /// A new session.
    Handshake,
}

/// Where a request goes: by its target header, its session cookie, and
/// whether the cookie's tunnel runs and its session is known.
pub open spec fn route_of(
    has_target: bool,
    cookie: Option<Seq<char>>,
    tunnel_runs: bool,
    session_known: bool,
) -> Route {
    let encrypted = cookie matches Some(c) && c.contains(':');
    if has_target && !encrypted {
        Route::Plaintext
    } else if cookie is None {
        Route::Handshake
    } else if tunnel_runs {
        Route::Tunnel
    } else if session_known {
        Route::Spawn
    } else {
        Route::SessionNotFound
    }
}

/// Decides where a request goes.
pub fn dispatch_route(
    has_target: bool,
    cookie: Option<&str>,
    tunnel_runs: bool,
    masters: &MasterStore,
) -> (r: Route)
    ensures
        r == route_of(
            has_target,
            (match cookie {
                Some(c) => Some(c@),
                None => None,
            }),
            tunnel_runs,
            (match cookie {
                Some(c) => masters.entries().contains_key(session::session_of(c@)),
                None => false,
            }),
        ),
{
    match cookie {
        None => if has_target {
            Route::Plaintext
        } else {
            Route::Handshake
        },
        Some(c) => {
            let all: Vec<char> = chars::chars_of(c);
            let encrypted: bool = match chars::find_char(&all, ':') {
                Some(i) => {
                    proof {
                        assert(c@.contains(c@[i as int]));
                    }
                    true
                },
                None => false,
            };
            if has_target && !encrypted {
                return Route::Plaintext;
            }
            if tunnel_runs {
                return Route::Tunnel;
            }
            let session_id: String = session::cookie_session(c);
            match masters.get(session_id.as_str()) {
                Some(_) => Route::Spawn,
                None => Route::SessionNotFound,
            }
        },
    }
}

/// What a session cookie grants.
pub struct TunnelGrant {
    pub session_id: String,
    pub user: String,
    pub stream_id: [u8; 16],
    pub target: String,
    pub host: String,
    pub port: u16,
    pub upload_key: [u8; 32],
    pub download_key: [u8; 32],
}

/// Session, user, master key, sealed target and stream number of a cookie
/// under a session whose key has not expired.
pub open spec fn cookie_claims(
    cookie: Seq<char>,
    masters: Map<Seq<char>, (Seq<char>, Seq<u8>, u64)>,
    now: u64,
) -> Result<(Seq<char>, Seq<char>, Seq<u8>, Seq<char>, Seq<u8>), TunnelRefusal> {
    match session::cookie_parts(cookie) {
        None => Err(TunnelRefusal::CookieFormat),
        Some((session_id, target_part, stream_part)) => match masters.get(session_id) {
            None => Err(TunnelRefusal::SessionNotFound),
            Some((user, master, created)) => if masters::age(created, now) > MASTER_EXPIRY_SECS {
                Err(TunnelRefusal::MasterExpired)
            } else {
                match session::opened_stream(master, stream_part) {
                    Err(e) => Err(e),
                    Ok(stream_id) => Ok((session_id, user, master, target_part, stream_id)),
                }
            },
        },
    }
}

/// Target, host and port that a claimed cookie names.
pub open spec fn claimed_target(master: Seq<u8>, stream_id: Seq<u8>, part: Seq<char>) -> Result<
    (Seq<char>, Seq<char>, u16),
    TunnelRefusal,
> {
    match session::opened_target(master, stream_id, part) {
        Err(e) => Err(e),
        Ok(target) => match session::host_and_port(target) {
            Err(e) => Err(e),
            Ok((host, port)) => Ok((target, host, port)),
        },
    }
}

/// What becomes of a session cookie: it is refused, or its stream number is
/// claimed, which lasts even where its target then makes no sense.
pub open spec fn grant_outcome(
    cookie: Seq<char>,
    masters: Map<Seq<char>, (Seq<char>, Seq<u8>, u64)>,
    nonces: Map<(Seq<char>, Seq<u8>), bool>,
    now: u64,
    masters_after: Map<Seq<char>, (Seq<char>, Seq<u8>, u64)>,
    nonces_after: Map<(Seq<char>, Seq<u8>), bool>,
    r: Result<TunnelGrant, TunnelRefusal>,
) -> bool {
    match cookie_claims(cookie, masters, now) {
        Err(e) => {
            &&& r == Err::<TunnelGrant, TunnelRefusal>(e)
            &&& nonces_after == nonces
            &&& masters_after == (if e == TunnelRefusal::MasterExpired {
                masters.remove(session::session_of(cookie))
            } else {
                masters
            })
        },
        Ok((session_id, user, master, target_part, stream_id)) => {
            &&& masters_after == masters
            &&& match nonce_registry::claim_result(nonces, (session_id, stream_id)) {
                Err(_) => r == Err::<TunnelGrant, TunnelRefusal>(TunnelRefusal::StreamConsumed)
                    && nonces_after == nonces,
                Ok(fresh) => if !fresh {
                    r == Err::<TunnelGrant, TunnelRefusal>(TunnelRefusal::StreamClaimed)
                        && nonces_after == nonces
                } else {
                    &&& nonces_after == nonces.insert((session_id, stream_id), false)
                    &&& match claimed_target(master, stream_id, target_part) {
                        Err(e) => r == Err::<TunnelGrant, TunnelRefusal>(e),
                        Ok((target, host, port)) => {
                            &&& r matches Ok(g)
                            &&& g.session_id@ == session_id
                            &&& g.user@ == user
                            &&& g.stream_id@ == stream_id
                            &&& g.target@ == target
                            &&& g.host@ == host
                            &&& g.port == port
                            &&& g.upload_key@ == handshake::connection_secret(
                                master,
                                stream_id,
                            ).subrange(0, 32)
                            &&& g.download_key@ == handshake::connection_secret(
                                master,
                                stream_id,
                            ).subrange(32, 64)
                        },
                    }
                },
            }
        },
    }
}

/// Checks a session cookie and claims its stream number.
pub fn authorize_tunnel(
    cookie: &str,
    masters: &mut MasterStore,
    nonces: &mut NonceRegistry,
    now: u64,
) -> (r: Result<TunnelGrant, TunnelRefusal>)
    ensures
        grant_outcome(
            cookie@,
            old(masters).entries(),
            old(nonces).entries(),
            now,
            final(masters).entries(),
            final(nonces).entries(),
            r,
        ),
{
    let (session_id, target_part, stream_part): (String, String, String) = match session::split_cookie(
        cookie,
    ) {
        Some(parts) => parts,
        None => {
            return Err(TunnelRefusal::CookieFormat);
        },
    };
    let (user, master, created): (String, [u8; 32], u64) = match masters.get(session_id.as_str()) {
        Some(entry) => entry,
        None => {
            return Err(TunnelRefusal::SessionNotFound);
        },
    };
    if now.saturating_sub(created) > MASTER_EXPIRY_SECS {
        masters.remove(session_id.as_str());
        return Err(TunnelRefusal::MasterExpired);
    }
    let stream_id: [u8; 16] = match session::open_stream_id(&master, stream_part.as_str()) {
        Ok(id) => id,
        Err(e) => {
            return Err(e);
        },
    };
    match nonces.try_claim(session_id.as_str(), &stream_id) {
        Ok(true) => {},
        Ok(false) => {
            return Err(TunnelRefusal::StreamClaimed);
        },
        Err(_) => {
            return Err(TunnelRefusal::StreamConsumed);
        },
    }
    let (upload_key, download_key, target_key): ([u8; 32], [u8; 32], [u8; 32]) =
        derive_connection_keys(&master, &stream_id);
    let target: String = match session::open_target(&target_key, target_part.as_str()) {
        Ok(t) => t,
        Err(e) => {
            return Err(e);
        },
    };
    let (host, port): (String, u16) = match session::parse_target(target.as_str()) {
        Ok(hp) => hp,
        Err(e) => {
            return Err(e);
        },
    };
    Ok(
        TunnelGrant {
            session_id,
            user,
            stream_id,
            target,
            host,
            port,
            upload_key,
            download_key,
        },
    )
}

/// A session cookie opens at most one tunnel: presented again it is refused,
/// whatever became of the first tunnel.
pub proof fn law_cookie_opens_once(
    cookie: Seq<char>,
    masters: Map<Seq<char>, (Seq<char>, Seq<u8>, u64)>,
    nonces: Map<(Seq<char>, Seq<u8>), bool>,
    now: u64,
    nonces_after: Map<(Seq<char>, Seq<u8>), bool>,
    first: TunnelGrant,
    later: u64,
    nonces_end: Map<(Seq<char>, Seq<u8>), bool>,
    second: Result<TunnelGrant, TunnelRefusal>,
    masters_end: Map<Seq<char>, (Seq<char>, Seq<u8>, u64)>,
    spent: bool,
)
    requires
        grant_outcome(cookie, masters, nonces, now, masters, nonces_after, Ok(first)),
        grant_outcome(
            cookie,
            masters,
            nonces_after.insert((first.session_id@, first.stream_id@), spent),
            later,
            masters_end,
            nonces_end,
            second,
        ),
    ensures
        second is Err,
{
    let key = (first.session_id@, first.stream_id@);
    nonce_registry::law_no_replay(nonces_after, key);
}

/// Every refused session cookie is answered 428, so that the client shakes
/// hands again, unless the target itself is malformed.
pub proof fn law_refusal_asks_for_handshake(e: TunnelRefusal)
    ensures
        e.status() == 428 || e == TunnelRefusal::TargetFormat || e == TunnelRefusal::TargetPort,
{
}

/// Why a handshake was refused.
#[derive(Debug, Clone, Copy, PartialEq, Eq, Structural)]
pub enum HandshakeRefusal {
    MissingCookie,
    CookieEncoding,
    CookieLength,
    NoPrivateKey,
    Frame(FrameError),
    NoFrame,
    Hello(ClientHelloError),
    Encode(FrameError),
}

impl HandshakeRefusal {
    /// The status of the answer.
    pub open spec fn status(self) -> u16 {
        match self {
            HandshakeRefusal::NoPrivateKey => 500,
            HandshakeRefusal::Frame(_) => 500,
            HandshakeRefusal::Encode(_) => 500,
            _ => 400,
        }
    }

    /// The reason in words.
    pub open spec fn text(self) -> Seq<char> {
        match self {
            HandshakeRefusal::MissingCookie => "missing eph_pk_a cookie"@,
            HandshakeRefusal::CookieEncoding => "invalid eph_pk_a base64"@,
            HandshakeRefusal::CookieLength => "eph_pk_a must be 32 bytes"@,
            HandshakeRefusal::NoPrivateKey => "server private key not configured"@,
            HandshakeRefusal::Frame(e) => e.text(),
            HandshakeRefusal::NoFrame => "invalid ClientHello frame"@,
            HandshakeRefusal::Hello(e) => e.text(),
            HandshakeRefusal::Encode(e) => "encode ServerHello: "@ + e.text(),
        }
    }

    /// The answer to the client.
    pub fn to_error(&self) -> (r: ServerError)
        ensures
            r.says(self.status(), self.text()),
    {
        match self {
            HandshakeRefusal::MissingCookie => ServerError::bad_request("missing eph_pk_a cookie"),
            HandshakeRefusal::CookieEncoding => ServerError::bad_request("invalid eph_pk_a base64"),
            HandshakeRefusal::CookieLength => ServerError::bad_request("eph_pk_a must be 32 bytes"),
            HandshakeRefusal::NoPrivateKey => ServerError::internal(
                "server private key not configured",
            ),
            HandshakeRefusal::Frame(e) => ServerError::internal(e.message().as_str()),
            HandshakeRefusal::NoFrame => ServerError::bad_request("invalid ClientHello frame"),
            HandshakeRefusal::Hello(e) => ServerError::bad_request(e.message().as_str()),
            HandshakeRefusal::Encode(e) => {
                let mut text = String::from_str("encode ServerHello: ");
                text.append(e.message().as_str());
                ServerError::internal(text.as_str())
            },
        }
    }
}

/// The key that seals a handshake, from the client's cookie and the server's secret.
pub open spec fn key_for_handshake(private_key: Option<Seq<u8>>, cookie: Option<Seq<char>>) -> Result<
    Seq<u8>,
    HandshakeRefusal,
> {
    match cookie {
        None => Err(HandshakeRefusal::MissingCookie),
        Some(c) => match keys::decoded_32(c) {
            Err(KeyError::Length) => Err(HandshakeRefusal::CookieLength),
            Err(_) => Err(HandshakeRefusal::CookieEncoding),
            Ok(public) => match private_key {
                None => Err(HandshakeRefusal::NoPrivateKey),
                Some(secret) => Ok(handshake::handshake_key(keys::x25519_shared(secret, public))),
            },
        },
    }
}

/// Derives the key that seals a handshake.
pub fn begin_handshake(private_key: Option<&[u8; 32]>, cookie: Option<&str>) -> (r: Result<
    [u8; 32],
    HandshakeRefusal,
>)
    ensures
        match key_for_handshake(
            (match private_key {
                Some(k) => Some(k@),
                None => None,
            }),
            (match cookie {
                Some(c) => Some(c@),
                None => None,
            }),
        ) {
            Ok(key) => r matches Ok(k) && k@ == key,
            Err(e) => r == Err::<[u8; 32], HandshakeRefusal>(e),
        },
{
    let public: [u8; 32] = match cookie {
        None => {
            return Err(HandshakeRefusal::MissingCookie);
        },
        Some(c) => match keys::decode_fixed_32(c) {
            Ok(k) => k,
            Err(e) => match e {
                KeyError::Length => {
                    return Err(HandshakeRefusal::CookieLength);
                },
                _ => {
                    return Err(HandshakeRefusal::CookieEncoding);
                },
            },
        },
    };
    match private_key {
        None => Err(HandshakeRefusal::NoPrivateKey),
        Some(secret) => {
            let shared: [u8; 32] = keys::diffie_hellman(secret, &public);
            Ok(derive_handshake_key(&shared))
        },
    }
}

/// The client's keys in the body of a handshake request.
pub open spec fn hello_in(key: Seq<u8>, body: Seq<u8>, encoding: EncodingType) -> Result<
    (Seq<u8>, Seq<u8>),
    HandshakeRefusal,
> {
    match frame::front(body, encoding) {
        Front::Partial => Err(HandshakeRefusal::NoFrame),
        Front::Reject(e) => Err(HandshakeRefusal::Frame(e)),
        Front::Whole { used: _, body: b } => match b {
            Err(e) => Err(HandshakeRefusal::Frame(e)),
            Ok(sealed) => match cipher::opened_payload(key, sealed) {
                Err(e) => Err(HandshakeRefusal::Frame(e)),
                Ok(plain) => match frame::extracted(plain) {
                    Err(e) => Err(HandshakeRefusal::Frame(e)),
                    Ok((_, data)) => match hello::client_hello_keys(data) {
                        Err(e) => Err(HandshakeRefusal::Hello(e)),
                        Ok(found) => Ok(found),
                    },
                },
            },
        },
    }
}

/// Reads the client's keys out of the body of a handshake request.
pub fn read_client_hello(key: &[u8; 32], body: &[u8], encoding: EncodingType) -> (r: Result<
    (Vec<u8>, [u8; 32]),
    HandshakeRefusal,
>)
    requires
        body@.len() <= MAX_FRAME_BUF_SIZE,
    ensures
        match hello_in(key@, body@, encoding) {
            Ok((kem, x)) => r matches Ok((k, p)) && k@ == kem && p@ == x,
            Err(e) => r == Err::<(Vec<u8>, [u8; 32]), HandshakeRefusal>(e),
        },
{
    let seal: AesFrameCipher = AesFrameCipher::new(key);
    let mut buf: BytesMut = buffer::buf_new();
    buffer::buf_put(&mut buf, body);
    proof {
        assert(buffer::buffered(buf) =~= body@);
    }
    match frame::decode_from_buffer_with(&mut buf, Some(&seal), encoding) {
        Err(e) => Err(HandshakeRefusal::Frame(e)),
        Ok(None) => Err(HandshakeRefusal::NoFrame),
        Ok(Some((_seq, data))) => {
            match hello::parse_client_hello(buffer::bytes_as_slice(&data)) {
                Ok(found) => Ok(found),
                Err(e) => Err(HandshakeRefusal::Hello(e)),
            }
        },
    }
}

/// A new session: its name, its master key, and the frame that tells the client.
pub struct HandshakeReply {
    pub session_id: String,
    pub master: [u8; 32],
    pub frame: Vec<u8>,
}

/// A lower-case hexadecimal digit or a hyphen.
pub open spec fn is_uuid_char(c: char) -> bool {
    ('0' <= c <= '9') || ('a' <= c <= 'f') || c == '-'
}

/// `Uuid::new_v4().to_string()`: thirty-six characters of a UUID, whatever they are.
#[verifier::external_body]
pub(crate) fn new_uuid_text() -> (r: String)
    ensures
        r@.len() == 36,
        forall|i: int| 0 <= i < r@.len() ==> is_uuid_char(#[trigger] r@[i]),
{
    uuid::Uuid::new_v4().to_string()
}

/// The secrets behind a reply.
pub struct ReplySecrets {
    pub ct: Seq<u8>,
    pub mlkem_ss: Seq<u8>,
    pub server_sk: Seq<u8>,
    pub seal: AesFrameCipher,
    pub pad: nat,
}

/// `reply` was made of these secrets: its master key is derived from both
/// shared secrets, and its frame carries the server's message under the
/// handshake key.
pub open spec fn made_of(
    secrets: ReplySecrets,
    key: Seq<u8>,
    client_x: Seq<u8>,
    encoding: EncodingType,
    session_id: Seq<char>,
    master: Seq<u8>,
    frame: Seq<u8>,
) -> bool {
    &&& secrets.ct.len() == MLKEM_CT_LEN
    &&& keys::x25519_public(secrets.server_sk).len() == X25519_KEY_LEN
    &&& secrets.server_sk.len() == X25519_KEY_LEN
    &&& encode_utf8(session_id).len() <= 0xffff
    &&& hello::server_hello(
        encode_utf8(session_id),
        secrets.ct,
        keys::x25519_public(secrets.server_sk),
    ).len() + secrets.pad <= frame::raw_limit(true, encoding)
    &&& master == handshake::initial_master(
        secrets.mlkem_ss,
        keys::x25519_shared(secrets.server_sk, client_x),
    )
    &&& secrets.seal.key() == key
    &&& frame::is_frame(
        frame,
        encoding,
        Some(&secrets.seal),
        0,
        hello::server_hello(
            encode_utf8(session_id),
            secrets.ct,
            keys::x25519_public(secrets.server_sk),
        ),
        secrets.pad,
    )
}

/// A frame that carries `message` to the holder of `key`, padded as `padding` asks
/// for it.
pub open spec fn is_sealed_message(
    frame: Seq<u8>,
    key: Seq<u8>,
    message: Seq<u8>,
    encoding: EncodingType,
    padding: PaddingConfig,
) -> bool {
    exists|seal: AesFrameCipher, pad: nat|
        {
            &&& seal.key() == key
            &&& #[trigger] frame::is_frame(frame, encoding, Some(&seal), 0, message, pad)
            &&& frame::is_drawn_padding(
                pad,
                message.len(),
                frame::raw_limit(true, encoding) as nat,
                padding,
            )
        }
}

/// A reply whose secret was encapsulated for the client's key `kem`.
pub open spec fn is_reply(
    key: Seq<u8>,
    kem: Seq<u8>,
    client_x: Seq<u8>,
    encoding: EncodingType,
    padding: PaddingConfig,
    session_id: Seq<char>,
    master: Seq<u8>,
    frame: Seq<u8>,
) -> bool {
    exists|secrets: ReplySecrets, random: Seq<u8>|
        {
            &&& #[trigger] made_of(secrets, key, client_x, encoding, session_id, master, frame)
            &&& #[trigger] encapsulates(kem, random, secrets)
            &&& frame::is_drawn_padding(
                secrets.pad,
                hello::server_hello(
                    encode_utf8(session_id),
                    secrets.ct,
                    keys::x25519_public(secrets.server_sk),
                ).len(),
                frame::raw_limit(true, encoding) as nat,
                padding,
            )
        }
}

/// Ciphertext and secret were encapsulated for the key `kem`.
pub open spec fn encapsulates(kem: Seq<u8>, random: Seq<u8>, secrets: ReplySecrets) -> bool {
    keys::mlkem_encapsulated(kem, random) == (secrets.ct, secrets.mlkem_ss)
}

/// Writes the server's message into a frame under the handshake key.
pub fn compose_reply(
    key: &[u8; 32],
    session_id: &str,
    ct: &[u8],
    server_pk: &[u8; 32],
    traffic: &TrafficConfig,
) -> (r: Result<Vec<u8>, FrameError>)
    requires
        session_id.spec_bytes().len() <= 4096,
        ct@.len() == MLKEM_CT_LEN,
        config::is_ordered(traffic.global.padding_range),
    ensures
        r is Ok,
        r matches Ok(f) ==> is_sealed_message(
            f@,
            key@,
            hello::server_hello(session_id.spec_bytes(), ct@, server_pk@),
            traffic.encoding_type,
            traffic.global,
        ),
{
    let message: Vec<u8> = hello::build_server_hello(session_id, ct, server_pk);
    let seal: AesFrameCipher = AesFrameCipher::new(key);
    proof {
        assert forall|n: nat| n <= MAX_BINARY_FRAME_LEN implies #[trigger] frame::can_seal(
            Some(&seal),
            n,
        ) by {}
    }
    frame::encode_frame_with(
        &message,
        0,
        Some(&seal),
        traffic.global.padding_threshold,
        traffic.global.padding_range,
        traffic.encoding_type,
    )
}

/// Answers a handshake: reads the client's keys, encapsulates a secret for
/// them, and derives the master key of a new session.
pub fn finish_handshake(key: &[u8; 32], body: &[u8], traffic: &TrafficConfig) -> (r: Result<
    HandshakeReply,
    HandshakeRefusal,
>)
    requires
        body@.len() <= MAX_FRAME_BUF_SIZE,
        config::is_ordered(traffic.global.padding_range),
    ensures
        match hello_in(key@, body@, traffic.encoding_type) {
            Err(e) => r == Err::<HandshakeReply, HandshakeRefusal>(e),
            Ok((kem, client_x)) => r matches Ok(reply) && reply.session_id@.len() == 36
                && !reply.session_id@.contains(':') && is_reply(
                key@,
                kem,
                client_x,
                traffic.encoding_type,
                traffic.global,
                reply.session_id@,
                reply.master@,
                reply.frame@,
            ),
        },
{
    let (kem, client_x): (Vec<u8>, [u8; 32]) = match read_client_hello(
        key,
        body,
        traffic.encoding_type,
    ) {
        Ok(found) => found,
        Err(e) => {
            return Err(e);
        },
    };
    proof {
        lemma_hello_key_valid(key@, body@, traffic.encoding_type);
    }
    let (ct, mlkem_ss): (Vec<u8>, Vec<u8>) = match keys::mlkem_encapsulate(&kem) {
        Ok(pair) => pair,
        Err(e) => {
            return Err(HandshakeRefusal::Hello(ClientHelloError::InvalidKem(e)));
        },
    };
    let (server_sk, server_pk): ([u8; 32], [u8; 32]) = keys::generate_keypair();
    let shared: [u8; 32] = keys::diffie_hellman(&server_sk, &client_x);
    let master: [u8; 32] = derive_initial_master(&mlkem_ss, &shared);
    let session_id: String = new_uuid_text();
    proof {
        lemma_uuid_text(session_id@);
    }
    match compose_reply(key, session_id.as_str(), &ct, &server_pk, traffic) {
        Ok(frame) => {
            proof {
                let (seal, pad) = choose|seal: AesFrameCipher, pad: nat|
                    seal.key() == key@ && #[trigger] frame::is_frame(
                        frame@,
                        traffic.encoding_type,
                        Some(&seal),
                        0,
                        hello::server_hello(encode_utf8(session_id@), ct@, server_pk@),
                        pad,
                    ) && frame::is_drawn_padding(
                        pad,
                        hello::server_hello(encode_utf8(session_id@), ct@, server_pk@).len(),
                        frame::raw_limit(true, traffic.encoding_type) as nat,
                        traffic.global,
                    );
                let random = choose|random: Seq<u8>|
                    (ct@, mlkem_ss@) == #[trigger] keys::mlkem_encapsulated(kem@, random);
                let secrets = ReplySecrets {
                    ct: ct@,
                    mlkem_ss: mlkem_ss@,
                    server_sk: server_sk@,
                    seal,
                    pad,
                };
                assert(made_of(
                    secrets,
                    key@,
                    client_x@,
                    traffic.encoding_type,
                    session_id@,
                    master@,
                    frame@,
                ));
                assert(encapsulates(kem@, random, secrets));
            }
            Ok(HandshakeReply { session_id, master, frame })
        },
        Err(e) => Err(HandshakeRefusal::Encode(e)),
    }
}

/// The value of the cookie with the client's first key.
pub open spec fn first_key_cookie(cookie_header: Option<Seq<u8>>) -> Option<Seq<char>> {
    match cookie_header {
        Some(bytes) => if valid_utf8(bytes) {
            utils::cookie_value(decode_utf8(bytes), "eph_pk_a"@)
        } else {
            None
        },
        None => None,
    }
}

/// Serves a request for a new session: agrees on its master key and keeps it
/// under the session's name for the user.
pub fn handle_fresh_handshake(
    private_key: Option<&[u8; 32]>,
    cookie_header: Option<&[u8]>,
    body: &[u8],
    traffic: &TrafficConfig,
    user: &str,
    masters: &mut MasterStore,
    now: u64,
) -> (r: Result<HandshakeReply, HandshakeRefusal>)
    requires
        body@.len() <= MAX_FRAME_BUF_SIZE,
        config::is_ordered(traffic.global.padding_range),
    ensures
        ({
            let key = key_for_handshake(
                (match private_key {
                    Some(k) => Some(k@),
                    None => None,
                }),
                first_key_cookie(
                    (match cookie_header {
                        Some(bytes) => Some(bytes@),
                        None => None,
                    }),
                ),
            );
            match key {
                Err(e) => r == Err::<HandshakeReply, HandshakeRefusal>(e)
                    && final(masters).entries() == old(masters).entries(),
                Ok(k) => match hello_in(k, body@, traffic.encoding_type) {
                    Err(e) => r == Err::<HandshakeReply, HandshakeRefusal>(e)
                        && final(masters).entries() == old(masters).entries(),
                    Ok((kem, client_x)) => {
                        &&& r matches Ok(reply)
                        &&& is_reply(
                            k,
                            kem,
                            client_x,
                            traffic.encoding_type,
                            traffic.global,
                            reply.session_id@,
                            reply.master@,
                            reply.frame@,
                        )
                        &&& !reply.session_id@.contains(':')
                        &&& final(masters).entries() == old(masters).entries().insert(
                            reply.session_id@,
                            (user@, reply.master@, now),
                        )
                    },
                },
            }
        }),
{
    let cookie: Option<String> = utils::extract_cookie_value(cookie_header, "eph_pk_a");
    let value: Option<&str> = match &cookie {
        Some(c) => Some(c.as_str()),
        None => None,
    };
    let key: [u8; 32] = match begin_handshake(private_key, value) {
        Ok(k) => k,
        Err(e) => {
            return Err(e);
        },
    };
    match finish_handshake(&key, body, traffic) {
        Ok(reply) => {
            masters.insert(
                String::from_str(reply.session_id.as_str()),
                String::from_str(user),
                reply.master,
                now,
            );
            Ok(reply)
        },
        Err(e) => Err(e),
    }
}

/// The key in an accepted message is an encapsulation key.
proof fn lemma_hello_key_valid(key: Seq<u8>, body: Seq<u8>, encoding: EncodingType)
    ensures
        hello_in(key, body, encoding) matches Ok((kem, _)) ==> keys::key_check(kem) is Ok,
{
}

/// The text of a UUID is ASCII without colons.
proof fn lemma_uuid_text(s: Seq<char>)
    requires
        s.len() == 36,
        forall|i: int| 0 <= i < s.len() ==> is_uuid_char(#[trigger] s[i]),
    ensures
        encode_utf8(s).len() == 36,
        !s.contains(':'),
{
    assert(is_ascii_chars(s)) by {
        assert forall|i: int| 0 <= i < s.len() implies (#[trigger] s[i]) as u32 <= 127 by {
            assert(is_uuid_char(s[i]));
        }
    }
    is_ascii_chars_encode_utf8(s);
    if s.contains(':') {
        let i = choose|i: int| 0 <= i < s.len() && s[i] == ':';
        assert(is_uuid_char(s[i]));
    }
}

/// Who a token speaks for, and until when.
#[derive(Debug)]
pub struct Claims {
    pub sub: String,
    pub exp: u64,
}

/// Subject and expiry in a token signed with a secret, where they are a string
/// and a whole number. None where the token is not signed with it.
pub uninterp spec fn signed_claims(token: Seq<char>, secret: Seq<u8>) -> Option<
    (Option<Seq<char>>, Option<u64>),
>;

/// Subject and expiry as plain values.
pub open spec fn plain_claims(claims: (Option<String>, Option<u64>)) -> (
    Option<Seq<char>>,
    Option<u64>,
) {
    (match claims.0 {
        Some(sub) => Some(sub@),
        None => None,
    }, claims.1)
}

/// `jsonwebtoken::decode` with HS256 and expiry checked: what it reads is what
/// the token holds. Whether a token is still in its time depends on the clock,
/// so nothing is said of when it reads one.
#[verifier::external_body]
fn decode_token(token: &str, secret: &[u8]) -> (r: Option<(Option<String>, Option<u64>)>)
    ensures
        r matches Some(claims) ==> signed_claims(token@, secret@) == Some(plain_claims(claims)),
{
    let key = jsonwebtoken::DecodingKey::from_secret(secret);
    let mut rules = jsonwebtoken::Validation::new(jsonwebtoken::Algorithm::HS256);
    rules.validate_exp = true;
    let data = jsonwebtoken::decode::<serde_json::Value>(token, &key, &rules).ok()?;
    let sub = data.claims.get("sub").and_then(|v| v.as_str()).map(|s| s.to_owned());
    let exp = data.claims.get("exp").and_then(|v| v.as_u64());
    Some((sub, exp))
}

/// `jsonwebtoken::encode` with HS256: a token that holds the subject and the expiry,
/// signed with the secret. Whether it signs depends on the signing code that the
/// process has set up, so nothing is said of when it gives one.
#[verifier::external_body]
fn encode_token(user: &str, exp: u64, secret: &[u8]) -> (r: Option<String>)
    requires
        16 * user.spec_bytes().len() + 1024 <= isize::MAX,
    ensures
        r matches Some(token) ==> signed_claims(token@, secret@) == Some((Some(user@), Some(exp))),
{
    let mut claims = serde_json::Map::new();
    claims.insert("sub".to_owned(), user.into());
    claims.insert("exp".to_owned(), exp.into());
    let key = jsonwebtoken::EncodingKey::from_secret(secret);
    jsonwebtoken::encode(&jsonwebtoken::Header::default(), &claims, &key).ok()
}

/// Issues a token for a user, good until `exp`.
pub fn gen_token(secret: &str, user: &str, exp: u64) -> (r: Option<String>)
    requires
        16 * user.spec_bytes().len() + 1024 <= isize::MAX,
    ensures
        r matches Some(token) ==> signed_claims(token@, secret.spec_bytes()) == Some(
            (Some(user@), Some(exp)),
        ),
{
    encode_token(user, exp, secret.as_bytes())
}

/// A token that was issued for a user is read, wherever it is read under the same
/// secret, as one for this user, with the expiry that it was issued with.
pub proof fn law_issued_token_names_user(
    token: Seq<char>,
    secret: Seq<u8>,
    user: Seq<char>,
    exp: u64,
    read: (Option<String>, Option<u64>),
)
    requires
        signed_claims(token, secret) == Some((Some(user), Some(exp))),
        signed_claims(token, secret) == Some(plain_claims(read)),
    ensures
        read matches (Some(sub), Some(until)) && sub@ == user && until == exp,
{
}

/// The claims of a decoded token, where both are there.
pub fn token_claims(decoded: Option<(Option<String>, Option<u64>)>) -> (r: Result<
    Claims,
    ServerError,
>)
    ensures
        match decoded {
            Some((Some(sub), Some(exp))) => r == Ok::<Claims, ServerError>(Claims { sub, exp }),
            _ => r matches Err(e) && e.says(401, "invalid token"@),
        },
{
    match decoded {
        Some((Some(sub), Some(exp))) => Ok(Claims { sub, exp }),
        _ => Err(ServerError::unauthorized("invalid token")),
    }
}

/// The token behind the scheme of an Authorization header.
pub open spec fn bearer_token(header: Option<Seq<char>>) -> Option<Seq<char>> {
    match header {
        Some(h) => if "Bearer "@.is_prefix_of(h) {
            Some(h.skip(7))
        } else {
            None
        },
        None => None,
    }
}

/// Takes the token out of an Authorization header.
pub fn extract_bearer(header: Option<&str>) -> (r: Option<String>)
    ensures
        match bearer_token(
            (match header {
                Some(h) => Some(h@),
                None => None,
            }),
        ) {
            Some(t) => r matches Some(s) && s@ == t,
            None => r is None,
        },
{
    match header {
        None => None,
        Some(h) => {
            let all: Vec<char> = chars::chars_of(h);
            let scheme: Vec<char> = chars::chars_of("Bearer ");
            proof {
                reveal_strlit("Bearer ");
            }
            if all.len() < scheme.len() {
                return None;
            }
            let front = slice_subrange(&all, 0, scheme.len());
            if !chars::same_chars(front, &scheme) {
                proof {
                    assert(!"Bearer "@.is_prefix_of(h@)) by {
                        if "Bearer "@.is_prefix_of(h@) {
                            assert(front@ =~= scheme@);
                        }
                    }
                }
                return None;
            }
            let token = slice_subrange(&all, scheme.len(), all.len());
            proof {
                assert("Bearer "@ =~= h@.take(7));
                assert(token@ =~= h@.skip(7));
            }
            Some(chars::string_from(token))
        },
    }
}

/// Checks who sends a request: the subject of a valid token. Whether a
/// well-formed header's token is valid depends on the clock.
pub fn validate_jwt_if_needed(auth_header: Option<&str>, secret: &[u8]) -> (r: Result<
    String,
    ServerError,
>)
    ensures
        bearer_token(
            (match auth_header {
                Some(h) => Some(h@),
                None => None,
            }),
        ) is None ==> (r matches Err(e) && e.says(401, "invalid header"@)),
        bearer_token(
            (match auth_header {
                Some(h) => Some(h@),
                None => None,
            }),
        ) is Some ==> (r matches Err(e) ==> e.says(401, "invalid token"@)),
        r matches Ok(user) ==> match bearer_token(
            (match auth_header {
                Some(h) => Some(h@),
                None => None,
            }),
        ) {
            Some(token) => signed_claims(token, secret@) matches Some((Some(sub), Some(_)))
                && user@ == sub,
            None => false,
        },
{
    let token: String = match extract_bearer(auth_header) {
        Some(t) => t,
        None => {
            return Err(ServerError::unauthorized("invalid header"));
        },
    };
    match token_claims(decode_token(token.as_str(), secret)) {
        Ok(claims) => Ok(claims.sub),
        Err(e) => Err(e),
    }
}

/// Host and port of the target of an unencrypted tunnel.
pub fn plaintext_target(target: Option<&str>) -> (r: Result<(String, u16), ServerError>)
    ensures
        match target {
            None => r matches Err(e) && e.says(400, "missing X-Target header"@),
            Some(t) => match session::host_and_port(t@) {
                Ok((host, port)) => r matches Ok((h, p)) && h@ == host && p == port,
                Err(refusal) => r matches Err(e) && e.says(refusal.status(), refusal.text()),
            },
        },
{
    match target {
        None => Err(ServerError::bad_request("missing X-Target header")),
        Some(t) => match session::parse_target(t) {
            Ok(hp) => Ok(hp),
            Err(e) => Err(e.to_error()),
        },
    }
}

/// The frames of one request to a running tunnel.
pub struct UploadBatch {
    max_seq: u64,
    frame_count: u64,
}

/// What a request to a running tunnel asks for.
#[derive(Debug, Clone, Copy, PartialEq, Eq, Structural)]
pub enum BatchEnd {
    /// It carried no frame: it continues the download.
    Continue,
    /// Its frames reach up to this number.
    Eos { max_seq: u64 },
}

/// The highest of some numbers.
pub open spec fn highest(seqs: Seq<u64>) -> u64
    decreases seqs.len(),
{
    if seqs.len() == 0 {
        0
    } else if seqs.last() > highest(seqs.drop_last()) {
        seqs.last()
    } else {
        highest(seqs.drop_last())
    }
}

impl UploadBatch {
    /// The numbers of the frames were these.
    pub closed spec fn saw(self, seqs: Seq<u64>) -> bool {
        self.max_seq == highest(seqs) && self.frame_count == seqs.len()
    }

    /// No frames yet.
    pub fn new() -> (r: Self)
        ensures
            r.saw(Seq::empty()),
    {
        UploadBatch { max_seq: 0, frame_count: 0 }
    }

    /// Notes a frame.
    pub fn on_frame(&mut self, seq: u64)
        ensures
            old(self).saw(Seq::empty()) ==> final(self).saw(seq![seq]),
            forall|seqs: Seq<u64>|
                seqs.len() < u64::MAX && #[trigger] old(self).saw(seqs) ==> final(self).saw(
                    seqs.push(seq),
                ),
    {
        if seq > self.max_seq {
            self.max_seq = seq;
        }
        if self.frame_count < u64::MAX {
            self.frame_count = self.frame_count + 1;
        }
        proof {
            assert forall|seqs: Seq<u64>|
                seqs.len() < u64::MAX && #[trigger] old(self).saw(seqs) implies self.saw(
                seqs.push(seq),
            ) by {
                assert(seqs.push(seq).drop_last() =~= seqs);
            }
        }
    }

    /// What the request asks for.
    pub fn end(&self) -> (r: BatchEnd)
        ensures
            self.saw(Seq::empty()) ==> r == BatchEnd::Continue,
            forall|seqs: Seq<u64>| #[trigger]
                self.saw(seqs) ==> r == (if seqs.len() == 0 {
                    BatchEnd::Continue
                } else {
                    BatchEnd::Eos { max_seq: highest(seqs) }
                }),
    {
        if self.frame_count == 0 {
            BatchEnd::Continue
        } else {
            BatchEnd::Eos { max_seq: self.max_seq }
        }
    }
}

/// Why a request to a running tunnel was broken off.
pub enum DispatchFailure<'a> {
    /// A frame could not be read.
    Decode(&'a str),
    /// The tunnel has closed.
    Closed,
}

/// The answer to a request to a running tunnel that was broken off.
pub fn dispatch_answer(failure: DispatchFailure) -> (r: ServerError)
    ensures
        match failure {
            DispatchFailure::Decode(e) => r.says(400, "frame decode error: "@ + e@),
            DispatchFailure::Closed => r.says(502, "actor closed"@),
        },
{
    match failure {
        DispatchFailure::Decode(e) => {
            let mut text = String::from_str("frame decode error: ");
            text.append(e);
            ServerError::bad_request(text.as_str())
        },
        DispatchFailure::Closed => ServerError::bad_gateway("actor closed"),
    }
}

/// The name of an unencrypted tunnel: that of its cookie, or a new one.
pub fn plaintext_session(cookie: Option<String>) -> (r: String)
    ensures
        match cookie {
            Some(c) => r == c,
            None => r@.len() == 36 && forall|i: int|
                0 <= i < r@.len() ==> is_uuid_char(#[trigger] r@[i]),
        },
{
    match cookie {
        Some(c) => c,
        None => new_uuid_text(),
    }
}

/// How the wait for an upload ended.
pub enum AckOutcome {
    /// Every frame was written.
    Done,
    /// The tunnel failed with an answer of its own.
    Failed(ServerError),
    /// The tunnel closed first.
    Closed,
    /// It took too long.
    TimedOut,
}

/// The answer to a request whose upload was waited for.
pub fn ack_answer(outcome: AckOutcome) -> (r: Result<(), ServerError>)
    ensures
        match outcome {
            AckOutcome::Done => r is Ok,
            AckOutcome::Failed(e) => r == Err::<(), ServerError>(e),
            AckOutcome::Closed => r matches Err(e) && e.says(
                502,
                "actor closed before upload ack"@,
            ),
            AckOutcome::TimedOut => r matches Err(e) && e.says(504, "upload drain timeout"@),
        },
{
    match outcome {
        AckOutcome::Done => Ok(()),
        AckOutcome::Failed(e) => Err(e),
        AckOutcome::Closed => Err(ServerError::bad_gateway("actor closed before upload ack")),
        AckOutcome::TimedOut => Err(ServerError::gateway_timeout("upload drain timeout")),
    }
}

/// Why a tunnel could not be set up.
pub enum SetupFailure<'a> {
    /// The target did not answer in time.
    ConnectTimeout,
    /// The target could not be reached.
    Connect(&'a str),
    /// A frame of the first request could not be read.
    Decode(&'a str),
    /// The upload stopped during the first request.
    UploadClosed,
}

/// The answer to a request whose tunnel could not be set up.
pub fn setup_answer(failure: SetupFailure) -> (r: ServerError)
    ensures
        match failure {
            SetupFailure::ConnectTimeout => r.says(504, "connect timeout"@),
            SetupFailure::Connect(e) => r.says(502, e@),
            SetupFailure::Decode(e) => r.says(400, "decode error: "@ + e@),
            SetupFailure::UploadClosed => r.says(502, "upload actor closed during initial stream"@),
        },
{
    match failure {
        SetupFailure::ConnectTimeout => ServerError::gateway_timeout("connect timeout"),
        SetupFailure::Connect(e) => ServerError::bad_gateway(e),
        SetupFailure::Decode(e) => {
            let mut text = String::from_str("decode error: ");
            text.append(e);
            ServerError::bad_request(text.as_str())
        },
        SetupFailure::UploadClosed => ServerError::bad_gateway(
            "upload actor closed during initial stream",
        ),
    }
}

/// Whether one more tunnel may be opened.
pub fn admit_tunnel(running: usize, max_tunnels: usize) -> (r: Result<(), ServerError>)
    ensures
        if running >= max_tunnels {
            r matches Err(e) && e.says(503, "too many tunnels"@)
        } else {
            r is Ok
        },
{
    if running >= max_tunnels {
        Err(ServerError::service_unavailable("too many tunnels"))
    } else {
        Ok(())
    }
}

} // verus!
