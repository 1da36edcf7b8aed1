//! The client's part of the key agreement, and the request that opens a tunnel.
use crate::base64url;
use crate::buffer;
use crate::client::utils;
use crate::crypto::cipher;
use crate::crypto::cipher::{AesFrameCipher, MAX_PLAINTEXT_LEN};
use crate::crypto::handshake;
use crate::crypto::handshake::{
    derive_connection_keys, derive_handshake_key, derive_initial_master,
};
use crate::crypto::keys;
use crate::decimal;
use crate::hello;
use crate::hello::ServerHelloError;
use crate::server::constants::MASTER_EXPIRY_SECS;
use crate::server::handlers;
use crate::server::handlers::{authorize_tunnel, TunnelGrant};
use crate::server::masters;
use crate::server::masters::MasterStore;
use crate::server::nonce_registry::NonceRegistry;
use crate::session;
use crate::session::TunnelRefusal;
use crate::shaper::config;
use crate::shaper::config::PaddingConfig;
use crate::shaper::frame;
use crate::shaper::frame::{EncodingType, Front, MAX_BINARY_FRAME_LEN, MAX_RAW_PAYLOAD};
use crate::shaper::laws;
use crate::shaper::{FrameError, TrafficConfig};
use bytes::{Bytes, BytesMut};
use vstd::prelude::*;
use vstd::string::*;
use vstd::utf8::*;

verus! {

/// What a session is resumed with.
pub struct PqSessionTicket {
    pub master: [u8; 32],
    pub session_id: String,
}

/// The server wants a new handshake.
#[derive(Debug)]
pub struct RehandshakeRequired(pub String);

impl RehandshakeRequired {
    /// The words.
    pub fn message(&self) -> (r: &str)
        ensures
            r@ == self.0@,
    {
        self.0.as_str()
    }
}

/// Why a handshake failed.
#[derive(Debug, Clone, Copy, PartialEq, Eq, Structural)]
pub enum HandshakeError {
    /// A frame could not be written or read.
    Frame(FrameError),
    /// The server's message makes no sense.
    Hello(ServerHelloError),
    /// The server's message did not come.
    NotReceived,
}

impl HandshakeError {
    /// The error in words.
    pub open spec fn text(self) -> Seq<char> {
        match self {
            HandshakeError::Frame(e) => e.text(),
            HandshakeError::Hello(e) => e.text(),
            HandshakeError::NotReceived => "ServerHello not received"@,
        }
    }

    /// The error in words.
    pub fn message(&self) -> (r: String)
        ensures
            r@ == self.text(),
    {
        match self {
            HandshakeError::Frame(e) => e.message(),
            HandshakeError::Hello(e) => String::from_str(e.message()),
            HandshakeError::NotReceived => String::from_str("ServerHello not received"),
        }
    }
}

/// Session name and master key that the server's first frame in `buf` gives,
/// as soon as it is there.
pub open spec fn reply_ticket(
    key: Seq<u8>,
    kem_seed: Seq<u8>,
    eph_sk: Seq<u8>,
    buf: Seq<u8>,
    encoding: EncodingType,
) -> Result<Option<(Seq<char>, Seq<u8>)>, HandshakeError> {
    match frame::front(buf, encoding) {
        Front::Partial => Ok(None),
        Front::Reject(e) => Err(HandshakeError::Frame(e)),
        Front::Whole { used: _, body: b } => match b {
            Err(e) => Err(HandshakeError::Frame(e)),
            Ok(sealed) => match cipher::opened_payload(key, sealed) {
                Err(e) => Err(HandshakeError::Frame(e)),
                Ok(plain) => match frame::extracted(plain) {
                    Err(e) => Err(HandshakeError::Frame(e)),
                    Ok((_, data)) => match hello::server_hello_parts(data) {
                        Err(e) => Err(HandshakeError::Hello(e)),
                        Ok((session_id, ct, server_pk)) => Ok(
                            Some(
                                (
                                    session_id,
                                    handshake::initial_master(
                                        keys::mlkem_decapsulated(kem_seed, ct),
                                        keys::x25519_shared(eph_sk, server_pk),
                                    ),
                                ),
                            ),
                        ),
                    },
                },
            },
        },
    }
}

/// The holder of any secret behind `server_pk` gets `key` from the key that the
/// cookie's value `eph` carries.
pub open spec fn offers(eph: Seq<char>, server_pk: Seq<u8>, key: Seq<u8>) -> bool {
    &&& forall|secret: Seq<u8>|
        secret.len() == 32 && server_pk == #[trigger] keys::x25519_public(secret)
            ==> handlers::key_for_handshake(Some(secret), Some(eph)) == Ok::<
            Seq<u8>,
            handlers::HandshakeRefusal,
        >(key)
    &&& forall|i: int| 0 <= i < eph.len() ==> base64url::is_alphabet(#[trigger] eph[i])
}

/// What the client sends to begin a session.
pub struct HandshakeRequest {
    pub cookie: String,
    pub body: Vec<u8>,
}

/// A handshake that waits for the server's message.
pub struct ClientHandshake {
    key: [u8; 32],
    kem_seed: Vec<u8>,
    eph_sk: [u8; 32],
    encoding: EncodingType,
    buf: BytesMut,
}

impl ClientHandshake {
    /// The key that seals the handshake.
    pub closed spec fn key(&self) -> Seq<u8> {
        self.key@
    }

    /// The seed of the ML-KEM key.
    pub closed spec fn seed(&self) -> Seq<u8> {
        self.kem_seed@
    }

    /// The secret of the second X25519 key.
    pub closed spec fn secret(&self) -> Seq<u8> {
        self.eph_sk@
    }

    /// How frames are written.
    pub closed spec fn encoding_view(&self) -> EncodingType {
        self.encoding
    }

    /// What has come of the server's answer.
    pub closed spec fn waiting(&self) -> Seq<u8> {
        buffer::buffered(self.buf)
    }

    /// The secrets have their lengths.
    pub open spec fn wf(&self) -> bool {
        &&& self.key().len() == 32
        &&& self.seed().len() == 64
        &&& self.secret().len() == 32
    }

    /// Begins a session with the holder of the secret behind `server_pk`: the
    /// server gets the same key and reads both public keys from the request.
    pub fn begin(server_pk: &[u8; 32], traffic: &TrafficConfig) -> (r: Result<
        (ClientHandshake, HandshakeRequest),
        HandshakeError,
    >)
        requires
            config::is_ordered(traffic.global.padding_range),
        ensures
            r is Ok,
            r matches Ok((hs, request)) ==> {
                &&& hs.wf()
                &&& hs.waiting() == Seq::<u8>::empty()
                &&& hs.encoding_view() == traffic.encoding_type
                &&& exists|eph: Seq<char>|
                    utils::is_padded_cookie(request.cookie@, "eph_pk_a"@, eph) && #[trigger] offers(
                        eph,
                        server_pk@,
                        hs.key(),
                    )
                &&& handlers::hello_in(hs.key(), request.body@, traffic.encoding_type) == Ok::<
                    (Seq<u8>, Seq<u8>),
                    handlers::HandshakeRefusal,
                >((keys::mlkem_public(hs.seed()), keys::x25519_public(hs.secret())))
                &&& handlers::is_sealed_message(
                    request.body@,
                    hs.key(),
                    hello::client_hello(
                        keys::mlkem_public(hs.seed()),
                        keys::x25519_public(hs.secret()),
                    ),
                    traffic.encoding_type,
                    traffic.global,
                )
            },
    {
        let (eph_sk_a, eph_pk_a): ([u8; 32], [u8; 32]) = keys::generate_keypair();
        let shared: [u8; 32] = keys::diffie_hellman(&eph_sk_a, server_pk);
        let key: [u8; 32] = derive_handshake_key(&shared);
        let seal: AesFrameCipher = AesFrameCipher::new(&key);
        let (kem_seed, kem_pk): (Vec<u8>, Vec<u8>) = keys::generate_mlkem_keypair();
        let (eph_sk, eph_pk): ([u8; 32], [u8; 32]) = keys::generate_keypair();
        let message: Vec<u8> = hello::build_client_hello(&kem_pk, &eph_pk);
        proof {
            assert forall|n: nat| n <= MAX_BINARY_FRAME_LEN implies #[trigger] frame::can_seal(
                Some(&seal),
                n,
            ) by {}
            hello::law_client_hello_roundtrip(kem_pk@, eph_pk@);
        }
        let body: Vec<u8> = match frame::encode_frame_with(
            &message,
            0,
            Some(&seal),
            traffic.global.padding_threshold,
            traffic.global.padding_range,
            traffic.encoding_type,
        ) {
            Ok(f) => f,
            Err(e) => {
                return Err(HandshakeError::Frame(e));
            },
        };
        let eph: String = keys::public_key_to_b64(&eph_pk_a);
        let cookie: String = utils::random_cookie("eph_pk_a", eph.as_str());
        proof {
            let limit = frame::raw_limit(true, traffic.encoding_type);
            let wanted = choose|wanted: nat|
                (message@.len() < traffic.global.padding_threshold
                    ==> traffic.global.padding_range[0] <= wanted
                    <= traffic.global.padding_range[1]) && #[trigger] frame::is_frame(
                    body@,
                    traffic.encoding_type,
                    Some(&seal),
                    0,
                    message@,
                    frame::padding_for(
                        message@.len(),
                        limit as nat,
                        traffic.global.padding_threshold as nat,
                        wanted,
                    ),
                );
            laws::law_decode_frame(
                body@,
                traffic.encoding_type,
                Some(&seal),
                0,
                message@,
                frame::padding_for(
                    message@.len(),
                    limit as nat,
                    traffic.global.padding_threshold as nat,
                    wanted,
                ),
                Seq::empty(),
            );
            assert(body@ + Seq::<u8>::empty() =~= body@);
            assert(handlers::is_sealed_message(
                body@,
                key@,
                message@,
                traffic.encoding_type,
                traffic.global,
            ));
            assert(offers(eph@, server_pk@, key@));
        }
        Ok(
            (
                ClientHandshake {
                    key,
                    kem_seed,
                    eph_sk,
                    encoding: traffic.encoding_type,
                    buf: buffer::buf_new(),
                },
                HandshakeRequest { cookie, body },
            ),
        )
    }

    /// Takes a part of the server's answer; gives the session's ticket as soon as
    /// the server's message is there.
    pub fn on_reply(&mut self, chunk: &[u8]) -> (r: Result<Option<PqSessionTicket>, HandshakeError>)
        requires
            old(self).wf(),
            old(self).waiting().len() + chunk@.len() <= isize::MAX,
        ensures
            final(self).wf(),
            final(self).key() == old(self).key(),
            final(self).seed() == old(self).seed(),
            final(self).secret() == old(self).secret(),
            final(self).encoding_view() == old(self).encoding_view(),
            match reply_ticket(
                old(self).key(),
                old(self).seed(),
                old(self).secret(),
                old(self).waiting() + chunk@,
                old(self).encoding_view(),
            ) {
                Err(e) => r == Err::<Option<PqSessionTicket>, HandshakeError>(e),
                Ok(None) => (r matches Ok(t) && t is None) && final(self).waiting() == old(
                    self,
                ).waiting() + chunk@,
                Ok(Some((session_id, master))) => r matches Ok(Some(t)) && t.session_id@
                    == session_id && t.master@ == master,
            },
            forall|
                secrets: handlers::ReplySecrets,
                session_id: Seq<char>,
                master: Seq<u8>,
                reply: Seq<u8>,
                rest: Seq<u8>,
            |
                {
                    &&& #[trigger] handlers::made_of(
                        secrets,
                        old(self).key(),
                        keys::x25519_public(old(self).secret()),
                        old(self).encoding_view(),
                        session_id,
                        master,
                        reply,
                    )
                    &&& old(self).waiting() + chunk@ == #[trigger] (reply + rest)
                    &&& keys::mlkem_decapsulated(old(self).seed(), secrets.ct) == secrets.mlkem_ss
                } ==> (r matches Ok(Some(t)) && t.session_id@ == session_id && t.master@ == master),
    {
        buffer::buf_put(&mut self.buf, chunk);
        let seal: AesFrameCipher = AesFrameCipher::new(&self.key);
        let found: Result<Option<PqSessionTicket>, HandshakeError> =
            match frame::decode_from_buffer_with(&mut self.buf, Some(&seal), self.encoding) {
            Err(e) => Err(HandshakeError::Frame(e)),
            Ok(None) => Ok(None),
            Ok(Some((_seq, data))) => match hello::parse_server_hello(
                buffer::bytes_as_slice(&data),
            ) {
                Err(e) => Err(HandshakeError::Hello(e)),
                Ok((session_id, ct, server_pk)) => {
                    let kem_secret: Vec<u8> = keys::mlkem_decapsulate(&self.kem_seed, &ct);
                    let shared: [u8; 32] = keys::diffie_hellman(&self.eph_sk, &server_pk);
                    let master: [u8; 32] = derive_initial_master(&kem_secret, &shared);
                    Ok(Some(PqSessionTicket { master, session_id }))
                },
            },
        };
        proof {
            assert forall|
                secrets: handlers::ReplySecrets,
                session_id: Seq<char>,
                master: Seq<u8>,
                reply: Seq<u8>,
                rest: Seq<u8>,
            |
                {
                    &&& #[trigger] handlers::made_of(
                        secrets,
                        old(self).key(),
                        keys::x25519_public(old(self).secret()),
                        old(self).encoding_view(),
                        session_id,
                        master,
                        reply,
                    )
                    &&& old(self).waiting() + chunk@ == #[trigger] (reply + rest)
                    &&& keys::mlkem_decapsulated(old(self).seed(), secrets.ct) == secrets.mlkem_ss
                } implies (found matches Ok(Some(t)) && t.session_id@ == session_id && t.master@
                == master) by {
                let server_pk = keys::x25519_public(secrets.server_sk);
                let message = hello::server_hello(encode_utf8(session_id), secrets.ct, server_pk);
                laws::law_decode_frame(
                    reply,
                    self.encoding,
                    Some(&secrets.seal),
                    0,
                    message,
                    secrets.pad,
                    rest,
                );
                hello::law_server_hello_roundtrip(session_id, secrets.ct, server_pk);
            }
        }
        found
    }
}

/// `Uuid::new_v4().into_bytes()`: the number of a new stream, whatever it is.
#[verifier::external_body]
pub(crate) fn new_stream_id() -> [u8; 16] {
    uuid::Uuid::new_v4().into_bytes()
}

/// What the client sends to open a tunnel, and what it goes on with.
pub struct TunnelRequest {
    /// The value of the session cookie.
    pub cookie_value: String,
    /// The Cookie header.
    pub cookie: String,
    /// The first frames.
    pub body: Vec<u8>,
    /// The bytes not yet sent.
    pub remaining: Bytes,
    /// The number of the next frame.
    pub next_seq: u64,
    /// The key of the upload.
    pub upload_key: [u8; 32],
    /// The key of the download.
    pub download_key: [u8; 32],
}

/// A session's master key finds the stream number and the target in the parts of a cookie.
pub open spec fn parts_open(
    master: Seq<u8>,
    stream_id: Seq<u8>,
    target: Seq<char>,
    target_part: Seq<char>,
    stream_part: Seq<char>,
) -> bool {
    &&& session::opened_target(master, stream_id, target_part) == Ok::<Seq<char>, TunnelRefusal>(
        target,
    )
    &&& session::opened_stream(master, stream_part) == Ok::<Seq<u8>, TunnelRefusal>(stream_id)
}

/// A cookie names a session, and its parts open to the stream number and the target.
pub open spec fn names_tunnel(
    cookie: Seq<char>,
    master: Seq<u8>,
    session_id: Seq<char>,
    stream_id: Seq<u8>,
    target: Seq<char>,
) -> bool {
    exists|target_part: Seq<char>, stream_part: Seq<char>|
        {
            &&& cookie == session_id + seq![':'] + target_part + seq![':'] + stream_part
            &&& #[trigger] parts_open(master, stream_id, target, target_part, stream_part)
            &&& (!session_id.contains(':') ==> session::cookie_parts(cookie) == Some(
                (session_id, target_part, stream_part),
            ))
        }
}

/// Frames that the holder of `key` reads, padded as `padding` asks for it.
pub open spec fn is_sealed_stream(
    bytes: Seq<u8>,
    encoding: EncodingType,
    key: Seq<u8>,
    chunks: Seq<Seq<u8>>,
    padding: PaddingConfig,
) -> bool {
    exists|seal: AesFrameCipher|
        seal.key() == key && #[trigger] laws::is_padded_stream(
            bytes,
            encoding,
            Some(&seal),
            0,
            chunks,
            padding,
        )
}

/// What comes of making the request that opens a tunnel.
pub open spec fn prepared(
    ticket: PqSessionTicket,
    stream_id: Seq<u8>,
    target: Seq<char>,
    payload: Seq<u8>,
    encoding: EncodingType,
    padding: PaddingConfig,
    r: Result<TunnelRequest, FrameError>,
) -> bool {
    let limit = frame::raw_limit(true, encoding);
    let first = utils::head(payload, MAX_RAW_PAYLOAD as nat);
    let secret = handshake::connection_secret(ticket.master@, stream_id);
    if encode_utf8(target).len() > MAX_PLAINTEXT_LEN {
        r == Err::<TunnelRequest, FrameError>(FrameError::EncryptionFailed)
    } else if first.len() > limit {
        r == Err::<TunnelRequest, FrameError>(
            FrameError::PayloadTooLarge { len: first.len() as usize, limit },
        )
    } else {
        &&& r matches Ok(request)
        &&& names_tunnel(
            request.cookie_value@,
            ticket.master@,
            ticket.session_id@,
            stream_id,
            target,
        )
        &&& utils::is_padded_cookie(request.cookie@, "session"@, request.cookie_value@)
        &&& request.upload_key@ == secret.subrange(0, 32)
        &&& request.download_key@ == secret.subrange(32, 64)
        &&& is_sealed_stream(
            request.body@,
            encoding,
            request.upload_key@,
            utils::pieces(first),
            padding,
        )
        &&& buffer::frozen(request.remaining) == payload.skip(first.len() as int)
        &&& request.next_seq == utils::pieces(first).len()
    }
}

/// Makes the request that opens a tunnel to `target` as stream `stream_id` of a
/// session, with the first bytes of the connection.
pub fn prepare_tunnel(
    ticket: &PqSessionTicket,
    stream_id: &[u8; 16],
    target: &str,
    initial_payload: &[u8],
    traffic: &TrafficConfig,
) -> (r: Result<TunnelRequest, FrameError>)
    requires
        config::is_ordered(traffic.global.padding_range),
        2 * (target.spec_bytes().len() + 28) <= isize::MAX,
    ensures
        prepared(
            *ticket,
            stream_id@,
            target@,
            initial_payload@,
            traffic.encoding_type,
            traffic.global,
            r,
        ),
{
    let (upload_key, download_key, _target_key): ([u8; 32], [u8; 32], [u8; 32]) =
        derive_connection_keys(&ticket.master, stream_id);
    let cookie_value: String = match session::seal_session_cookie(
        &ticket.master,
        ticket.session_id.as_str(),
        stream_id,
        target,
    ) {
        Ok(c) => c,
        Err(e) => {
            return Err(e);
        },
    };
    proof {
        let (target_part, stream_part) = choose|target_part: Seq<char>, stream_part: Seq<char>|
            {
                &&& cookie_value@ == ticket.session_id@ + seq![':'] + target_part + seq![':']
                    + stream_part
                &&& #[trigger] session::opened_target(ticket.master@, stream_id@, target_part)
                    == Ok::<Seq<char>, TunnelRefusal>(target@)
                &&& #[trigger] session::opened_stream(ticket.master@, stream_part) == Ok::<
                    Seq<u8>,
                    TunnelRefusal,
                >(stream_id@)
                &&& (!ticket.session_id@.contains(':') ==> session::cookie_parts(cookie_value@)
                    == Some((ticket.session_id@, target_part, stream_part)))
            };
        assert(parts_open(ticket.master@, stream_id@, target@, target_part, stream_part));
    }
    let seal: AesFrameCipher = AesFrameCipher::new(&upload_key);
    proof {
        assert forall|n: nat| n <= MAX_BINARY_FRAME_LEN implies #[trigger] frame::can_seal(
            Some(&seal),
            n,
        ) by {}
        let first = utils::head(initial_payload@, MAX_RAW_PAYLOAD as nat);
        assert(utils::head(first, MAX_RAW_PAYLOAD as nat) == first);
    }
    let (body, remaining, next_seq): (Vec<u8>, Bytes, u64) = match utils::encode_initial_payload(
        initial_payload,
        MAX_RAW_PAYLOAD,
        Some(&seal),
        traffic,
    ) {
        Ok(parts) => parts,
        Err(e) => {
            return Err(e);
        },
    };
    let cookie: String = utils::random_cookie("session", cookie_value.as_str());
    Ok(
        TunnelRequest {
            cookie_value,
            cookie,
            body,
            remaining,
            next_seq,
            upload_key,
            download_key,
        },
    )
}

/// Makes the request that opens a tunnel to `target` as a new stream of a session.
pub fn open_tunnel(
    ticket: &PqSessionTicket,
    target: &str,
    initial_payload: &[u8],
    traffic: &TrafficConfig,
) -> (r: Result<TunnelRequest, FrameError>)
    requires
        config::is_ordered(traffic.global.padding_range),
        2 * (target.spec_bytes().len() + 28) <= isize::MAX,
    ensures
        exists|stream_id: Seq<u8>|
            stream_id.len() == 16 && #[trigger] prepared(
                *ticket,
                stream_id,
                target@,
                initial_payload@,
                traffic.encoding_type,
                traffic.global,
                r,
            ),
{
    let stream_id: [u8; 16] = new_stream_id();
    prepare_tunnel(ticket, &stream_id, target, initial_payload, traffic)
}

/// What the answer to a request that opens a tunnel means.
#[derive(Debug)]
pub enum ConnectVerdict {
    /// The tunnel is open.
    Open,
    /// A new handshake is needed.
    Rehandshake(RehandshakeRequired),
    /// The request was refused.
    Rejected(String),
}

/// Judges the answer to a request that opens a tunnel.
pub fn judge_connect(status: u16) -> (r: ConnectVerdict)
    requires
        100 <= status <= 999,
    ensures
        if status == 428 {
            r matches ConnectVerdict::Rehandshake(e) && e.0@ == "server requests re-handshake (428)"@
        } else if 200 <= status <= 299 {
            r is Open
        } else {
            r matches ConnectVerdict::Rejected(e) && e@ == "server rejected session resumption"@
                + ": "@ + utils::status_text(status)
        },
{
    if status == 428 {
        return ConnectVerdict::Rehandshake(
            RehandshakeRequired(String::from_str("server requests re-handshake (428)")),
        );
    }
    match utils::check_response_status(status, "server rejected session resumption") {
        Ok(_) => ConnectVerdict::Open,
        Err(e) => ConnectVerdict::Rejected(e),
    }
}

/// The cookie of a tunnel that the client opens is accepted by a server that
/// knows the session: it grants the tunnel to the client's target, under the
/// keys that the client uses.
pub proof fn law_cookie_opens_tunnel(
    cookie: Seq<char>,
    master: Seq<u8>,
    session_id: Seq<char>,
    stream_id: Seq<u8>,
    target: Seq<char>,
    masters: Map<Seq<char>, (Seq<char>, Seq<u8>, u64)>,
    nonces: Map<(Seq<char>, Seq<u8>), bool>,
    now: u64,
    masters_after: Map<Seq<char>, (Seq<char>, Seq<u8>, u64)>,
    nonces_after: Map<(Seq<char>, Seq<u8>), bool>,
    r: Result<handlers::TunnelGrant, TunnelRefusal>,
)
    requires
        names_tunnel(cookie, master, session_id, stream_id, target),
        !session_id.contains(':'),
        session::host_and_port(target) is Ok,
        masters.contains_key(session_id),
        masters[session_id].1 == master,
        masters::age(masters[session_id].2, now) <= MASTER_EXPIRY_SECS,
        !nonces.contains_key((session_id, stream_id)),
        handlers::grant_outcome(cookie, masters, nonces, now, masters_after, nonces_after, r),
    ensures
        r matches Ok(grant) && session::host_and_port(target) == Ok::<(Seq<char>, u16), TunnelRefusal>(
            (grant.host@, grant.port),
        ) && grant.target@ == target && grant.user@ == masters[session_id].0
            && grant.session_id@ == session_id && grant.stream_id@ == stream_id
            && grant.upload_key@ == handshake::connection_secret(master, stream_id).subrange(0, 32)
            && grant.download_key@ == handshake::connection_secret(master, stream_id).subrange(
            32,
            64,
        ),
{
}

/// The tunnel that the client asks for is the tunnel that the server grants: to the
/// host and the port that the target was written with, whatever the host and
/// whichever the port, under the keys that the client sends and reads with. The
/// stream number is claimed by that.
pub proof fn law_tunnel_reaches_host(
    ticket: &PqSessionTicket,
    stream_id: &[u8; 16],
    target: &str,
    host: Seq<char>,
    port: u16,
    payload: &[u8],
    traffic: &TrafficConfig,
    request: TunnelRequest,
    cookie: &str,
    masters: &mut MasterStore,
    nonces: &mut NonceRegistry,
    now: u64,
    r: Result<TunnelGrant, TunnelRefusal>,
)
    requires
        call_ensures(
            prepare_tunnel,
            (ticket, stream_id, target, payload, traffic),
            Ok::<TunnelRequest, FrameError>(request),
        ),
        target@ == host + seq![':'] + decimal::decimal(port as nat),
        cookie@ == request.cookie_value@,
        !ticket.session_id@.contains(':'),
        call_ensures(authorize_tunnel, (cookie, masters, nonces, now), r),
        old(masters).entries().contains_key(ticket.session_id@),
        old(masters).entries()[ticket.session_id@].1 == ticket.master@,
        now <= old(masters).entries()[ticket.session_id@].2 + 1200,
        !old(nonces).entries().contains_key((ticket.session_id@, stream_id@)),
    ensures
        r is Ok,
        r->Ok_0.host@ == host,
        r->Ok_0.port == port,
        r->Ok_0.target@ == target@,
        r->Ok_0.user@ == old(masters).entries()[ticket.session_id@].0,
        r->Ok_0.session_id@ == ticket.session_id@,
        r->Ok_0.stream_id@ == stream_id@,
        r->Ok_0.upload_key@ == request.upload_key@,
        r->Ok_0.download_key@ == request.download_key@,
        final(nonces).entries().contains_key((ticket.session_id@, stream_id@)),
{
    let sid = ticket.session_id@;
    let entry = old(masters).entries()[sid];
    assert(old(masters).entries().get(sid) == Some(entry));
    assert(names_tunnel(cookie@, ticket.master@, sid, stream_id@, target@));
    session::lemma_host_and_port(host, port as nat);
    assert(old(nonces).entries().get((sid, stream_id@)) is None);
}

} // verus!
