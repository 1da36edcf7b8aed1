//! A local connection, from its first byte to the way that it goes.
use crate::buffer;
use crate::bypass::rules;
use crate::bypass::BypassRules;
use crate::chars;
use crate::client::proxy;
use crate::client::proxy::{ParseOutcome, ProxyError};
use crate::client::utils;
use crate::crypto::cipher::AesFrameCipher;
use crate::server::handlers;
use crate::shaper::config;
use crate::shaper::config::PaddingConfig;
use crate::shaper::frame;
use crate::shaper::frame::MAX_RAW_PAYLOAD;
use crate::shaper::laws;
use crate::shaper::{FrameError, TrafficConfig};
use bytes::{Bytes, BytesMut};
use vstd::prelude::*;
use vstd::string::*;

verus! {

/// What a CONNECT request is answered.
pub fn connect_response() -> (r: &'static str)
    ensures
        r@ == "HTTP/1.1 200 Connection Established\r\n\r\n"@,
{
    "HTTP/1.1 200 Connection Established\r\n\r\n"
}

/// What a request without credentials is answered.
pub fn proxy_auth_required_response() -> (r: &'static str)
    ensures
        r@
            == "HTTP/1.1 407 Proxy Authentication Required\r\nProxy-Authenticate: Basic realm=\"httproxy\"\r\nContent-Length: 0\r\n\r\n"@,
{
    "HTTP/1.1 407 Proxy Authentication Required\r\nProxy-Authenticate: Basic realm=\"httproxy\"\r\nContent-Length: 0\r\n\r\n"
}

/// Whether a request may pass: no credentials are asked for, or it has them.
pub open spec fn authorized(expected: Option<Seq<char>>, given: Option<Seq<char>>) -> bool {
    match expected {
        None => true,
        Some(e) => given matches Some(g) && chars::trimmed(g) == e,
    }
}

/// Whether a request may pass.
pub fn is_authorized(expected: Option<&str>, given: Option<&str>) -> (r: bool)
    ensures
        r == authorized(
            (match expected {
                Some(e) => Some(e@),
                None => None,
            }),
            (match given {
                Some(g) => Some(g@),
                None => None,
            }),
        ),
{
    match expected {
        None => true,
        Some(e) => match given {
            None => false,
            Some(g) => {
                let want: Vec<char> = chars::chars_of(e);
                let have: Vec<char> = chars::chars_of(g);
                chars::same_chars(chars::trim_chars(&have), &want)
            },
        },
    }
}

/// Where a local connection stands.
pub enum ClientConnState {
    /// Its request is awaited.
    Parsing,
    /// It asked for a tunnel to this authority; its first bytes are awaited.
    Early(String),
    /// Its target is known.
    Active,
    /// It was given up.
    Closed,
}

/// What to do next for a local connection.
pub enum ConnStep {
    /// Read on.
    Read,
    /// Ask for credentials and read on.
    Challenge,
    /// Confirm the tunnel, and read the first bytes where there is room for them.
    Established { read_early: bool },
    /// Read further first bytes.
    ReadEarly,
    /// Go on to the target with what has come.
    Ready { target: String, payload: Bytes },
    /// Give up.
    Failed(ProxyError),
}

/// Judges a local connection as it comes in.
pub struct ClientConnectionActor {
    state: ClientConnState,
    buf: BytesMut,
    expected_auth: Option<String>,
}

/// A request for a URL goes on to the URL's host, with the path in its request line.
pub open spec fn forwarded(buf: Seq<u8>, method: Seq<char>, url: Seq<char>, step: ConnStep) -> bool {
    match proxy::url_target(proxy::url_parts(url)) {
        Err(e) => step == ConnStep::Failed(e),
        Ok(to) => proxy::url_parts(url) matches Some((_, _, _, path, query, fragment))
            && exists|done: Result<(), ProxyError>, after: Seq<u8>|
            {
                &&& #[trigger] proxy::rewritten(
                    buf,
                    method,
                    proxy::origin_form(path, query, fragment),
                    done,
                    after,
                )
                &&& match done {
                    Err(e) => step == ConnStep::Failed(e),
                    Ok(_) => step matches ConnStep::Ready { target, payload } && target@ == to
                        && buffer::frozen(payload) == after,
                }
            },
    }
}

/// A tunnel goes on to its authority with the bytes that have come.
pub open spec fn tunnelled(buf: Seq<u8>, url: Seq<char>, step: ConnStep) -> bool {
    match proxy::authority_target(proxy::authority_parts(url)) {
        None => step matches ConnStep::Failed(ProxyError::InvalidTarget(t)) && t@ == url,
        Some(None) => step matches ConnStep::Failed(ProxyError::TargetPort(t)) && t@ == url,
        Some(Some(to)) => step matches ConnStep::Ready { target, payload } && target@ == to
            && buffer::frozen(payload) == buf,
    }
}

/// What comes of a request, by what it turned out to be.
pub open spec fn handled(
    expected: Option<Seq<char>>,
    buf: Seq<u8>,
    outcome: ParseOutcome,
    state: ClientConnState,
    after: Seq<u8>,
    step: ConnStep,
) -> bool {
    match outcome {
        ParseOutcome::NeedMore => step is Read && state is Parsing && after == buf,
        ParseOutcome::Failed(e) => step == ConnStep::Failed(e) && state is Closed,
        ParseOutcome::Complete { method, header_len, url, proxy_auth } => if !authorized(
            expected,
            proxy::opt_view(proxy_auth),
        ) {
            step is Challenge && state is Parsing && after == buf.skip(header_len as int)
        } else if method@ == "CONNECT"@ {
            &&& after == buf.skip(header_len as int)
            &&& step == (ConnStep::Established { read_early: after.len() < MAX_RAW_PAYLOAD })
            &&& state matches ClientConnState::Early(u)
            &&& u@ == url@
        } else {
            &&& forwarded(buf, method@, url@, step)
            &&& (if step is Ready {
                state is Active
            } else {
                state is Closed
            })
        },
    }
}

impl ClientConnectionActor {
    /// Where the connection stands.
    pub closed spec fn state_view(&self) -> ClientConnState {
        self.state
    }

    /// What has come and is still to be used.
    pub closed spec fn waiting(&self) -> Seq<u8> {
        buffer::buffered(self.buf)
    }

    /// The credentials that are asked for.
    pub closed spec fn expected(&self) -> Option<Seq<char>> {
        proxy::opt_view(self.expected_auth)
    }

    /// A connection that has sent nothing yet.
    pub fn new(expected_auth: Option<String>) -> (r: Self)
        ensures
            r.state_view() is Parsing,
            r.waiting() == Seq::<u8>::empty(),
            r.expected() == proxy::opt_view(expected_auth),
    {
        ClientConnectionActor {
            state: ClientConnState::Parsing,
            buf: buffer::buf_new(),
            expected_auth,
        }
    }

    /// The connection ended before its request.
    pub fn on_closed(&mut self) -> (r: ConnStep)
        ensures
            r == ConnStep::Failed(ProxyError::Closed),
            final(self).state_view() is Closed,
            final(self).waiting() == old(self).waiting(),
            final(self).expected() == old(self).expected(),
    {
        self.state = ClientConnState::Closed;
        ConnStep::Failed(ProxyError::Closed)
    }

    /// Takes out what has come.
    fn take_payload(&mut self) -> (r: Bytes)
        ensures
            buffer::frozen(r) == old(self).waiting(),
            final(self).waiting() == Seq::<u8>::empty(),
            final(self).state_view() == old(self).state_view(),
            final(self).expected() == old(self).expected(),
    {
        let mut taken: BytesMut = buffer::buf_new();
        std::mem::swap(&mut taken, &mut self.buf);
        buffer::buf_freeze(taken)
    }

    /// Acts on what a request turned out to be.
    pub fn handle(&mut self, outcome: ParseOutcome) -> (r: ConnStep)
        requires
            old(self).state_view() is Parsing,
            outcome matches ParseOutcome::Complete { header_len, .. } ==> header_len <= old(self).waiting().len(),
        ensures
            handled(
                old(self).expected(),
                old(self).waiting(),
                outcome,
                final(self).state_view(),
                final(self).waiting(),
                r,
            ),
            final(self).expected() == old(self).expected(),
    {
        match outcome {
            ParseOutcome::NeedMore => ConnStep::Read,
            ParseOutcome::Failed(e) => {
                self.state = ClientConnState::Closed;
                ConnStep::Failed(e)
            },
            ParseOutcome::Complete { method, header_len, url, proxy_auth } => {
                let expected: Option<&str> = match &self.expected_auth {
                    Some(e) => Some(e.as_str()),
                    None => None,
                };
                let given: Option<&str> = match &proxy_auth {
                    Some(g) => Some(g.as_str()),
                    None => None,
                };
                if !is_authorized(expected, given) {
                    buffer::buf_advance(&mut self.buf, header_len);
                    return ConnStep::Challenge;
                }
                if proxy::is_connect(method.as_str()) {
                    buffer::buf_advance(&mut self.buf, header_len);
                    self.state = ClientConnState::Early(url);
                    return ConnStep::Established {
                        read_early: buffer::buf_len(&self.buf) < MAX_RAW_PAYLOAD,
                    };
                }
                let target: String = match proxy::resolve_target_host(
                    method.as_str(),
                    url.as_str(),
                ) {
                    Ok(t) => t,
                    Err(e) => {
                        self.state = ClientConnState::Closed;
                        return ConnStep::Failed(e);
                    },
                };
                let done: Result<(), ProxyError> = proxy::rewrite_absolute_url(
                    &mut self.buf,
                    method.as_str(),
                    url.as_str(),
                );
                let ghost after = buffer::buffered(self.buf);
                proof {
                    let (_, _, _, path, query, fragment) = proxy::url_parts(url@)->0;
                    assert(proxy::rewritten(
                        old(self).waiting(),
                        method@,
                        proxy::origin_form(path, query, fragment),
                        done,
                        after,
                    ));
                }
                match done {
                    Ok(_) => {
                        self.state = ClientConnState::Active;
                        ConnStep::Ready { target, payload: self.take_payload() }
                    },
                    Err(e) => {
                        self.state = ClientConnState::Closed;
                        ConnStep::Failed(e)
                    },
                }
            },
        }
    }

    /// Takes what a connection sends while its request is awaited.
    pub fn on_data(&mut self, chunk: &[u8]) -> (r: ConnStep)
        requires
            old(self).state_view() is Parsing,
            old(self).waiting().len() + chunk@.len() <= isize::MAX,
        ensures
            ({
                let all = old(self).waiting() + chunk@;
                exists|outcome: ParseOutcome|
                    #[trigger] proxy::judged(
                        proxy::http_head(all),
                        all.len(),
                        old(self).expected() is Some,
                        outcome,
                    ) && handled(
                        old(self).expected(),
                        all,
                        outcome,
                        final(self).state_view(),
                        final(self).waiting(),
                        r,
                    )
            }),
            final(self).expected() == old(self).expected(),
    {
        buffer::buf_put(&mut self.buf, chunk);
        let outcome: ParseOutcome = proxy::parse_proxy_request(
            buffer::buf_slice(&self.buf),
            self.expected_auth.is_some(),
        );
        self.handle(outcome)
    }

    /// Takes the first bytes of a tunnel, or learns that there are no more for now.
    pub fn on_early(&mut self, chunk: Option<&[u8]>) -> (r: ConnStep)
        requires
            old(self).state_view() is Early,
            chunk matches Some(c) ==> old(self).waiting().len() + c@.len() <= isize::MAX,
        ensures
            final(self).expected() == old(self).expected(),
            ({
                let url = old(self).state_view()->Early_0@;
                let all = match chunk {
                    Some(c) => old(self).waiting() + c@,
                    None => old(self).waiting(),
                };
                if chunk is Some && all.len() < MAX_RAW_PAYLOAD {
                    &&& r is ReadEarly
                    &&& final(self).state_view() == old(self).state_view()
                    &&& final(self).waiting() == all
                } else {
                    &&& tunnelled(all, url, r)
                    &&& (if r is Ready {
                        final(self).state_view() is Active
                    } else {
                        final(self).state_view() is Closed
                    })
                }
            }),
    {
        match chunk {
            Some(c) => {
                buffer::buf_put(&mut self.buf, c);
                if buffer::buf_len(&self.buf) < MAX_RAW_PAYLOAD {
                    return ConnStep::ReadEarly;
                }
            },
            None => {},
        }
        let target: Result<String, ProxyError> = match &self.state {
            ClientConnState::Early(url) => proxy::resolve_target_host("CONNECT", url.as_str()),
            _ => Err(ProxyError::Closed),
        };
        match target {
            Ok(t) => {
                self.state = ClientConnState::Active;
                ConnStep::Ready { target: t, payload: self.take_payload() }
            },
            Err(e) => {
                self.state = ClientConnState::Closed;
                ConnStep::Failed(e)
            },
        }
    }
}

/// The way that a connection goes.
#[derive(Debug, Clone, Copy, PartialEq, Eq, Structural)]
pub enum ConnRoute {
    /// Straight to its target.
    Direct,
    /// Through an encrypted tunnel.
    Encrypted,
    /// Through an unencrypted tunnel.
    Plain,
}

/// Chooses the way of a connection: straight where the rules say so, else
/// through a tunnel, encrypted where the server's key is known.
pub fn choose_route(bypass: Option<&BypassRules>, target: &str, has_server_key: bool) -> (r: ConnRoute)
    ensures
        r == (if bypass matches Some(b) && rules::bypasses(b.keys(), b.networks(), target@) {
            ConnRoute::Direct
        } else if has_server_key {
            ConnRoute::Encrypted
        } else {
            ConnRoute::Plain
        }),
{
    match bypass {
        Some(b) => {
            if b.should_bypass(target) {
                return ConnRoute::Direct;
            }
        },
        None => {},
    }
    if has_server_key {
        ConnRoute::Encrypted
    } else {
        ConnRoute::Plain
    }
}

/// What the client sends to open an unencrypted tunnel, and what it goes on with.
pub struct PlainRequest {
    /// The number of the stream, which is the value of the session cookie.
    pub stream_id: String,
    /// The Cookie header.
    pub cookie: String,
    /// The first frames.
    pub body: Vec<u8>,
    /// The bytes not yet sent.
    pub remaining: Bytes,
    /// The number of the next frame.
    pub next_seq: u64,
}

/// Frames without a cipher, padded as `padding` asks for it.
pub open spec fn is_plain_stream(
    bytes: Seq<u8>,
    encoding: frame::EncodingType,
    chunks: Seq<Seq<u8>>,
    padding: PaddingConfig,
) -> bool {
    laws::is_padded_stream(bytes, encoding, None::<&AesFrameCipher>, 0, chunks, padding)
}

/// What comes of making the request that opens an unencrypted tunnel.
pub open spec fn plainly_prepared(
    payload: Seq<u8>,
    encoding: frame::EncodingType,
    padding: PaddingConfig,
    r: Result<PlainRequest, FrameError>,
) -> bool {
    let limit = frame::raw_limit(false, encoding);
    let first = utils::head(payload, MAX_RAW_PAYLOAD as nat);
    if first.len() > limit {
        r == Err::<PlainRequest, FrameError>(
            FrameError::PayloadTooLarge { len: first.len() as usize, limit },
        )
    } else {
        &&& r matches Ok(request)
        &&& request.stream_id@.len() == 36
        &&& forall|i: int|
            0 <= i < request.stream_id@.len() ==> handlers::is_uuid_char(
                #[trigger] request.stream_id@[i],
            )
        &&& utils::is_padded_cookie(request.cookie@, "session"@, request.stream_id@)
        &&& is_plain_stream(request.body@, encoding, utils::pieces(first), padding)
        &&& buffer::frozen(request.remaining) == payload.skip(first.len() as int)
        &&& request.next_seq == utils::pieces(first).len()
    }
}

/// Makes the request that opens an unencrypted tunnel.
pub fn open_plain_tunnel(payload: &[u8], traffic: &TrafficConfig) -> (r: Result<
    PlainRequest,
    FrameError,
>)
    requires
        config::is_ordered(traffic.global.padding_range),
    ensures
        plainly_prepared(payload@, traffic.encoding_type, traffic.global, r),
{
    let stream_id: String = handlers::new_uuid_text();
    let cookie: String = utils::random_cookie("session", stream_id.as_str());
    let cipher: Option<&AesFrameCipher> = None;
    proof {
        let first = utils::head(payload@, MAX_RAW_PAYLOAD as nat);
        assert(utils::head(first, MAX_RAW_PAYLOAD as nat) == first);
    }
    match utils::encode_initial_payload(payload, MAX_RAW_PAYLOAD, cipher, traffic) {
        Ok((body, remaining, next_seq)) => Ok(
            PlainRequest { stream_id, cookie, body, remaining, next_seq },
        ),
        Err(e) => Err(e),
    }
}

} // verus!
