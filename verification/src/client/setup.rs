//! What the client works with, from its settings.
use crate::bypass::BypassRules;
use crate::client::constants::{
    MAX_IN_FLIGHT_BYTES, MAX_LOCAL_CONNECTIONS, MIN_IN_FLIGHT_BYTES, UPLOAD_CONCURRENCY,
};
use crate::client::proxy;
use crate::config::{ClientProxyAuth, ClientTopConfig};
use crate::crypto::keys;
use crate::crypto::keys::KeyError;
use crate::decimal;
use crate::shaper::config;
use crate::shaper::config::PaddingRangeError;
use crate::shaper::ResolvedShaperConfig;
use base64::Engine;
use vstd::prelude::*;
use vstd::string::*;
use vstd::utf8::*;

verus! {

/// Why the client's settings are of no use.
#[derive(Debug, Clone, Copy, PartialEq, Eq, Structural)]
pub enum ClientConfigError {
    /// A padding range is the wrong way round.
    Traffic(PaddingRangeError),
    /// Not even one frame may be in flight.
    InFlight(usize),
    /// Not even one request may be in flight.
    Concurrency,
    /// The server's key is none.
    PublicKey(KeyError),
    /// The server's address is no URL.
    Remote,
}

impl ClientConfigError {
    /// The error in words.
    pub open spec fn text(self) -> Seq<char> {
        match self {
            ClientConfigError::Traffic(_) => "invalid traffic_shaping config"@,
            ClientConfigError::InFlight(n) => "max_in_flight_bytes ("@ + decimal::decimal(n as nat)
                + ") must be at least "@ + decimal::decimal(MIN_IN_FLIGHT_BYTES as nat)
                + " (one maximum-size encoded frame)"@,
            ClientConfigError::Concurrency => "upload_concurrency must be at least 1"@,
            ClientConfigError::PublicKey(e) => e.text(),
            ClientConfigError::Remote => "invalid server URL"@,
        }
    }

    /// The error in words.
    pub fn message(&self) -> (r: String)
        ensures
            r@ == self.text(),
    {
        match self {
            ClientConfigError::Traffic(_) => String::from_str("invalid traffic_shaping config"),
            ClientConfigError::InFlight(n) => {
                let mut out = String::from_str("max_in_flight_bytes (");
                decimal::push_decimal(&mut out, *n as u64);
                out.append(") must be at least ");
                decimal::push_decimal(&mut out, MIN_IN_FLIGHT_BYTES as u64);
                out.append(" (one maximum-size encoded frame)");
                out
            },
            ClientConfigError::Concurrency => String::from_str(
                "upload_concurrency must be at least 1",
            ),
            ClientConfigError::PublicKey(e) => e.message(),
            ClientConfigError::Remote => String::from_str("invalid server URL"),
        }
    }
}

/// A setting, or its default.
pub open spec fn setting(value: Option<usize>, default_value: usize) -> usize {
    match value {
        Some(v) => v,
        None => default_value,
    }
}

fn setting_or(value: Option<usize>, default_value: usize) -> (r: usize)
    ensures
        r == setting(value, default_value),
{
    match value {
        Some(v) => v,
        None => default_value,
    }
}

/// What is wrong with the client's limits, if anything.
pub open spec fn limits_defect(cfg: ClientTopConfig) -> Option<ClientConfigError> {
    let bytes = setting(cfg.client.max_in_flight_bytes, MAX_IN_FLIGHT_BYTES);
    let requests = setting(cfg.client.upload_concurrency, UPLOAD_CONCURRENCY);
    match cfg.traffic_shaping.defect() {
        Some(e) => Some(ClientConfigError::Traffic(e)),
        None => if bytes < MIN_IN_FLIGHT_BYTES {
            Some(ClientConfigError::InFlight(bytes))
        } else if requests == 0 {
            Some(ClientConfigError::Concurrency)
        } else {
            None
        },
    }
}

/// Checks padding and limits.
pub fn check_limits(cfg: &ClientTopConfig) -> (r: Result<(), ClientConfigError>)
    ensures
        match limits_defect(*cfg) {
            Some(e) => r == Err::<(), ClientConfigError>(e),
            None => r is Ok,
        },
{
    match cfg.traffic_shaping.validate() {
        Ok(_) => {},
        Err(e) => {
            return Err(ClientConfigError::Traffic(e));
        },
    }
    let bytes: usize = setting_or(cfg.client.max_in_flight_bytes, MAX_IN_FLIGHT_BYTES);
    if bytes < MIN_IN_FLIGHT_BYTES {
        return Err(ClientConfigError::InFlight(bytes));
    }
    if setting_or(cfg.client.upload_concurrency, UPLOAD_CONCURRENCY) == 0 {
        return Err(ClientConfigError::Concurrency);
    }
    Ok(())
}

/// The text of a URL in its normal form, where it is one.
pub open spec fn normal_url(s: Seq<char>) -> Option<Seq<char>> {
    match proxy::url_parts(s) {
        Some((href, _, _, _, _, _)) => Some(href),
        None => None,
    }
}

/// The host of a URL, where there is one.
pub open spec fn url_host(s: Seq<char>) -> Option<Seq<char>> {
    match proxy::url_parts(s) {
        Some((_, host, _, _, _, _)) => host,
        None => None,
    }
}

/// Where a server is connected, given the host of its URL: at the configured
/// address, or else at the host. A URL without a host will not do.
pub fn address_for_host(address: Option<&str>, host: Option<&str>) -> (r: Option<String>)
    ensures
        match host {
            None => r is None,
            Some(h) => r matches Some(s) && s@ == (match address {
                Some(a) => a@,
                None => h@,
            }),
        },
{
    match host {
        None => None,
        Some(h) => match address {
            Some(a) => Some(String::from_str(a)),
            None => Some(String::from_str(h)),
        },
    }
}

/// Where the server is connected, given its URL: at the configured address, or else
/// at the URL's host. A URL without a host will not do.
pub fn server_address(address: Option<&str>, remote: &str) -> (r: Option<String>)
    ensures
        match url_host(remote@) {
            None => r is None,
            Some(h) => r matches Some(s) && s@ == (match address {
                Some(a) => a@,
                None => h,
            }),
        },
{
    match proxy::parse_url(remote) {
        None => None,
        Some(url) => match &url.host {
            None => None,
            Some(h) => address_for_host(address, Some(h.as_str())),
        },
    }
}

/// The Base64 text of some bytes in the standard alphabet, with padding.
pub uninterp spec fn standard_base64(data: Seq<u8>) -> Seq<char>;

/// `Engine::encode` of `STANDARD`. It panics where the text could not be allocated.
#[verifier::external_body]
fn encode_standard(data: &[u8]) -> (r: String)
    requires
        2 * data@.len() + 4 <= isize::MAX,
    ensures
        r@ == standard_base64(data@),
{
    base64::engine::general_purpose::STANDARD.encode(data)
}

/// The credentials that a local program sends, as Basic authentication writes them.
pub open spec fn basic_auth(username: Seq<char>, password: Seq<char>) -> Seq<char> {
    "Basic "@ + standard_base64(encode_utf8(username + seq![':'] + password))
}

/// Writes the credentials as Basic authentication does.
pub fn expected_auth(auth: &ClientProxyAuth) -> (r: String)
    requires
        2 * encode_utf8(auth.username@ + seq![':'] + auth.password@).len() + 4 <= isize::MAX,
    ensures
        r@ == basic_auth(auth.username@, auth.password@),
{
    let mut pair = String::from_str(auth.username.as_str());
    pair.append(":");
    pair.append(auth.password.as_str());
    proof {
        reveal_strlit(":");
        assert(":"@ =~= seq![':']);
        assert(pair@ =~= auth.username@ + seq![':'] + auth.password@);
    }
    let mut out = String::from_str("Basic ");
    out.append(encode_standard(pair.as_str().as_bytes()).as_str());
    out
}

/// What the client works with.
pub struct SharedState {
    /// The server's URL.
    pub remote_str: String,
    /// The Authorization header.
    pub auth_header: String,
    /// Padding, ready for use.
    pub resolved_traffic: ResolvedShaperConfig,
    /// Which targets are reached directly.
    pub bypass: Option<BypassRules>,
    /// The server's key, where tunnels are encrypted.
    pub server_public_key: Option<[u8; 32]>,
    /// What local programs must send, and the user that it names.
    pub proxy_auth: Option<(String, String)>,
    /// The length of a download segment.
    pub max_download_bytes: Option<u64>,
    /// The most local connections.
    pub max_connections: usize,
    /// The most upload bytes in flight.
    pub max_in_flight_bytes: usize,
    /// The most upload requests in flight.
    pub upload_concurrency: usize,
}

/// What is wrong with the client's key and address, if anything.
pub open spec fn address_defect(cfg: ClientTopConfig) -> Option<ClientConfigError> {
    match cfg.client.public_key {
        Some(k) if keys::decoded_32(k@) is Err => Some(
            ClientConfigError::PublicKey(keys::decoded_32(k@)->Err_0),
        ),
        _ => if normal_url(cfg.client.remote@) is None {
            Some(ClientConfigError::Remote)
        } else {
            None
        },
    }
}

/// `s` is made of these settings.
pub open spec fn is_state_of(cfg: ClientTopConfig, bypass: Option<BypassRules>, s: SharedState) -> bool {
    &&& normal_url(cfg.client.remote@) == Some(s.remote_str@)
    &&& s.auth_header@ == "Bearer "@ + cfg.auth.token@
    &&& config::in_packet_order(s.resolved_traffic.stages@)
    &&& s.resolved_traffic.global_threshold == cfg.traffic_shaping.global.padding_threshold
    &&& s.resolved_traffic.global_range == cfg.traffic_shaping.global.padding_range
    &&& s.resolved_traffic.encoding == cfg.traffic_shaping.encoding_type
    &&& s.resolved_traffic.stages@.to_multiset() == cfg.traffic_shaping.stages@.map_values(
        |st: config::StageConfig| config::resolved_stage(st),
    ).to_multiset()
    &&& (match bypass {
        Some(b) => if b.keys().is_empty() && b.networks().is_empty() {
            s.bypass is None
        } else {
            s.bypass == Some(b)
        },
        None => s.bypass is None,
    })
    &&& (match cfg.client.public_key {
        Some(k) => s.server_public_key matches Some(pk) && keys::decoded_32(k@) == Ok::<
            Seq<u8>,
            KeyError,
        >(pk@),
        None => s.server_public_key is None,
    })
    &&& (match cfg.client.auth {
        Some(a) => s.proxy_auth matches Some((expected, user)) && expected@ == basic_auth(
            a.username@,
            a.password@,
        ) && user@ == a.username@,
        None => s.proxy_auth is None,
    })
    &&& s.max_download_bytes == cfg.traffic_shaping.max_download_bytes
    &&& s.max_connections == setting(cfg.client.max_connections, MAX_LOCAL_CONNECTIONS)
    &&& s.max_in_flight_bytes == setting(cfg.client.max_in_flight_bytes, MAX_IN_FLIGHT_BYTES)
    &&& s.upload_concurrency == setting(cfg.client.upload_concurrency, UPLOAD_CONCURRENCY)
}

/// Makes what the client works with, from its settings and the rules that were
/// read. Rules that cover nothing are dropped.
pub fn build_state(cfg: &ClientTopConfig, bypass: Option<BypassRules>) -> (r: Result<
    SharedState,
    ClientConfigError,
>)
    requires
        cfg.client.auth matches Some(a) ==> 2 * encode_utf8(
            a.username@ + seq![':'] + a.password@,
        ).len() + 4 <= isize::MAX,
    ensures
        match limits_defect(*cfg) {
            Some(e) => r == Err::<SharedState, ClientConfigError>(e),
            None => match address_defect(*cfg) {
                Some(e) => r == Err::<SharedState, ClientConfigError>(e),
                None => r matches Ok(s) && is_state_of(*cfg, bypass, s),
            },
        },
{
    match check_limits(cfg) {
        Ok(_) => {},
        Err(e) => {
            return Err(e);
        },
    }
    let bypass: Option<BypassRules> = match bypass {
        Some(b) => if b.is_empty() {
            None
        } else {
            Some(b)
        },
        None => None,
    };
    let server_public_key: Option<[u8; 32]> = match &cfg.client.public_key {
        Some(k) => match keys::b64_to_public_key(k.as_str()) {
            Ok(pk) => Some(pk),
            Err(e) => {
                return Err(ClientConfigError::PublicKey(e));
            },
        },
        None => None,
    };
    let remote_str: String = match proxy::parse_url(cfg.client.remote.as_str()) {
        Some(u) => u.href,
        None => {
            return Err(ClientConfigError::Remote);
        },
    };
    let proxy_auth: Option<(String, String)> = match &cfg.client.auth {
        Some(a) => Some((expected_auth(a), String::from_str(a.username.as_str()))),
        None => None,
    };
    let mut auth_header = String::from_str("Bearer ");
    auth_header.append(cfg.auth.token.as_str());
    Ok(
        SharedState {
            remote_str,
            auth_header,
            resolved_traffic: ResolvedShaperConfig::resolve(&cfg.traffic_shaping),
            bypass,
            server_public_key,
            proxy_auth,
            max_download_bytes: cfg.traffic_shaping.max_download_bytes,
            max_connections: setting_or(cfg.client.max_connections, MAX_LOCAL_CONNECTIONS),
            max_in_flight_bytes: setting_or(cfg.client.max_in_flight_bytes, MAX_IN_FLIGHT_BYTES),
            upload_concurrency: setting_or(cfg.client.upload_concurrency, UPLOAD_CONCURRENCY),
        },
    )
}

} // verus!
