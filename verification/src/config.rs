//! The settings of both programs.
use crate::bypass::BypassConfig;
use crate::dns::config::DnsConfig;
use crate::log::LogConfig;
use crate::shaper::TrafficConfig;
use vstd::prelude::*;

verus! {

/// The settings of the server.
#[derive(Debug)]
pub struct ServerTopConfig {
    pub server: ServerSection,
    pub auth: AuthSection,
    pub proxy: Option<ProxySection>,
    pub log: Option<LogConfig>,
    pub dns: Option<DnsConfig>,
    pub traffic_shaping: TrafficConfig,
}

/// The settings of the client.
#[derive(Debug)]
pub struct ClientTopConfig {
    pub client: ClientSection,
    pub auth: ClientAuthSection,
    pub log: Option<LogConfig>,
    pub traffic_shaping: TrafficConfig,
    pub bypass: BypassConfig,
}

/// What tokens are signed with.
#[derive(Debug)]
pub struct AuthSection {
    pub secret: String,
}

/// The proxy that the server goes through.
#[derive(Debug)]
pub struct ProxySection {
    pub socks5: Option<String>,
}

/// Where the server listens, and what it allows.
#[derive(Debug)]
pub struct ServerSection {
    pub listen: String,
    pub path: String,
    pub private_key: Option<String>,
    pub max_tunnels: Option<usize>,
}

/// Where the client listens, where its server is, and what it allows.
#[derive(Debug)]
pub struct ClientSection {
    pub listen: String,
    pub remote: String,
    pub address: Option<String>,
    pub public_key: Option<String>,
    pub auth: Option<ClientProxyAuth>,
    pub max_connections: Option<usize>,
    pub max_in_flight_bytes: Option<usize>,
    pub upload_concurrency: Option<usize>,
}

/// The credentials that local programs must give.
#[derive(Debug)]
pub struct ClientProxyAuth {
    pub username: String,
    pub password: String,
}

/// The client's token.
#[derive(Debug)]
pub struct ClientAuthSection {
    pub token: String,
}

} // verus!
