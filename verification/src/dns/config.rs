//! Settings of name resolution.
use crate::decimal;
use crate::ip;
use crate::ip::IpAddress;
use vstd::prelude::*;
use vstd::string::*;

verus! {

/// How the upstream resolver is reached.
#[derive(Debug, Clone, Copy, PartialEq, Eq, Structural)]
pub enum Protocol {
    /// Over UDP.
    Udp,
    /// Over TLS.
    Dot,
}

/// The address and port of a resolver.
#[derive(Debug, Clone, Copy, PartialEq, Eq, Structural)]
pub struct Endpoint {
    pub ip: IpAddress,
    pub port: u16,
}

/// Settings that have a default. Times are in seconds, unless the name says otherwise.
#[derive(Debug, Clone, Copy, PartialEq, Eq, Structural)]
pub struct DnsOptions {
    pub protocol: Protocol,
    pub prefer_ipv6: bool,
    pub cache_size: u64,
    pub client_subnet: Option<IpAddress>,
    pub min_ttl: u64,
    pub max_ttl: u64,
    pub swr_ttl: u64,
    pub empty_ttl: u64,
    pub happy_eyeballs_delay_ms: u64,
    pub max_concurrent_queries: usize,
}

impl Default for DnsOptions {
    fn default() -> (r: Self)
        ensures
            r == (DnsOptions {
                protocol: Protocol::Udp,
                prefer_ipv6: false,
                cache_size: 1024,
                client_subnet: None,
                min_ttl: 30,
                max_ttl: 3600,
                swr_ttl: 3600,
                empty_ttl: 300,
                happy_eyeballs_delay_ms: 250,
                max_concurrent_queries: 1024,
            }),
    {
        DnsOptions {
            protocol: Protocol::Udp,
            prefer_ipv6: false,
            cache_size: 1024,
            client_subnet: None,
            min_ttl: 30,
            max_ttl: 3600,
            swr_ttl: 3600,
            empty_ttl: 300,
            happy_eyeballs_delay_ms: 250,
            max_concurrent_queries: 1024,
        }
    }
}

/// Settings of name resolution.
#[derive(Debug)]
pub struct DnsConfig {
    pub upstream: Endpoint,
    pub tls_domain: Option<String>,
    pub options: DnsOptions,
}

/// Why name resolution could not be set up.
#[derive(Debug, Clone, Copy, PartialEq, Eq, Structural)]
pub enum DnsInitError {
    /// The bounds of a time to live are the wrong way round.
    TtlBounds { min_ttl: u64, max_ttl: u64 },
    /// TLS has no name to check.
    NoTlsDomain,
}

impl DnsInitError {
    /// The error in words.
    pub open spec fn text(self) -> Seq<char> {
        match self {
            DnsInitError::TtlBounds { min_ttl, max_ttl } => "dns.options.min_ttl ("@
                + decimal::decimal(min_ttl as nat) + ") must not exceed max_ttl ("@
                + decimal::decimal(max_ttl as nat) + ")"@,
            DnsInitError::NoTlsDomain => "DoT requires a TLS domain"@,
        }
    }

    /// The error in words.
    pub fn message(&self) -> (r: String)
        ensures
            r@ == self.text(),
    {
        match self {
            DnsInitError::TtlBounds { min_ttl, max_ttl } => {
                let mut out = String::from_str("dns.options.min_ttl (");
                decimal::push_decimal(&mut out, *min_ttl);
                out.append(") must not exceed max_ttl (");
                decimal::push_decimal(&mut out, *max_ttl);
                out.append(")");
                out
            },
            DnsInitError::NoTlsDomain => String::from_str("DoT requires a TLS domain"),
        }
    }
}

/// The name that TLS checks, where TLS is used: the configured one, or the
/// upstream address.
pub open spec fn tls_name(config: DnsConfig) -> Option<Seq<char>> {
    match config.tls_domain {
        Some(d) => Some(d@),
        None => if config.options.protocol == Protocol::Dot {
            Some(ip::ip_text(config.upstream.ip))
        } else {
            None
        },
    }
}

/// Completes the settings and checks them.
pub fn complete_config(config: &mut DnsConfig) -> (r: Result<(), DnsInitError>)
    ensures
        final(config).upstream == old(config).upstream,
        final(config).options == old(config).options,
        tls_name(*old(config)) == (match final(config).tls_domain {
            Some(d) => Some(d@),
            None => None,
        }),
        r == (if old(config).options.min_ttl > old(config).options.max_ttl {
            Err::<(), DnsInitError>(
                DnsInitError::TtlBounds {
                    min_ttl: old(config).options.min_ttl,
                    max_ttl: old(config).options.max_ttl,
                },
            )
        } else {
            Ok::<(), DnsInitError>(())
        }),
{
    if config.options.protocol == Protocol::Dot && config.tls_domain.is_none() {
        config.tls_domain = Some(ip::write_ip(config.upstream.ip));
    }
    if config.options.min_ttl > config.options.max_ttl {
        return Err(
            DnsInitError::TtlBounds {
                min_ttl: config.options.min_ttl,
                max_ttl: config.options.max_ttl,
            },
        );
    }
    Ok(())
}

} // verus!
