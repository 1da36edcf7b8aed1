//! What the server works with, from its settings.
use crate::chars;
use crate::config::ServerTopConfig;
use crate::crypto::keys;
use crate::crypto::keys::KeyError;
use crate::server::constants::MAX_TUNNELS;
use crate::shaper::config::PaddingRangeError;
use vstd::prelude::*;
use vstd::string::*;

verus! {

/// Why the server's settings are of no use.
#[derive(Debug, Clone, Copy, PartialEq, Eq, Structural)]
pub enum ServerConfigError {
    /// A padding range is the wrong way round.
    Traffic(PaddingRangeError),
    /// The private key is none.
    PrivateKey(KeyError),
}

impl ServerConfigError {
    /// The error in words.
    pub open spec fn text(self) -> Seq<char> {
        match self {
            ServerConfigError::Traffic(_) => "invalid traffic_shaping config"@,
            ServerConfigError::PrivateKey(e) => e.text(),
        }
    }

    /// The error in words.
    pub fn message(&self) -> (r: String)
        ensures
            r@ == self.text(),
    {
        match self {
            ServerConfigError::Traffic(_) => String::from_str("invalid traffic_shaping config"),
            ServerConfigError::PrivateKey(e) => e.message(),
        }
    }
}

/// What the server works with.
pub struct ServerPlan {
    /// The key behind the public one that clients know.
    pub private_key: Option<[u8; 32]>,
    /// The proxy that targets are reached through.
    pub socks5_proxy: Option<String>,
    /// The most tunnels.
    pub max_tunnels: usize,
}

/// What is wrong with the server's settings, if anything.
pub open spec fn server_defect(config: ServerTopConfig) -> Option<ServerConfigError> {
    match config.traffic_shaping.defect() {
        Some(e) => Some(ServerConfigError::Traffic(e)),
        None => match config.server.private_key {
            Some(k) if keys::decoded_32(k@) is Err => Some(
                ServerConfigError::PrivateKey(keys::decoded_32(k@)->Err_0),
            ),
            _ => None,
        },
    }
}

/// The text of the proxy, where one is set.
pub open spec fn proxy_of(config: ServerTopConfig) -> Option<Seq<char>> {
    match config.proxy {
        Some(section) => match section.socks5 {
            Some(p) => Some(p@),
            None => None,
        },
        None => None,
    }
}

/// Makes what the server works with, from its settings.
pub fn build_state(config: &ServerTopConfig) -> (r: Result<ServerPlan, ServerConfigError>)
    ensures
        match server_defect(*config) {
            Some(e) => r == Err::<ServerPlan, ServerConfigError>(e),
            None => {
                &&& r matches Ok(plan)
                &&& (match config.server.private_key {
                    Some(k) => plan.private_key matches Some(sk) && keys::decoded_32(k@) == Ok::<
                        Seq<u8>,
                        KeyError,
                    >(sk@),
                    None => plan.private_key is None,
                })
                &&& (match plan.socks5_proxy {
                    Some(p) => proxy_of(*config) == Some(p@),
                    None => proxy_of(*config) is None,
                })
                &&& plan.max_tunnels == (match config.server.max_tunnels {
                    Some(m) => m,
                    None => MAX_TUNNELS,
                })
            },
        },
{
    match config.traffic_shaping.validate() {
        Ok(_) => {},
        Err(e) => {
            return Err(ServerConfigError::Traffic(e));
        },
    }
    let private_key: Option<[u8; 32]> = match &config.server.private_key {
        Some(k) => match keys::b64_to_private_key(k.as_str()) {
            Ok(sk) => Some(sk),
            Err(e) => {
                return Err(ServerConfigError::PrivateKey(e));
            },
        },
        None => None,
    };
    let socks5_proxy: Option<String> = match &config.proxy {
        Some(section) => match &section.socks5 {
            Some(p) => Some(String::from_str(p.as_str())),
            None => None,
        },
        None => None,
    };
    let max_tunnels: usize = match config.server.max_tunnels {
        Some(m) => m,
        None => MAX_TUNNELS,
    };
    Ok(ServerPlan { private_key, socks5_proxy, max_tunnels })
}

/// Whether a listen address is the path of a Unix socket.
pub open spec fn is_socket_path(listen: Seq<char>) -> bool {
    listen.contains('/') || ".sock"@.is_suffix_of(listen)
}

/// Whether a listen address is the path of a Unix socket.
pub fn listens_on_path(listen: &str) -> (r: bool)
    ensures
        r == is_socket_path(listen@),
{
    let all: Vec<char> = chars::chars_of(listen);
    match chars::find_char(&all, '/') {
        Some(i) => {
            proof {
                assert(listen@.contains(listen@[i as int]));
            }
            return true;
        },
        None => {},
    }
    proof {
        reveal_strlit(".sock");
    }
    let suffix: Vec<char> = chars::chars_of(".sock");
    let n: usize = all.len();
    if n < 5 {
        return false;
    }
    let tail = vstd::slice::slice_subrange(&all, n - 5, n);
    proof {
        assert(tail@ =~= listen@.skip(n - 5));
        assert(".sock"@.is_suffix_of(listen@) <==> tail@ == ".sock"@) by {
            if ".sock"@.is_suffix_of(listen@) {
                assert(tail@ =~= ".sock"@);
            }
        }
    }
    chars::same_chars(tail, &suffix)
}

} // verus!
