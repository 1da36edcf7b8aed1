//! Which targets are reached directly: by the suffix of their name or the
//! network of their address.
pub mod cidr;
pub mod domain;
pub mod laws;
pub mod rules;
pub mod trie;

pub use cidr::{CidrError, IpCidrTable};
pub use domain::{domain_to_fst_key, DomainFst, FstError};
pub use rules::{
    extract_host, BypassConfig, BypassFile, BypassLoadError, BypassRules, BypassRulesBuilder,
};
pub use trie::{ipv4_to_bits, ipv6_to_bits, DomainTrieNode, IpTrieNode};
