//! Networks of IP addresses, kept in a prefix table.
use crate::chars;
use crate::decimal;
use crate::ip;
use crate::ip::IpAddress;
use ip_network::IpNetwork;
use ip_network_table::IpNetworkTable;
use vstd::prelude::*;
use vstd::slice::slice_subrange;
use vstd::string::*;

verus! {

/// The network of the `ip_network` crate.
#[verifier::external_type_specification]
#[verifier::external_body]
pub struct ExIpNetwork(ip_network::IpNetwork);

/// The prefix table of the `ip_network_table` crate.
#[verifier::external_type_specification]
#[verifier::external_body]
#[verifier::reject_recursive_types(T)]
pub struct ExIpNetworkTable<T>(ip_network_table::IpNetworkTable<T>);

/// Whether a network is one of IPv6, the number of its base, and its prefix length.
pub uninterp spec fn network_value(n: IpNetwork) -> (bool, u128, u8);

/// The networks that a table holds.
pub uninterp spec fn table_networks(t: IpNetworkTable<()>) -> Set<(bool, u128, u8)>;

/// A network in plain values.
pub open spec fn plain_network(base: IpAddress, prefix: u8) -> (bool, u128, u8) {
    match base {
        IpAddress::V4(n) => (false, n as u128, prefix),
        IpAddress::V6(n) => (true, n, prefix),
    }
}

/// Whether one of the networks holds an address.
pub open spec fn covered(networks: Set<(bool, u128, u8)>, ip: IpAddress) -> bool {
    exists|base: IpAddress, prefix: u8|
        networks.contains(#[trigger] plain_network(base, prefix)) && ip::in_network(
            base,
            prefix,
            ip,
        )
}

/// `IpNetwork::new`. It refuses a prefix that is too long and a base with bits
/// behind the prefix.
#[verifier::external_body]
fn new_network(base: IpAddress, prefix: u8) -> (r: Option<IpNetwork>)
    ensures
        match r {
            Some(n) => ip::is_base(base, prefix) && network_value(n) == plain_network(base, prefix),
            None => !ip::is_base(base, prefix),
        },
{
    match base {
        IpAddress::V4(n) => IpNetwork::new(n.to_be_bytes(), prefix).ok(),
        IpAddress::V6(n) => IpNetwork::new(n.to_be_bytes(), prefix).ok(),
    }
}

/// `IpNetworkTable::new`: a table without networks.
#[verifier::external_body]
fn table_new() -> (t: IpNetworkTable<()>)
    ensures
        table_networks(t).is_empty(),
{
    IpNetworkTable::new()
}

/// `IpNetworkTable::insert`: the table holds the network from now on.
#[verifier::external_body]
fn table_insert(t: &mut IpNetworkTable<()>, network: IpNetwork)
    ensures
        table_networks(*final(t)) == table_networks(*old(t)).insert(network_value(network)),
{
    t.insert(network, ());
}

/// `IpNetworkTable::longest_match`: whether a network in the table holds the address.
#[verifier::external_body]
fn table_matches(t: &IpNetworkTable<()>, ip: IpAddress) -> (r: bool)
    ensures
        r == covered(table_networks(*t), ip),
{
    match ip {
        IpAddress::V4(n) => t.longest_match(n.to_be_bytes()).is_some(),
        IpAddress::V6(n) => t.longest_match(n.to_be_bytes()).is_some(),
    }
}

/// The networks of IPv6, or those of IPv4.
pub open spec fn of_kind(networks: Set<(bool, u128, u8)>, v6: bool) -> Set<(bool, u128, u8)> {
    networks.filter(|n: (bool, u128, u8)| n.0 == v6)
}

/// There are `count` networks in a finite set.
pub open spec fn counts(networks: Set<(bool, u128, u8)>, count: usize) -> bool {
    networks.finite() && networks.len() == count
}

/// `IpNetworkTable::len`: how many networks of IPv4 and of IPv6 there are.
#[verifier::external_body]
fn table_len(t: &IpNetworkTable<()>) -> (r: (usize, usize))
    ensures
        counts(of_kind(table_networks(*t), false), r.0),
        counts(of_kind(table_networks(*t), true), r.1),
{
    t.len()
}

/// Why a network was refused.
#[derive(Debug, Clone, Copy, PartialEq, Eq, Structural)]
pub enum CidrError {
    /// There is no slash.
    MissingSlash,
    /// The prefix length is no number.
    InvalidPrefix,
    /// The address is none.
    InvalidAddress,
    /// The prefix is longer than an IPv4 address.
    PrefixTooLongV4,
    /// The prefix is longer than an IPv6 address.
    PrefixTooLongV6,
    /// The address has bits behind the prefix.
    HostBits { base: IpAddress, prefix: u8 },
}

impl CidrError {
    /// The error in words, for a network written as `cidr`.
    pub open spec fn text(self, cidr: Seq<char>) -> Seq<char> {
        match self {
            CidrError::MissingSlash => "missing '/' in CIDR `"@ + cidr + "`"@,
            CidrError::InvalidPrefix => "invalid prefix length in `"@ + cidr + "`"@,
            CidrError::InvalidAddress => "invalid IP address in `"@ + cidr + "`"@,
            CidrError::PrefixTooLongV4 => "IPv4 prefix > 32 in `"@ + cidr + "`"@,
            CidrError::PrefixTooLongV6 => "IPv6 prefix > 128 in `"@ + cidr + "`"@,
            CidrError::HostBits { base, prefix } => (match base {
                IpAddress::V4(_) => "invalid IPv4 CIDR "@,
                IpAddress::V6(_) => "invalid IPv6 CIDR "@,
            }) + ip::ip_text(base) + "/"@ + decimal::decimal(prefix as nat),
        }
    }

    /// The error in words, for a network written as `cidr`.
    pub fn message(&self, cidr: &str) -> (r: String)
        ensures
            r@ == self.text(cidr@),
    {
        let lead: &str = match self {
            CidrError::MissingSlash => "missing '/' in CIDR `",
            CidrError::InvalidPrefix => "invalid prefix length in `",
            CidrError::InvalidAddress => "invalid IP address in `",
            CidrError::PrefixTooLongV4 => "IPv4 prefix > 32 in `",
            CidrError::PrefixTooLongV6 => "IPv6 prefix > 128 in `",
            CidrError::HostBits { base, prefix } => {
                let mut out: String = match base {
                    IpAddress::V4(_) => String::from_str("invalid IPv4 CIDR "),
                    IpAddress::V6(_) => String::from_str("invalid IPv6 CIDR "),
                };
                out.append(ip::write_ip(*base).as_str());
                out.append("/");
                decimal::push_decimal(&mut out, *prefix as u64);
                return out;
            },
        };
        let mut out = String::from_str(lead);
        out.append(cidr);
        out.append("`");
        out
    }
}

/// The network that a text writes.
pub open spec fn parsed_cidr(s: Seq<char>) -> Result<(IpAddress, u8), CidrError> {
    match s.index_of_first('/') {
        None => Err(CidrError::MissingSlash),
        Some(i) => match chars::parsed_number(s.skip(i + 1), 255) {
            None => Err(CidrError::InvalidPrefix),
            Some(n) => {
                let prefix = n as u8;
                match ip::parsed_ip(s.take(i)) {
                    None => Err(CidrError::InvalidAddress),
                    Some(base) => if base is V4 && prefix > 32 {
                        Err(CidrError::PrefixTooLongV4)
                    } else if base is V6 && prefix > 128 {
                        Err(CidrError::PrefixTooLongV6)
                    } else if !ip::is_base(base, prefix) {
                        Err(CidrError::HostBits { base, prefix })
                    } else {
                        Ok((base, prefix))
                    },
                }
            },
        },
    }
}

/// Networks of IP addresses.
pub struct IpCidrTable {
    table: IpNetworkTable<()>,
}

impl IpCidrTable {
    /// The networks.
    pub closed spec fn networks(&self) -> Set<(bool, u128, u8)> {
        table_networks(self.table)
    }

    /// A table without networks.
    pub fn new() -> (r: Self)
        ensures
            r.networks().is_empty(),
    {
        IpCidrTable { table: table_new() }
    }

    /// Adds the network that a text writes.
    pub fn insert_cidr(&mut self, cidr: &str) -> (r: Result<(), CidrError>)
        ensures
            match parsed_cidr(cidr@) {
                Ok((base, prefix)) => r is Ok && final(self).networks() == old(self).networks().insert(plain_network(base, prefix)),
                Err(e) => r == Err::<(), CidrError>(e) && final(self).networks() == old(self).networks(),
            },
    {
        let all: Vec<char> = chars::chars_of(cidr);
        let total: usize = all.len();
        let slash: usize = match chars::find_char(&all, '/') {
            Some(i) => i,
            None => {
                return Err(CidrError::MissingSlash);
            },
        };
        let addr = slice_subrange(&all, 0, slash);
        let length = slice_subrange(&all, slash + 1, total);
        proof {
            assert(addr@ =~= cidr@.take(slash as int));
            assert(length@ =~= cidr@.skip(slash as int + 1));
        }
        let prefix: u8 = match chars::parse_number(length, 255) {
            Some(n) => n as u8,
            None => {
                return Err(CidrError::InvalidPrefix);
            },
        };
        let base: IpAddress = match ip::parse_ip(chars::string_from(addr).as_str()) {
            Some(b) => b,
            None => {
                return Err(CidrError::InvalidAddress);
            },
        };
        match base {
            IpAddress::V4(_) => {
                if prefix > 32 {
                    return Err(CidrError::PrefixTooLongV4);
                }
            },
            IpAddress::V6(_) => {
                if prefix > 128 {
                    return Err(CidrError::PrefixTooLongV6);
                }
            },
        }
        match new_network(base, prefix) {
            Some(network) => {
                table_insert(&mut self.table, network);
                Ok(())
            },
            None => Err(CidrError::HostBits { base, prefix }),
        }
    }

    /// Whether a network in the table holds the address.
    pub fn contains(&self, ip: IpAddress) -> (r: bool)
        ensures
            r == covered(self.networks(), ip),
    {
        table_matches(&self.table, ip)
    }

    /// Whether there is no network.
    pub fn is_empty(&self) -> (r: bool)
        ensures
            r == self.networks().is_empty(),
    {
        let (v4len, v6len): (usize, usize) = table_len(&self.table);
        proof {
            let all = self.networks();
            let v4 = of_kind(all, false);
            let v6 = of_kind(all, true);
            assert forall|n: (bool, u128, u8)| all.contains(n) implies v4.contains(n)
                || v6.contains(n) by {}
            if v4len == 0 && v6len == 0 {
                assert(v4 =~= Set::empty()) by {
                    v4.lemma_len0_is_empty();
                }
                assert(v6 =~= Set::empty()) by {
                    v6.lemma_len0_is_empty();
                }
                assert(all =~= Set::empty());
            }
            if all.is_empty() {
                assert(v4 =~= Set::empty());
                assert(v6 =~= Set::empty());
            }
        }
        v4len == 0 && v6len == 0
    }
}

/// A network added to a table covers its own addresses, and leaves what was
/// covered before as it was.
pub proof fn law_network_covers(
    networks: Set<(bool, u128, u8)>,
    base: IpAddress,
    prefix: u8,
    ip: IpAddress,
)
    ensures
        covered(networks.insert(plain_network(base, prefix)), ip) <==> covered(networks, ip)
            || ip::in_network(base, prefix, ip),
{
    let more = networks.insert(plain_network(base, prefix));
    if covered(more, ip) {
        let (b, p) = choose|b: IpAddress, p: u8|
            more.contains(#[trigger] plain_network(b, p)) && ip::in_network(b, p, ip);
        if plain_network(b, p) == plain_network(base, prefix) {
            assert(b == base && p == prefix);
        } else {
            assert(networks.contains(plain_network(b, p)));
        }
    }
    if covered(networks, ip) {
        let (b, p) = choose|b: IpAddress, p: u8|
            networks.contains(#[trigger] plain_network(b, p)) && ip::in_network(b, p, ip);
        assert(more.contains(plain_network(b, p)));
    }
    if ip::in_network(base, prefix, ip) {
        assert(more.contains(plain_network(base, prefix)));
    }
}

} // verus!
