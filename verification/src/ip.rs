//! IP addresses as numbers, and networks of them.
use crate::decimal;
use vstd::arithmetic::power2::pow2;
use vstd::prelude::*;
use vstd::string::*;

verus! {

/// An IP address, as the number that its bytes write.
#[derive(Debug, Clone, Copy, PartialEq, Eq, Structural)]
pub enum IpAddress {
    V4(u32),
    V6(u128),
}

/// The number of an IPv4 address in dotted notation.
pub uninterp spec fn ipv4_number(s: Seq<char>) -> Option<u32>;

/// The number of an IPv6 address in text form.
pub uninterp spec fn ipv6_number(s: Seq<char>) -> Option<u128>;

/// The text form of an IPv6 address.
pub uninterp spec fn ipv6_text(n: u128) -> Seq<char>;

/// `Ipv4Addr::from_str`, the address taken as its number. The address goes through
/// `ip_network::Ipv4Network` of full length, which keeps it as it is.
#[verifier::external_body]
fn read_ipv4(s: &str) -> (r: Option<u32>)
    ensures
        r == ipv4_number(s@),
{
    let host = ip_network::Ipv4Network::new(s.parse().ok()?, 32).ok()?;
    Some(u32::from(host.network_address()))
}

/// `Ipv6Addr::from_str`, the address taken as its number. The address goes through
/// `ip_network::Ipv6Network` of full length, which keeps it as it is.
#[verifier::external_body]
fn read_ipv6(s: &str) -> (r: Option<u128>)
    ensures
        r == ipv6_number(s@),
{
    let host = ip_network::Ipv6Network::new(s.parse().ok()?, 128).ok()?;
    Some(u128::from(host.network_address()))
}

/// `Display` of an `Ipv6Addr`. The text reads back as the address. The address goes
/// through `ip_network::Ipv6Network` of full length, which keeps it as it is.
#[verifier::external_body]
fn write_ipv6(n: u128) -> (r: String)
    ensures
        r@ == ipv6_text(n),
        ipv6_number(r@) == Some(n),
{
    let host = ip_network::Ipv6Network::new(n.into(), 128);
    host.map(|h| h.network_address().to_string()).unwrap_or_default()
}

/// The address that a text writes.
pub open spec fn parsed_ip(s: Seq<char>) -> Option<IpAddress> {
    match ipv4_number(s) {
        Some(n) => Some(IpAddress::V4(n)),
        None => match ipv6_number(s) {
            Some(n) => Some(IpAddress::V6(n)),
            None => None,
        },
    }
}

/// Reads an address.
pub fn parse_ip(s: &str) -> (r: Option<IpAddress>)
    ensures
        r == parsed_ip(s@),
{
    match read_ipv4(s) {
        Some(n) => Some(IpAddress::V4(n)),
        None => match read_ipv6(s) {
            Some(n) => Some(IpAddress::V6(n)),
            None => None,
        },
    }
}

/// The text form of an address.
pub open spec fn ip_text(ip: IpAddress) -> Seq<char> {
    match ip {
        IpAddress::V4(n) => decimal::decimal((n / 0x1000000) as nat) + seq!['.']
            + decimal::decimal((n / 0x10000 % 256) as nat) + seq!['.'] + decimal::decimal(
            (n / 0x100 % 256) as nat,
        ) + seq!['.'] + decimal::decimal((n % 256) as nat),
        IpAddress::V6(n) => ipv6_text(n),
    }
}

/// Writes an address.
pub fn write_ip(ip: IpAddress) -> (r: String)
    ensures
        r@ == ip_text(ip),
{
    match ip {
        IpAddress::V4(n) => {
            let mut out: String = String::new();
            decimal::push_decimal(&mut out, (n / 0x1000000) as u64);
            out.append(".");
            decimal::push_decimal(&mut out, (n / 0x10000 % 256) as u64);
            out.append(".");
            decimal::push_decimal(&mut out, (n / 0x100 % 256) as u64);
            out.append(".");
            decimal::push_decimal(&mut out, (n % 256) as u64);
            proof {
                reveal_strlit(".");
                assert("."@ =~= seq!['.']);
                assert(out@ =~= ip_text(ip));
            }
            out
        },
        IpAddress::V6(n) => write_ipv6(n),
    }
}

/// How many bits an address has.
pub open spec fn width(ip: IpAddress) -> nat {
    match ip {
        IpAddress::V4(_) => 32,
        IpAddress::V6(_) => 128,
    }
}

/// The number of an address.
pub open spec fn number(ip: IpAddress) -> nat {
    match ip {
        IpAddress::V4(n) => n as nat,
        IpAddress::V6(n) => n as nat,
    }
}

/// Whether `ip` agrees with `base` in the first `prefix` bits.
pub open spec fn in_network(base: IpAddress, prefix: u8, ip: IpAddress) -> bool {
    &&& width(base) == width(ip)
    &&& prefix <= width(base)
    &&& number(base) / pow2((width(base) - prefix) as nat) == number(ip) / pow2(
        (width(base) - prefix) as nat,
    )
}

/// Whether `base` is the first address of its network.
pub open spec fn is_base(base: IpAddress, prefix: u8) -> bool {
    prefix <= width(base) && number(base) % pow2((width(base) - prefix) as nat) == 0
}

/// A network holds its base, and one of full length nothing else.
pub proof fn law_single_address(base: IpAddress, ip: IpAddress)
    ensures
        in_network(base, width(base) as u8, ip) <==> base == ip,
{
    vstd::arithmetic::power2::lemma2_to64();
    let prefix = width(base) as u8;
    assert((width(base) - prefix) as nat == 0);
    let one = pow2((width(base) - prefix) as nat);
    assert(one == 1);
    assert(number(base) / one == number(base)) by (nonlinear_arith)
        requires
            one == 1,
    ;
    assert(number(ip) / one == number(ip)) by (nonlinear_arith)
        requires
            one == 1,
    ;
}

/// A network of prefix length zero holds every address of its kind.
pub proof fn law_default_route(base: IpAddress, ip: IpAddress)
    requires
        width(base) == width(ip),
    ensures
        in_network(base, 0, ip),
{
    vstd::arithmetic::power2::lemma2_to64();
    vstd::arithmetic::power2::lemma_pow2_adds(64, 64);
    vstd::arithmetic::power2::lemma_pow2_adds(32, 32);
    let p = pow2(width(base));
    assert(number(base) < p && number(ip) < p);
    assert(number(base) / p == 0) by (nonlinear_arith)
        requires
            number(base) < p,
    ;
    assert(number(ip) / p == 0) by (nonlinear_arith)
        requires
            number(ip) < p,
    ;
}

} // verus!
