//! What holds of every rule and of every target that it is asked of.
use crate::bypass::cidr;
use crate::bypass::cidr::{CidrError, IpCidrTable};
use crate::bypass::domain;
use crate::bypass::domain::{domain_to_fst_key, DomainFst, FstError};
use crate::bypass::rules;
use crate::bypass::rules::{
    extract_host, BypassFile, BypassLoadError, BypassRules, BypassRulesBuilder,
};
use crate::bypass::trie;
use crate::bypass::trie::{ipv4_to_bits, ipv6_to_bits, DomainTrieNode};
use crate::chars;
use crate::client::connection::{choose_route, ConnRoute};
use crate::decimal;
use crate::ip;
use crate::ip::{parse_ip, write_ip, IpAddress};
use crate::text;
use vstd::arithmetic::power2::pow2;
use vstd::prelude::*;
use vstd::string::*;
use vstd::utf8::*;

verus! {

/// The host of a target is what stands in square brackets, or before the first colon,
/// or everything.
pub proof fn law_host_is_cut_out(target: &str, host: Seq<char>, rest: Seq<char>, r: String)
    requires
        call_ensures(extract_host, (target,), r),
    ensures
        target@ == seq!['['] + host + seq![']'] + rest && !host.contains(']') ==> r@ == host,
        target@ == host + seq![':'] + rest && !host.contains(':') && (host.len() == 0 || host[0]
            != '[') ==> r@ == host,
        target@ == host && !host.contains(':') && (host.len() == 0 || host[0] != '[') ==> r@ == host,
        target@ == seq!['['] + host && !host.contains(']') ==> r@ == host,
{
    let t = target@;
    if t == seq!['['] + host + seq![']'] + rest && !host.contains(']') {
        let inner = t.skip(1);
        assert forall|j: int| 0 <= j < host.len() implies inner[j] != ']' by {
            assert(inner[j] == host[j]);
            assert(host.contains(host[j]));
        }
        assert(inner[host.len() as int] == ']');
        chars::lemma_first_index(inner, ']', host.len() as int);
        assert(inner.take(host.len() as int) =~= host);
    } else if t == seq!['['] + host && !host.contains(']') {
        assert(t.skip(1) =~= host);
        host.index_of_first_ensures(']');
    }
    if t == host + seq![':'] + rest && !host.contains(':') && (host.len() == 0 || host[0] != '[') {
        assert forall|j: int| 0 <= j < host.len() implies t[j] != ':' by {
            assert(host.contains(host[j]));
        }
        assert(t[host.len() as int] == ':');
        chars::lemma_first_index(t, ':', host.len() as int);
        assert(t.take(host.len() as int) =~= host);
    }
    if t == host {
        host.index_of_first_ensures(':');
    }
}

/// The text of an IPv4 address is its four bytes in decimal with dots between.
pub proof fn law_ipv4_is_written_in_bytes(a: u8, b: u8, c: u8, d: u8, n: u32, r: String)
    requires
        n == a * 0x100_0000 + b * 0x1_0000 + c * 0x100 + d,
        call_ensures(write_ip, (IpAddress::V4(n),), r),
    ensures
        r@ == decimal::decimal(a as nat) + seq!['.'] + decimal::decimal(b as nat) + seq!['.']
            + decimal::decimal(c as nat) + seq!['.'] + decimal::decimal(d as nat),
{
    assert(n / 0x100_0000 == a);
    assert(n / 0x1_0000 == a * 256 + b);
    assert(n / 0x1_0000 % 256 == b);
    assert(n / 0x100 == a * 0x1_0000 + b * 0x100 + c);
    assert(n / 0x100 % 256 == c);
    assert(n % 256 == d);
}

/// A text is read as an IPv4 address where it is one, and else as an IPv6 address.
pub proof fn law_addresses_are_read(s: &str, r: Option<IpAddress>)
    requires
        call_ensures(parse_ip, (s,), r),
    ensures
        ip::ipv4_number(s@) is Some ==> r == Some(IpAddress::V4(ip::ipv4_number(s@)->0)),
        ip::ipv4_number(s@) is None && ip::ipv6_number(s@) is Some ==> r == Some(
            IpAddress::V6(ip::ipv6_number(s@)->0),
        ),
        ip::ipv4_number(s@) is None && ip::ipv6_number(s@) is None ==> r is None,
{
}

/// A network is a stretch of addresses of its kind: from its base on as many as the bits
/// behind its prefix can tell apart.
pub proof fn law_network_is_a_stretch(base: IpAddress, prefix: u8, ip: IpAddress)
    requires
        ip::is_base(base, prefix),
    ensures
        base is V4 && ip is V4 ==> (ip::in_network(base, prefix, ip) <==> base->V4_0 <= ip->V4_0
            < base->V4_0 + pow2((32 - prefix) as nat)),
        base is V6 && ip is V6 ==> (ip::in_network(base, prefix, ip) <==> base->V6_0 <= ip->V6_0
            < base->V6_0 + pow2((128 - prefix) as nat)),
        base is V4 && ip is V6 || base is V6 && ip is V4 ==> !ip::in_network(base, prefix, ip),
{
    if ip::width(base) == ip::width(ip) {
        let d = pow2((ip::width(base) - prefix) as nat) as int;
        vstd::arithmetic::power2::lemma_pow2_pos((ip::width(base) - prefix) as nat);
        let b = ip::number(base) as int;
        let x = ip::number(ip) as int;
        vstd::arithmetic::div_mod::lemma_fundamental_div_mod(b, d);
        vstd::arithmetic::div_mod::lemma_fundamental_div_mod(x, d);
        vstd::arithmetic::div_mod::lemma_mod_bound(x, d);
        let q = b / d;
        let p = x / d;
        assert(b == d * q);
        assert(q == p <==> b <= x < b + d) by (nonlinear_arith)
            requires
                b == d * q,
                x == d * p + x % d,
                0 <= x % d < d,
                d > 0,
        ;
    }
}

/// A base has no bits behind its prefix: it is a multiple of what the network holds.
pub proof fn law_base_is_a_multiple(base: IpAddress, prefix: u8, k: nat)
    ensures
        base is V4 && prefix <= 32 && base->V4_0 == k * pow2((32 - prefix) as nat) ==> ip::is_base(
            base,
            prefix,
        ),
        base is V6 && prefix <= 128 && base->V6_0 == k * pow2((128 - prefix) as nat)
            ==> ip::is_base(base, prefix),
        ip::is_base(base, prefix) ==> prefix <= (if base is V4 {
            32int
        } else {
            128int
        }),
{
    if prefix <= ip::width(base) {
        let d = pow2((ip::width(base) - prefix) as nat);
        vstd::arithmetic::power2::lemma_pow2_pos((ip::width(base) - prefix) as nat);
        vstd::arithmetic::div_mod::lemma_mod_multiples_basic(k as int, d as int);
    }
}

/// A network is an address, a slash and the length of its prefix. What is written so
/// covers its stretch of addresses and leaves the rest as it was; what is not is refused,
/// each fault in its own words.
pub proof fn law_networks_are_read(
    t: &mut IpCidrTable,
    text: &str,
    addr: Seq<char>,
    n: nat,
    r: Result<(), CidrError>,
)
    requires
        call_ensures(IpCidrTable::insert_cidr, (t, text), r),
        !addr.contains('/'),
        text@ == addr + seq!['/'] + decimal::decimal(n),
    ensures
        n > 255 ==> r is Err && r->Err_0 == CidrError::InvalidPrefix,
        n <= 255 && ip::parsed_ip(addr) is None ==> r is Err && r->Err_0 == CidrError::InvalidAddress,
        n <= 255 && ip::parsed_ip(addr) is Some ==> {
            let base = ip::parsed_ip(addr)->0;
            &&& base is V4 && n > 32 ==> r is Err && r->Err_0 == CidrError::PrefixTooLongV4
            &&& base is V6 && n > 128 ==> r is Err && r->Err_0 == CidrError::PrefixTooLongV6
            &&& n <= ip::width(base) && !ip::is_base(base, n as u8) ==> r is Err && r->Err_0 == (
            CidrError::HostBits { base, prefix: n as u8 })
            &&& n <= ip::width(base) && ip::is_base(base, n as u8) ==> r is Ok && final(t).networks() == old(t).networks().insert(cidr::plain_network(base, n as u8))
        },
        r is Err ==> final(t).networks() == old(t).networks(),
{
    let s = text@;
    let i = addr.len() as int;
    assert forall|j: int| 0 <= j < i implies s[j] != '/' by {
        assert(addr.contains(addr[j]));
    }
    assert(s[i] == '/');
    chars::lemma_first_index(s, '/', i);
    assert(s.take(i) =~= addr);
    assert(s.skip(i + 1) =~= decimal::decimal(n));
    decimal::law_decimal_roundtrip(n);
    assert('0' <= decimal::decimal(n)[0] <= '9');
}

/// A text without a slash is no network.
pub proof fn law_networks_need_a_slash(t: &mut IpCidrTable, text: &str, r: Result<(), CidrError>)
    requires
        call_ensures(IpCidrTable::insert_cidr, (t, text), r),
        !text@.contains('/'),
    ensures
        r is Err && r->Err_0 == CidrError::MissingSlash,
        final(t).networks() == old(t).networks(),
{
    text@.index_of_first_ensures('/');
}

/// A table with one network holds the addresses of its stretch and no others.
pub proof fn law_table_holds_its_network(
    empty: IpCidrTable,
    t: &mut IpCidrTable,
    text: &str,
    addr: Seq<char>,
    prefix: u8,
    base: IpAddress,
    probe: IpAddress,
    r: bool,
)
    requires
        call_ensures(IpCidrTable::new, (), empty),
        *old(t) == empty,
        call_ensures(IpCidrTable::insert_cidr, (t, text), Ok::<(), CidrError>(())),
        !addr.contains('/'),
        text@ == addr + seq!['/'] + decimal::decimal(prefix as nat),
        ip::parsed_ip(addr) == Some(base),
        ip::is_base(base, prefix),
        call_ensures(IpCidrTable::contains, (&*final(t), probe), r),
    ensures
        base is V4 && probe is V4 ==> (r <==> base->V4_0 <= probe->V4_0 < base->V4_0 + pow2(
            (32 - prefix) as nat,
        )),
        base is V6 && probe is V6 ==> (r <==> base->V6_0 <= probe->V6_0 < base->V6_0 + pow2(
            (128 - prefix) as nat,
        )),
        base is V4 && probe is V6 || base is V6 && probe is V4 ==> !r,
{
    law_networks_are_read(t, text, addr, prefix as nat, Ok(()));
    cidr::law_network_covers(empty.networks(), base, prefix, probe);
    law_network_is_a_stretch(base, prefix, probe);
    assert(!cidr::covered(empty.networks(), probe));
}

/// Letters are compared in lower case: the capital letters of ASCII have their small
/// ones, and every other byte is itself.
pub proof fn law_bytes_in_lower_case(b: u8)
    ensures
        0x41 <= b <= 0x5a ==> domain::lower(b) == b + 32,
        !(0x41 <= b <= 0x5a) ==> domain::lower(b) == b,
{
}

/// Dots go from both ends of a name and from nowhere else.
pub proof fn law_dots_are_cut(s: Seq<u8>, i: int, j: int)
    requires
        0 <= i < j <= s.len(),
        forall|k: int| 0 <= k < i || j <= k < s.len() ==> #[trigger] s[k] == 0x2e,
        s[i] != 0x2e,
        s[j - 1] != 0x2e,
    ensures
        domain::undotted(s) == s.subrange(i, j),
{
    lemma_skip_dots(s, i);
    lemma_drop_dots(s.skip(i), j - i);
    assert(s.skip(i).take(j - i) =~= s.subrange(i, j));
}

proof fn lemma_skip_dots(s: Seq<u8>, i: int)
    requires
        0 <= i < s.len(),
        forall|k: int| 0 <= k < i ==> #[trigger] s[k] == 0x2e,
        s[i] != 0x2e,
    ensures
        domain::skip_dots(s) == s.skip(i),
    decreases i,
{
    if i > 0 {
        assert(s[0] == 0x2e);
        lemma_skip_dots(s.skip(1), i - 1);
        assert(s.skip(1).skip(i - 1) =~= s.skip(i));
    } else {
        assert(s.skip(0) =~= s);
    }
}

proof fn lemma_drop_dots(s: Seq<u8>, j: int)
    requires
        0 < j <= s.len(),
        forall|k: int| j <= k < s.len() ==> #[trigger] s[k] == 0x2e,
        s[j - 1] != 0x2e,
    ensures
        domain::drop_dots(s) == s.take(j),
    decreases s.len(),
{
    if j < s.len() {
        assert(s[s.len() - 1] == 0x2e);
        lemma_drop_dots(s.drop_last(), j);
        assert(s.drop_last().take(j) =~= s.take(j));
    } else {
        assert(s.take(j) =~= s);
    }
}

/// A name of two parts around a dot has the key of the second part, a zero byte, and the
/// first part in lower case; a name of one part is its own key in lower case.
pub proof fn law_keys_turn_names_round(label: Seq<u8>, rest: Seq<u8>)
    requires
        forall|k: int| 0 <= k < label.len() ==> #[trigger] label[k] != 0x2e,
    ensures
        domain::domain_key(label) == domain::lower_all(label),
        domain::domain_key(label + seq![0x2eu8] + rest) == domain::domain_key(rest) + seq![0u8]
            + domain::lower_all(label),
{
    let s = label + seq![0x2eu8] + rest;
    text::lemma_no_index_of_first(label, 0x2eu8);
    text::lemma_index_of_first(s, 0x2eu8, label.len() as int);
    assert(s.skip(label.len() as int + 1) =~= rest);
    assert(s.take(label.len() as int) =~= label);
}

/// The key of a domain is that of the name without the dots around it, and nothing but
/// dots has none.
pub proof fn law_domains_have_keys(domain: &str, i: int, j: int, r: Option<Vec<u8>>)
    requires
        call_ensures(domain_to_fst_key, (domain,), r),
        0 <= i < j <= domain.spec_bytes().len(),
        forall|k: int|
            0 <= k < i || j <= k < domain.spec_bytes().len() ==> #[trigger] domain.spec_bytes()[k]
                == 0x2e,
        domain.spec_bytes()[i] != 0x2e,
        domain.spec_bytes()[j - 1] != 0x2e,
    ensures
        r is Some && r->0@ == domain::domain_key(domain.spec_bytes().subrange(i, j)),
{
    law_dots_are_cut(domain.spec_bytes(), i, j);
}

/// A rule for a domain covers that name and every name that ends in a dot and it,
/// whatever the case of the letters, and no other name.
pub proof fn law_rule_covers_what_is_under(
    empty: BypassRulesBuilder,
    b: &mut BypassRulesBuilder,
    rule: &str,
    built: BypassRules,
    name: &str,
    want: Seq<u8>,
    have: Seq<u8>,
    r: bool,
)
    requires
        call_ensures(BypassRulesBuilder::new, (), empty),
        *old(b) == empty,
        call_ensures(BypassRulesBuilder::add_domain, (b, rule), ()),
        call_ensures(BypassRulesBuilder::build, (*final(b),), Ok::<BypassRules, FstError>(built)),
        call_ensures(BypassRules::match_domain, (&built, name), r),
        want == encode_utf8(rule@),
        have == encode_utf8(name@),
        want.len() > 0,
        have.len() > 0,
        want[0] != 0x2e && want.last() != 0x2e,
        have[0] != 0x2e && have.last() != 0x2e,
        forall|k: int| 0 <= k < want.len() ==> #[trigger] want[k] != 0,
        forall|k: int| 0 <= k < have.len() ==> #[trigger] have[k] != 0,
    ensures
        ({
            let d = have.len() - want.len();
            r <==> d >= 0 && domain::lower_all(have.skip(d)) == domain::lower_all(want) && (d == 0
                || have[d - 1] == 0x2e)
        }),
{
    law_dots_are_cut(want, 0, want.len() as int);
    law_dots_are_cut(have, 0, have.len() as int);
    assert(want.subrange(0, want.len() as int) =~= want);
    assert(have.subrange(0, have.len() as int) =~= have);
    let keys = set![domain::domain_key(want)];
    assert(built.keys() =~= keys);
    domain::law_rule_covers_subdomains(want, have);
    let d = have.len() - want.len();
    if r {
        let j = choose|j: int|
            #[trigger] domain::is_label_start(have, j) && domain::lower_all(have.skip(j))
                == domain::lower_all(want);
        assert(domain::lower_all(have.skip(j)).len() == have.len() - j);
        assert(domain::lower_all(want).len() == want.len());
        assert(j == d);
    }
    if d >= 0 && domain::lower_all(have.skip(d)) == domain::lower_all(want) && (d == 0 || have[d - 1]
        == 0x2e) {
        assert(domain::is_label_start(have, d));
    }
}

/// A target is judged by its host: an address by the networks, a name by the domains.
pub proof fn law_targets_are_judged_by_host(
    rules: &BypassRules,
    target: &str,
    host: &str,
    cut: String,
    parsed: Option<IpAddress>,
    by_name: bool,
    r: bool,
)
    requires
        call_ensures(extract_host, (target,), cut),
        host@ == cut@,
        call_ensures(parse_ip, (host,), parsed),
        call_ensures(BypassRules::match_domain, (rules, host), by_name),
        call_ensures(BypassRules::should_bypass, (rules, target), r),
    ensures
        parsed is None ==> r == by_name,
        parsed is Some ==> r == cidr::covered(rules.networks(), parsed->0),
{
}

/// A target that the rules cover is reached directly, whatever the server's key.
pub proof fn law_covered_targets_go_direct(
    rules: &BypassRules,
    target: &str,
    has_server_key: bool,
    covered: bool,
    r: ConnRoute,
)
    requires
        call_ensures(BypassRules::should_bypass, (rules, target), covered),
        call_ensures(choose_route, (Some(rules), target, has_server_key), r),
    ensures
        r == ConnRoute::Direct <==> covered,
        r == ConnRoute::Encrypted <==> !covered && has_server_key,
        r == ConnRoute::Plain <==> !covered && !has_server_key,
{
}

/// Every domain in a list has its key among those of the list, and no other key is there.
pub proof fn law_lists_hold_their_domains(domains: Seq<Seq<char>>, key: Seq<u8>)
    ensures
        rules::keys_of(domains).contains(key) <==> exists|i: int|
            0 <= i < domains.len() && domain::undotted(encode_utf8(#[trigger] domains[i])).len() > 0
                && key == domain::domain_key(domain::undotted(encode_utf8(domains[i]))),
    decreases domains.len(),
{
    if domains.len() > 0 {
        let front = domains.drop_last();
        let n = domains.len() - 1;
        law_lists_hold_their_domains(front, key);
        assert(domains[n] == domains.last());
        if rules::keys_of(front).contains(key) {
            let i = choose|i: int|
                0 <= i < front.len() && domain::undotted(encode_utf8(#[trigger] front[i])).len() > 0
                    && key == domain::domain_key(domain::undotted(encode_utf8(front[i])));
            assert(domains[i] == front[i]);
        }
        if exists|i: int|
            0 <= i < domains.len() && domain::undotted(encode_utf8(#[trigger] domains[i])).len() > 0
                && key == domain::domain_key(domain::undotted(encode_utf8(domains[i]))) {
            let i = choose|i: int|
                0 <= i < domains.len() && domain::undotted(encode_utf8(#[trigger] domains[i])).len()
                    > 0 && key == domain::domain_key(domain::undotted(encode_utf8(domains[i])));
            if i < n {
                assert(front[i] == domains[i]);
            }
        }
    }
}

/// Every network in a list is among those of the list, and no other is there.
pub proof fn law_lists_hold_their_networks(cidrs: Seq<Seq<char>>, network: (bool, u128, u8))
    ensures
        rules::networks_of(cidrs).contains(network) <==> exists|i: int|
            0 <= i < cidrs.len() && cidr::parsed_cidr(#[trigger] cidrs[i]) is Ok && network
                == cidr::plain_network(
                cidr::parsed_cidr(cidrs[i])->Ok_0.0,
                cidr::parsed_cidr(cidrs[i])->Ok_0.1,
            ),
    decreases cidrs.len(),
{
    if cidrs.len() > 0 {
        let front = cidrs.drop_last();
        let n = cidrs.len() - 1;
        law_lists_hold_their_networks(front, network);
        assert(cidrs[n] == cidrs.last());
        if rules::networks_of(front).contains(network) {
            let i = choose|i: int|
                0 <= i < front.len() && cidr::parsed_cidr(#[trigger] front[i]) is Ok && network
                    == cidr::plain_network(
                    cidr::parsed_cidr(front[i])->Ok_0.0,
                    cidr::parsed_cidr(front[i])->Ok_0.1,
                );
            assert(cidrs[i] == front[i]);
        }
        if exists|i: int|
            0 <= i < cidrs.len() && cidr::parsed_cidr(#[trigger] cidrs[i]) is Ok && network
                == cidr::plain_network(
                cidr::parsed_cidr(cidrs[i])->Ok_0.0,
                cidr::parsed_cidr(cidrs[i])->Ok_0.1,
            ) {
            let i = choose|i: int|
                0 <= i < cidrs.len() && cidr::parsed_cidr(#[trigger] cidrs[i]) is Ok && network
                    == cidr::plain_network(
                    cidr::parsed_cidr(cidrs[i])->Ok_0.0,
                    cidr::parsed_cidr(cidrs[i])->Ok_0.1,
                );
            if i < n {
                assert(front[i] == cidrs[i]);
            }
        }
    }
}

/// Rules of some files hold what each file holds.
pub proof fn law_files_are_joined(files: Seq<(String, BypassFile)>, key: Seq<u8>, network: (bool, u128, u8))
    ensures
        rules::file_keys(files).contains(key) <==> exists|f: int|
            0 <= f < files.len() && rules::keys_of(
                rules::text_views((#[trigger] files[f]).1.domain_suffix@),
            ).contains(key),
        rules::file_networks(files).contains(network) <==> exists|f: int|
            0 <= f < files.len() && rules::networks_of(
                rules::text_views((#[trigger] files[f]).1.ip_cidr@),
            ).contains(network),
    decreases files.len(),
{
    if files.len() > 0 {
        let front = files.drop_last();
        let n = files.len() - 1;
        law_files_are_joined(front, key, network);
        assert(files[n] == files.last());
        if rules::file_keys(front).contains(key) {
            let f = choose|f: int|
                0 <= f < front.len() && rules::keys_of(
                    rules::text_views((#[trigger] front[f]).1.domain_suffix@),
                ).contains(key);
            assert(files[f] == front[f]);
        }
        if exists|f: int|
            0 <= f < files.len() && rules::keys_of(
                rules::text_views((#[trigger] files[f]).1.domain_suffix@),
            ).contains(key) {
            let f = choose|f: int|
                0 <= f < files.len() && rules::keys_of(
                    rules::text_views((#[trigger] files[f]).1.domain_suffix@),
                ).contains(key);
            if f < n {
                assert(front[f] == files[f]);
            }
        }
        if rules::file_networks(front).contains(network) {
            let f = choose|f: int|
                0 <= f < front.len() && rules::networks_of(
                    rules::text_views((#[trigger] front[f]).1.ip_cidr@),
                ).contains(network);
            assert(files[f] == front[f]);
        }
        if exists|f: int|
            0 <= f < files.len() && rules::networks_of(
                rules::text_views((#[trigger] files[f]).1.ip_cidr@),
            ).contains(network) {
            let f = choose|f: int|
                0 <= f < files.len() && rules::networks_of(
                    rules::text_views((#[trigger] files[f]).1.ip_cidr@),
                ).contains(network);
            if f < n {
                assert(front[f] == files[f]);
            }
        }
    }
}

/// The first bits of an address are as many as were asked for, highest first.
pub proof fn law_bits_are_cut(addr: u32, n: u8, wide: u128, m: u8, r: Vec<u8>, s: Vec<u8>)
    requires
        call_ensures(ipv4_to_bits, (addr, n), r),
        call_ensures(ipv6_to_bits, (wide, m), s),
        n <= 32,
        m <= 128,
    ensures
        r@.len() == n,
        s@.len() == m,
        forall|i: int| 0 <= i < n ==> (#[trigger] r@[i]) as int == addr as int / pow2((31 - i) as nat) as int % 2,
        forall|i: int| 0 <= i < m ==> (#[trigger] s@[i]) as int == wide as int / pow2((127 - i) as nat) as int % 2,
{
}

/// The bits of an address run under those of a network just where the network holds the
/// address.
pub proof fn law_bits_tell_networks(base: u32, prefix: u8, addr: u32, a: Vec<u8>, b: Vec<u8>)
    requires
        call_ensures(ipv4_to_bits, (base, prefix), a),
        call_ensures(ipv4_to_bits, (addr, 32), b),
        prefix <= 32,
        ip::is_base(IpAddress::V4(base), prefix),
    ensures
        a@.is_prefix_of(b@) <==> base <= addr < base + pow2((32 - prefix) as nat),
{
    trie::law_prefix_is_network(IpAddress::V4(base), prefix, IpAddress::V4(addr));
    law_network_is_a_stretch(IpAddress::V4(base), prefix, IpAddress::V4(addr));
}

/// A trie of names with one rule in it covers the rule's name and every name that ends in
/// a dot and it, and no other. Dots behind the name that is asked for do not count, nor
/// does one dot in front of the rule.
pub proof fn law_name_trie_covers_what_is_under(
    empty: DomainTrieNode,
    t: &mut DomainTrieNode,
    rule: &str,
    bare: Seq<char>,
    name: &str,
    asked: Seq<char>,
    n: int,
    r: bool,
)
    requires
        call_ensures(DomainTrieNode::default, (), empty),
        *old(t) == empty,
        call_ensures(DomainTrieNode::insert, (t, rule), ()),
        call_ensures(DomainTrieNode::matches, (&*final(t), name), r),
        rule@ == bare && (bare.len() == 0 || bare[0] != '.') || rule@ == seq!['.'] + bare,
        0 <= n <= name@.len(),
        asked == name@.take(n),
        asked.len() == 0 || asked.last() != '.',
        forall|i: int| n <= i < name@.len() ==> name@[i] == '.',
    ensures
        r <==> asked == bare || (asked.len() > bare.len() && asked.skip(asked.len() - bare.len())
            == bare && asked[asked.len() - bare.len() - 1] == '.'),
{
    lemma_last_dots(name@, n);
    if rule@ == seq!['.'] + bare {
        assert(rule@.skip(1) =~= bare);
    }
    assert(trie::without_first_dot(rule@) == bare);
    trie::law_suffix_is_under(bare, asked);
    let labels = trie::labels(asked);
    assert(r == (*final(t)).covers(labels));
    assert(!empty.covers(labels));
    let dotted = seq!['.'].add(bare);
    let d = asked.len() - dotted.len();
    if dotted.is_suffix_of(asked) {
        assert(asked.subrange(d, asked.len() as int) =~= dotted);
        assert(asked.subrange(d, asked.len() as int)[0] == asked[d]);
        assert(asked.skip(d + 1) =~= bare) by {
            assert forall|i: int| 0 <= i < bare.len() implies asked.skip(d + 1)[i] == bare[i] by {
                assert(asked.subrange(d, asked.len() as int)[i + 1] == dotted[i + 1]);
            }
        }
    }
    if asked.len() > bare.len() && asked.skip(asked.len() - bare.len()) == bare
        && asked[asked.len() - bare.len() - 1] == '.' {
        assert(asked.subrange(d, asked.len() as int) =~= dotted) by {
            assert forall|i: int| 0 <= i < dotted.len() implies asked.subrange(
                d,
                asked.len() as int,
            )[i] == dotted[i] by {
                if i > 0 {
                    assert(asked.skip(d + 1)[i - 1] == bare[i - 1]);
                }
            }
        }
    }
}

proof fn lemma_last_dots(s: Seq<char>, n: int)
    requires
        0 <= n <= s.len(),
        n == 0 || s[n - 1] != '.',
        forall|i: int| n <= i < s.len() ==> s[i] == '.',
    ensures
        trie::without_last_dots(s) == s.take(n),
    decreases s.len(),
{
    if n < s.len() {
        lemma_last_dots(s.drop_last(), n);
        assert(s.drop_last().take(n) =~= s.take(n));
    } else {
        assert(s.take(n) =~= s);
    }
}

/// A rule that is added covers what it says and takes nothing from the other rules.
pub proof fn law_rules_add_up(
    b: &mut BypassRulesBuilder,
    text: &str,
    addr: Seq<char>,
    prefix: u8,
    base: IpAddress,
    probe: IpAddress,
    r: Result<(), CidrError>,
    built: BypassRules,
    direct: bool,
)
    requires
        call_ensures(BypassRulesBuilder::add_cidr, (b, text), r),
        !addr.contains('/'),
        text@ == addr + seq!['/'] + decimal::decimal(prefix as nat),
        ip::parsed_ip(addr) == Some(base),
        ip::is_base(base, prefix),
        call_ensures(BypassRulesBuilder::build, (*final(b),), Ok::<BypassRules, FstError>(built)),
        call_ensures(BypassRules::match_ip, (&built, probe), direct),
    ensures
        r is Ok,
        final(b).keys() == old(b).keys(),
        direct <==> cidr::covered(old(b).networks(), probe) || ip::in_network(base, prefix, probe),
{
    let s = text@;
    let i = addr.len() as int;
    assert forall|j: int| 0 <= j < i implies s[j] != '/' by {
        assert(addr.contains(addr[j]));
    }
    assert(s[i] == '/');
    chars::lemma_first_index(s, '/', i);
    assert(s.take(i) =~= addr);
    assert(s.skip(i + 1) =~= decimal::decimal(prefix as nat));
    decimal::law_decimal_roundtrip(prefix as nat);
    assert('0' <= decimal::decimal(prefix as nat)[0] <= '9');
    cidr::law_network_covers(old(b).networks(), base, prefix, probe);
}

/// A file adds its domains whatever its networks, and its networks where all of them are
/// some; else the first that is none is reported by its place.
pub proof fn law_files_are_added(
    b: &mut BypassRulesBuilder,
    file: &BypassFile,
    r: Result<(), (usize, CidrError)>,
)
    requires
        call_ensures(BypassRulesBuilder::add_file, (b, file), r),
    ensures
        final(b).keys() == old(b).keys().union(
            rules::keys_of(rules::text_views(file.domain_suffix@)),
        ),
        r is Ok ==> final(b).networks() == old(b).networks().union(
            rules::networks_of(rules::text_views(file.ip_cidr@)),
        ),
        r is Ok ==> forall|i: int|
            0 <= i < file.ip_cidr@.len() ==> cidr::parsed_cidr((#[trigger] file.ip_cidr@[i])@) is Ok,
        r is Err ==> {
            let (at, error) = r->Err_0;
            &&& at < file.ip_cidr@.len()
            &&& cidr::parsed_cidr(file.ip_cidr@[at as int]@) is Err
            &&& cidr::parsed_cidr(file.ip_cidr@[at as int]@)->Err_0 == error
            &&& forall|i: int|
                0 <= i < at ==> cidr::parsed_cidr((#[trigger] file.ip_cidr@[i])@) is Ok
        },
{
    let texts = rules::text_views(file.ip_cidr@);
    if r is Ok {
        assert forall|i: int| 0 <= i < file.ip_cidr@.len() implies cidr::parsed_cidr(
            (#[trigger] file.ip_cidr@[i])@,
        ) is Ok by {
            assert(cidr::parsed_cidr(texts[i]) is Ok);
        }
    } else {
        let at = r->Err_0.0 as int;
        assert forall|i: int| 0 <= i < at implies cidr::parsed_cidr(
            (#[trigger] file.ip_cidr@[i])@,
        ) is Ok by {
            assert(cidr::parsed_cidr(texts.take(at)[i]) is Ok);
        }
    }
}

/// Rules are loaded where every network in every file is one, and hold what the files
/// hold; there are none exactly where nothing is in them.
pub proof fn law_rules_are_loaded(
    files: &[(String, BypassFile)],
    r: Result<BypassRules, BypassLoadError>,
    empty: bool,
)
    requires
        call_ensures(BypassRules::load, (files,), r),
        r is Ok ==> call_ensures(BypassRules::is_empty, (&r->Ok_0,), empty),
    ensures
        r is Ok ==> r->Ok_0.keys() == rules::file_keys(files@) && r->Ok_0.networks()
            == rules::file_networks(files@),
        r is Ok <==> forall|f: int, i: int|
            #![trigger files@[f].1.ip_cidr@[i]]
            0 <= f < files@.len() && 0 <= i < files@[f].1.ip_cidr@.len() ==> cidr::parsed_cidr(
                files@[f].1.ip_cidr@[i]@,
            ) is Ok,
        r is Ok ==> (empty <==> (forall|k: Seq<u8>| !rules::file_keys(files@).contains(k)) && (
        forall|n: (bool, u128, u8)| !rules::file_networks(files@).contains(n))),
{
    if r is Ok {
        assert forall|f: int, i: int|
            #![trigger files@[f].1.ip_cidr@[i]]
            0 <= f < files@.len() && 0 <= i < files@[f].1.ip_cidr@.len() implies cidr::parsed_cidr(
            files@[f].1.ip_cidr@[i]@,
        ) is Ok by {
            let texts = rules::text_views(files@[f].1.ip_cidr@);
            assert(rules::all_parse(texts));
            assert(cidr::parsed_cidr(texts[i]) is Ok);
        }
        let keys = rules::file_keys(files@);
        let networks = rules::file_networks(files@);
        if forall|k: Seq<u8>| !keys.contains(k) {
            assert(keys =~= Set::empty());
        }
        if forall|n: (bool, u128, u8)| !networks.contains(n) {
            assert(networks =~= Set::empty());
        }
    } else {
        let e = r->Err_0;
        let (f, i) = choose|f: int, i: int|
            #[trigger] rules::is_first_bad(files@, f, i) && (e matches BypassLoadError::Network {
                path,
                cidr,
                error,
            } && path@ == files@[f].0@ && cidr@ == files@[f].1.ip_cidr@[i]@ && cidr::parsed_cidr(
                cidr@,
            ) == Err::<(IpAddress, u8), CidrError>(error));
        assert(cidr::parsed_cidr(files@[f].1.ip_cidr@[i]@) is Err);
    }
}

/// A set of domains covers a name as its keys do, in whatever order and how often they
/// were given.
pub proof fn law_sets_hold_their_keys(
    given: Vec<Vec<u8>>,
    set: DomainFst,
    i: int,
    key: Seq<u8>,
    empty: bool,
)
    requires
        call_ensures(DomainFst::from_keys, (given,), Ok::<DomainFst, FstError>(set)),
        call_ensures(DomainFst::is_empty, (&set,), empty),
    ensures
        0 <= i < given@.len() ==> set.keys().contains(given@[i]@),
        set.keys().contains(key) ==> exists|k: int| 0 <= k < given@.len() && #[trigger] given@[k]@ == key,
        empty <==> given@.len() == 0,
{
    let views = domain::key_views(given@);
    if 0 <= i < given@.len() {
        assert(views[i] == given@[i]@);
        assert(views.contains(views[i]));
    }
    if set.keys().contains(key) {
        let k = choose|k: int| 0 <= k < views.len() && views[k] == key;
        assert(given@[k]@ == key);
    }
    if given@.len() == 0 {
        assert(set.keys() =~= Set::empty());
    } else {
        assert(views.contains(views[0]));
        assert(set.keys().contains(views[0]));
    }
}

} // verus!
