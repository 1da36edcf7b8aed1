use httproxy::bypass::{
    domain_to_fst_key, extract_host, ipv4_to_bits, ipv6_to_bits, BypassConfig, BypassFile,
    BypassLoadError, BypassRules, BypassRulesBuilder, CidrError, DomainTrieNode, IpTrieNode,
};
use httproxy::ip::{parse_ip, write_ip, IpAddress};

fn make_rules(domains: &[&str], cidrs: &[&str]) -> BypassRules {
    let mut b = BypassRulesBuilder::new();
    for d in domains {
        b.add_domain(d);
    }
    for c in cidrs {
        b.add_cidr(c).unwrap();
    }
    b.build().unwrap()
}

fn ip(s: &str) -> IpAddress {
    parse_ip(s).unwrap()
}

#[test]
fn bypass_domain_exact_match() {
    let r = make_rules(&["example.com"], &[]);
    assert!(r.match_domain("example.com"));
    assert!(r.match_domain("sub.example.com"));
    assert!(!r.match_domain("notexample.com"));
    assert!(!r.match_domain("com"));
}

#[test]
fn domain_leading_dot() {
    let r = make_rules(&[".example.com"], &[]);
    assert!(r.match_domain("example.com"));
    assert!(r.match_domain("a.b.example.com"));
    assert!(!r.match_domain("fakeexample.com"));
}

#[test]
fn domain_nested() {
    let r = make_rules(&["google.com"], &[]);
    assert!(r.match_domain("mail.google.com"));
    assert!(r.match_domain("deep.nested.google.com"));
    assert!(!r.match_domain("notgoogle.com"));
}

#[test]
fn bypass_domain_tld_wildcard() {
    let r = make_rules(&["com"], &[]);
    assert!(r.match_domain("anything.com"));
    assert!(r.match_domain("a.b.c.com"));
    assert!(!r.match_domain("anything.net"));
}

#[test]
fn bypass_ip_exact() {
    let r = make_rules(&[], &["1.1.1.1/32"]);
    assert!(r.match_ip(ip("1.1.1.1")));
    assert!(!r.match_ip(ip("1.1.1.2")));
}

#[test]
fn bypass_ip_subnet() {
    let r = make_rules(&[], &["8.8.8.0/24"]);
    assert!(r.match_ip(ip("8.8.8.1")));
    assert!(r.match_ip(ip("8.8.8.254")));
    assert!(!r.match_ip(ip("8.8.9.1")));
}

#[test]
fn bypass_ip_default_route() {
    let r = make_rules(&[], &["0.0.0.0/0"]);
    assert!(r.match_ip(IpAddress::V4(0x01020304)));
    assert!(r.match_ip(IpAddress::V4(0xffffffff)));
}

#[test]
fn bypass_ipv6_cidr() {
    let r = make_rules(&[], &["2001:db8::/32"]);
    assert!(r.match_ip(ip("2001:db8::1")));
    assert!(!r.match_ip(ip("2001:db9::1")));
}

#[test]
fn bypass_should_bypass_host_port() {
    let r = make_rules(&["example.com"], &["1.1.1.1/32"]);
    assert!(r.should_bypass("example.com:443"));
    assert!(r.should_bypass("sub.example.com:80"));
    assert!(r.should_bypass("1.1.1.1:53"));
    assert!(!r.should_bypass("other.com:443"));
    assert!(!r.should_bypass("1.1.1.2:53"));
}

#[test]
fn bypass_should_bypass_ipv6_bracket() {
    let r = make_rules(&[], &["::1/128"]);
    assert!(r.should_bypass("[::1]:80"));
    assert!(!r.should_bypass("[::2]:80"));
}

#[test]
fn bypass_extract_host_cases() {
    assert_eq!(extract_host("example.com:443"), "example.com");
    assert_eq!(extract_host("[::1]:80"), "::1");
    assert_eq!(extract_host("1.2.3.4:80"), "1.2.3.4");
    assert_eq!(extract_host("example.com"), "example.com");
}

#[test]
fn mod_domain_exact_match() {
    let r = make_rules(&["example.com"], &[]);
    assert!(r.match_domain("example.com"));
    assert!(r.match_domain("sub.example.com"));
    assert!(r.match_domain("deep.sub.example.com"));
    assert!(!r.match_domain("notexample.com"));
    assert!(!r.match_domain("com"));
}

#[test]
fn mod_domain_tld_wildcard() {
    let r = make_rules(&["com"], &[]);
    assert!(r.match_domain("anything.com"));
    assert!(r.match_domain("a.b.c.com"));
    assert!(!r.match_domain("anything.net"));
}

#[test]
fn domain_case_insensitive() {
    let r = make_rules(&["Example.COM"], &[]);
    assert!(r.match_domain("example.com"));
    assert!(r.match_domain("Sub.Example.Com"));
    assert!(!r.match_domain("other.net"));
}

#[test]
fn domain_dedup() {
    let r = make_rules(&["example.com", "example.com", ".example.com"], &[]);
    assert!(r.match_domain("example.com"));
    assert!(r.match_domain("sub.example.com"));
}

#[test]
fn mod_ip_exact() {
    let r = make_rules(&[], &["1.1.1.1/32"]);
    assert!(r.match_ip(ip("1.1.1.1")));
    assert!(!r.match_ip(ip("1.1.1.2")));
}

#[test]
fn mod_ip_subnet() {
    let r = make_rules(&[], &["8.8.8.0/24"]);
    assert!(r.match_ip(ip("8.8.8.1")));
    assert!(r.match_ip(ip("8.8.8.254")));
    assert!(!r.match_ip(ip("8.8.9.1")));
}

#[test]
fn mod_ip_default_route() {
    let r = make_rules(&[], &["0.0.0.0/0"]);
    assert!(r.match_ip(IpAddress::V4(0x01020304)));
    assert!(r.match_ip(IpAddress::V4(0xffffffff)));
    assert!(!r.match_ip(ip("::1")));
}

#[test]
fn mod_ipv6_cidr() {
    let r = make_rules(&[], &["2001:db8::/32"]);
    assert!(r.match_ip(ip("2001:db8::1")));
    assert!(!r.match_ip(ip("2001:db9::1")));
}

#[test]
fn mod_should_bypass_host_port() {
    let r = make_rules(&["example.com"], &["1.1.1.1/32"]);
    assert!(r.should_bypass("example.com:443"));
    assert!(r.should_bypass("sub.example.com:80"));
    assert!(r.should_bypass("1.1.1.1:53"));
    assert!(!r.should_bypass("other.com:443"));
    assert!(!r.should_bypass("1.1.1.2:53"));
}

#[test]
fn mod_should_bypass_ipv6_bracket() {
    let r = make_rules(&[], &["::1/128"]);
    assert!(r.should_bypass("[::1]:80"));
    assert!(!r.should_bypass("[::2]:80"));
}

#[test]
fn mod_extract_host_cases() {
    assert_eq!(extract_host("example.com:443"), "example.com");
    assert_eq!(extract_host("[::1]:80"), "::1");
    assert_eq!(extract_host("1.2.3.4:80"), "1.2.3.4");
    assert_eq!(extract_host("example.com"), "example.com");
}

#[test]
fn extract_host_without_closing_bracket() {
    assert_eq!(extract_host("[::1"), "::1");
    assert_eq!(extract_host(""), "");
}

#[test]
fn keys_hold_the_labels_backwards() {
    assert_eq!(
        domain_to_fst_key(".Www.Example.COM.").unwrap(),
        b"com\0example\0www".to_vec()
    );
    assert_eq!(domain_to_fst_key("a..b").unwrap(), b"b\0\0a".to_vec());
    assert!(domain_to_fst_key("...").is_none());
    assert!(domain_to_fst_key("").is_none());
}

#[test]
fn networks_are_checked() {
    let mut b = BypassRulesBuilder::default();
    assert_eq!(b.add_cidr("10.0.0.0"), Err(CidrError::MissingSlash));
    assert_eq!(b.add_cidr("10.0.0.0/x"), Err(CidrError::InvalidPrefix));
    assert_eq!(b.add_cidr("10.0.0.0/256"), Err(CidrError::InvalidPrefix));
    assert_eq!(b.add_cidr("10.0.0/8"), Err(CidrError::InvalidAddress));
    assert_eq!(b.add_cidr("10.0.0.0/33"), Err(CidrError::PrefixTooLongV4));
    assert_eq!(b.add_cidr("::/129"), Err(CidrError::PrefixTooLongV6));
    let refused = b.add_cidr("10.0.0.1/8").unwrap_err();
    assert_eq!(
        refused,
        CidrError::HostBits {
            base: IpAddress::V4(0x0a000001),
            prefix: 8
        }
    );
    assert_eq!(
        refused.message("10.0.0.1/8"),
        "invalid IPv4 CIDR 10.0.0.1/8"
    );
    assert_eq!(
        CidrError::MissingSlash.message("x"),
        "missing '/' in CIDR `x`"
    );
    assert!(b.build().unwrap().is_empty());
}

#[test]
fn addresses_are_written_as_they_are_read() {
    assert_eq!(write_ip(ip("192.168.0.1")), "192.168.0.1");
    assert_eq!(write_ip(ip("2001:db8::1")), "2001:db8::1");
    assert_eq!(ip("1.2.3.4"), IpAddress::V4(0x01020304));
    assert_eq!(ip("::2"), IpAddress::V6(2));
    assert!(parse_ip("example.com").is_none());
}

#[test]
fn files_are_loaded_together() {
    let file = |domains: &[&str], cidrs: &[&str]| BypassFile {
        domain_suffix: domains.iter().map(|s| s.to_string()).collect(),
        ip_cidr: cidrs.iter().map(|s| s.to_string()).collect(),
    };
    let rules = BypassRules::load(&[
        ("a".to_string(), file(&["example.com"], &["10.0.0.0/8"])),
        ("b".to_string(), file(&["example.net"], &["fc00::/7"])),
    ])
    .ok()
    .unwrap();
    assert!(rules.should_bypass("www.example.net:1"));
    assert!(rules.should_bypass("example.com:1"));
    assert!(rules.should_bypass("10.9.9.9:1"));
    assert!(rules.should_bypass("[fd00::1]:1"));
    assert!(!rules.is_empty());

    let refused = BypassRules::load(&[
        ("a".to_string(), file(&[], &["10.0.0.0/8"])),
        ("b".to_string(), file(&[], &["10.0.0.0/8", "bad", "worse"])),
    ])
    .err()
    .unwrap();
    assert_eq!(refused.message(), "in file b");
    match refused {
        BypassLoadError::Network { path, cidr, error } => {
            assert_eq!(path, "b");
            assert_eq!(cidr, "bad");
            assert_eq!(error, CidrError::MissingSlash);
        }
        BypassLoadError::Build(_) => panic!("expected a refused network"),
    }
    assert!(BypassConfig::default().bypass_files.is_empty());
}

#[test]
fn label_trie_covers_names_below() {
    let mut trie = DomainTrieNode::default();
    assert!(!trie.matches("example.com"));
    trie.insert(".example.com");
    assert!(trie.matches("example.com"));
    assert!(trie.matches("a.b.example.com"));
    assert!(trie.matches("example.com.."));
    assert!(!trie.matches("notexample.com"));
    assert!(!trie.matches("com"));
    assert!(!trie.matches("Example.com"));
    trie.insert("cn");
    assert!(trie.matches("baidu.cn"));
    assert!(trie.matches("www.example.com"));
    assert!(!trie.matches(""));
    let parts: Vec<Vec<char>> = vec!["x".chars().collect(), "cn".chars().collect()];
    assert!(DomainTrieNode::search(&trie, &parts, 2));
    assert!(!DomainTrieNode::search(&trie, &parts, 1));
}

#[test]
fn bit_trie_covers_networks() {
    assert_eq!(ipv4_to_bits(0xc0a8_0000, 4), vec![1, 1, 0, 0]);
    assert_eq!(ipv6_to_bits(0x2001 << 112, 4), vec![0, 0, 1, 0]);
    let mut trie = IpTrieNode::default();
    trie.insert_bits(&ipv4_to_bits(0xc0a8_0000, 16));
    assert!(trie.match_bits(&ipv4_to_bits(0xc0a8_0101, 32)));
    assert!(!trie.match_bits(&ipv4_to_bits(0xc0a9_0101, 32)));
    assert!(!trie.match_bits(&ipv4_to_bits(0xc0a8_0000, 15)));
    trie.insert_bits(&ipv4_to_bits(0xc0a8_0a00, 24));
    assert!(trie.match_bits(&ipv4_to_bits(0xc0a8_ffff, 32)));
    trie.insert_bits(&ipv4_to_bits(0xc000_0000, 2));
    assert!(trie.match_bits(&ipv4_to_bits(0xc0a9_0101, 32)));
    trie.insert_bits(&[]);
    assert!(trie.match_bits(&ipv4_to_bits(1, 32)));
}
