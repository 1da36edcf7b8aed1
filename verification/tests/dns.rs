use domain::base::iana::{Class, Rcode};
use domain::base::{MessageBuilder, Name, Question, Record, Rtype, Ttl};
use domain::rdata::{Aaaa, A};
use httproxy::dns::client::{
    init_dns, socks_address, CacheEntry, ConnectError, DnsClient, EyeballStep, HappyEyeballs,
    LookupStep,
};
use httproxy::dns::config::{
    complete_config, DnsConfig, DnsInitError, DnsOptions, Endpoint, Protocol,
};
use httproxy::dns::message::{judge_response, read_header, DnsError, RTYPE_A, RTYPE_AAAA};
use httproxy::dns::transport::{
    frame_message, framed_len, DotAction, DotConnection, DotEvent, PendingQueries,
};
use httproxy::ip::IpAddress;

fn v4(a: u8, b: u8, c: u8, d: u8) -> IpAddress {
    IpAddress::V4(u32::from_be_bytes([a, b, c, d]))
}

fn make_response(id: u16, tc: bool, rcode: Rcode, ttl: u32, a_ips: &[[u8; 4]]) -> Vec<u8> {
    make_response_for(id, tc, rcode, ttl, a_ips, "example.com", Rtype::A)
}

fn make_response_for(
    id: u16,
    tc: bool,
    rcode: Rcode,
    ttl: u32,
    a_ips: &[[u8; 4]],
    qname: &str,
    qtype: Rtype,
) -> Vec<u8> {
    let mut builder = MessageBuilder::new_vec();
    builder.header_mut().set_id(id);
    builder.header_mut().set_rcode(rcode);
    if tc {
        builder.header_mut().set_tc(true);
    }
    let mut question = builder.question();
    question
        .push(Question::new(
            Name::vec_from_str(qname).unwrap(),
            qtype,
            Class::IN,
        ))
        .unwrap();
    let mut answer = question.answer();
    for ip in a_ips {
        let rec = Record::new(
            Name::vec_from_str(qname).unwrap(),
            Class::IN,
            Ttl::from_secs(ttl),
            A::new((*ip).into()),
        );
        answer.push(rec).unwrap();
    }
    answer.into_message().into_octets()
}

fn config(options: DnsOptions) -> DnsConfig {
    DnsConfig {
        upstream: Endpoint {
            ip: v4(127, 0, 0, 1),
            port: 1,
        },
        tls_domain: None,
        options,
    }
}

fn test_client() -> DnsClient {
    DnsClient::new(config(DnsOptions::default())).ok().unwrap()
}

#[test]
fn parse_response_accepts_valid_a_record() {
    let bytes = make_response(1, false, Rcode::NOERROR, 120, &[[1, 2, 3, 4]]);
    let (ips, ttl) = test_client()
        .parse_response(&bytes, 1, RTYPE_A, "example.com")
        .unwrap();
    assert_eq!(ips, vec![v4(1, 2, 3, 4)]);
    assert_eq!(ttl, 120);
}

#[test]
fn parse_response_rejects_truncated() {
    let bytes = make_response(2, true, Rcode::NOERROR, 120, &[]);
    assert!(matches!(
        test_client().parse_response(&bytes, 2, RTYPE_A, "example.com"),
        Err(DnsError::Truncated)
    ));
}

#[test]
fn parse_response_rejects_id_mismatch() {
    let bytes = make_response(3, false, Rcode::NOERROR, 120, &[]);
    let e = test_client()
        .parse_response(&bytes, 99, RTYPE_A, "example.com")
        .unwrap_err();
    assert!(matches!(
        e,
        DnsError::IdMismatch {
            expected: 99,
            got: 3
        }
    ));
    assert_eq!(e.message(), "DNS ID mismatch: expected 99, got 3");
}

#[test]
fn parse_response_nxdomain_returns_empty_with_empty_ttl() {
    let bytes = make_response(4, false, Rcode::NXDOMAIN, 120, &[]);
    let (ips, ttl) = test_client()
        .parse_response(&bytes, 4, RTYPE_A, "example.com")
        .unwrap();
    assert!(ips.is_empty());
    assert_eq!(ttl, DnsOptions::default().empty_ttl);
}

#[test]
fn parse_response_rejects_error_rcode() {
    let bytes = make_response(5, false, Rcode::SERVFAIL, 120, &[]);
    let e = test_client()
        .parse_response(&bytes, 5, RTYPE_A, "example.com")
        .unwrap_err();
    assert_eq!(e.message(), format!("DNS Rcode Error: {}", Rcode::SERVFAIL));
}

#[test]
fn parse_response_clamps_ttl() {
    let c = test_client();
    let bytes = make_response(6, false, Rcode::NOERROR, 10, &[[9, 9, 9, 9]]);
    let (_, ttl) = c
        .parse_response(&bytes, 6, RTYPE_A, "example.com")
        .unwrap();
    assert_eq!(ttl, DnsOptions::default().min_ttl);
    let bytes = make_response(7, false, Rcode::NOERROR, 999_999, &[[9, 9, 9, 9]]);
    let (_, ttl) = c
        .parse_response(&bytes, 7, RTYPE_A, "example.com")
        .unwrap();
    assert_eq!(ttl, DnsOptions::default().max_ttl);
}

#[test]
fn parse_response_safe_when_ttl_bounds_inverted() {
    let c = DnsClient::new(config(DnsOptions {
        min_ttl: 5000,
        max_ttl: 100,
        ..DnsOptions::default()
    }))
    .ok()
    .unwrap();
    let bytes = make_response(8, false, Rcode::NOERROR, 60, &[[9, 9, 9, 9]]);
    let (_, ttl) = c
        .parse_response(&bytes, 8, RTYPE_A, "example.com")
        .unwrap();
    assert_eq!(ttl, 100, "inverted bounds must not panic and clamp to max");
}

#[test]
fn parse_response_rejects_question_name_mismatch() {
    let bytes = make_response_for(
        9,
        false,
        Rcode::NOERROR,
        120,
        &[[1, 2, 3, 4]],
        "evil.com",
        Rtype::A,
    );
    assert!(matches!(
        test_client().parse_response(&bytes, 9, RTYPE_A, "example.com"),
        Err(DnsError::QuestionMismatch(_))
    ));
}

#[test]
fn parse_response_rejects_question_type_mismatch() {
    let bytes = make_response_for(
        10,
        false,
        Rcode::NOERROR,
        120,
        &[[1, 2, 3, 4]],
        "example.com",
        Rtype::AAAA,
    );
    assert!(test_client()
        .parse_response(&bytes, 10, RTYPE_A, "example.com")
        .is_err());
}

#[test]
fn parse_response_rejects_missing_question() {
    let mut builder = MessageBuilder::new_vec();
    builder.header_mut().set_id(11);
    builder.header_mut().set_rcode(Rcode::NOERROR);
    let mut answer = builder.answer();
    answer
        .push(Record::new(
            Name::vec_from_str("example.com").unwrap(),
            Class::IN,
            Ttl::from_secs(120),
            A::new([1, 2, 3, 4].into()),
        ))
        .unwrap();
    let bytes = answer.into_message().into_octets();
    assert!(matches!(
        test_client().parse_response(&bytes, 11, RTYPE_A, "example.com"),
        Err(DnsError::Question)
    ));
    assert!(matches!(
        test_client().parse_response(&bytes[..11], 11, RTYPE_A, "example.com"),
        Err(DnsError::Invalid)
    ));
}

#[test]
fn init_dns_rejects_inverted_ttl_bounds() {
    let options = DnsOptions {
        min_ttl: 5000,
        max_ttl: 100,
        ..DnsOptions::default()
    };
    assert!(matches!(
        init_dns(config(options)).err(),
        Some(DnsInitError::TtlBounds {
            min_ttl: 5000,
            max_ttl: 100
        })
    ));
    assert!(init_dns(config(DnsOptions::default())).is_ok());
}

#[test]
fn build_query_writes_id_and_domain() {
    let q = test_client()
        .build_query("example.com", RTYPE_A, None, 0x1234)
        .unwrap();
    assert_eq!(q[0], 0x12);
    assert_eq!(q[1], 0x34);
    assert!(q.windows(7).any(|w| w == b"example"));
    assert_eq!(q[2] & 0x01, 0x01, "RD flag must be set");
    assert!(matches!(
        test_client().build_query("exa..mple", RTYPE_A, None, 1),
        Err(DnsError::InvalidName)
    ));
}

#[test]
fn build_query_with_ecs_includes_opt_record() {
    let c = test_client();
    let plain = c.build_query("example.com", RTYPE_A, None, 1).unwrap();
    let with_ecs = c
        .build_query("example.com", RTYPE_A, Some(v4(1, 2, 3, 4)), 1)
        .unwrap();
    assert!(with_ecs.len() > plain.len());
    assert!(with_ecs.ends_with(&[0, 8, 0, 7, 0, 1, 24, 0, 1, 2, 3]));
    let with_v6 = c
        .build_query(
            "example.com",
            RTYPE_AAAA,
            Some(IpAddress::V6(0x2001_0db8_1122_3344_5566_7788_99aa_bbcc)),
            1,
        )
        .unwrap();
    assert!(with_v6.ends_with(&[
        0, 8, 0, 11, 0, 2, 56, 0, 0x20, 0x01, 0x0d, 0xb8, 0x11, 0x22, 0x33
    ]));
}

#[test]
fn parse_response_extracts_aaaa_records() {
    let mut builder = MessageBuilder::new_vec();
    builder.header_mut().set_id(10);
    builder.header_mut().set_rcode(Rcode::NOERROR);
    let mut question = builder.question();
    question
        .push(Question::new(
            Name::vec_from_str("example.com").unwrap(),
            Rtype::AAAA,
            Class::IN,
        ))
        .unwrap();
    let mut answer = question.answer();
    let v6 = [0x2001, 0xdb8, 0, 0, 0, 0, 0, 1u16];
    let rec = Record::new(
        Name::vec_from_str("example.com").unwrap(),
        Class::IN,
        Ttl::from_secs(300),
        Aaaa::new(v6.into()),
    );
    answer.push(rec).unwrap();
    let bytes = answer.into_message().into_octets();
    let (ips, ttl) = test_client()
        .parse_response(&bytes, 10, RTYPE_AAAA, "example.com")
        .unwrap();
    assert_eq!(
        ips,
        vec![IpAddress::V6(0x2001_0db8_0000_0000_0000_0000_0000_0001)]
    );
    assert_eq!(ttl, 300);
}

#[test]
fn interleave_prefers_ipv4_by_default() {
    let a = vec![v4(1, 1, 1, 1), v4(2, 2, 2, 2)];
    let b = vec![IpAddress::V6(1)];
    let r = test_client().interleave_ips(a.clone(), b.clone());
    assert_eq!(r, vec![a[0], b[0], a[1]]);
}

#[test]
fn interleave_prefers_ipv6_when_configured() {
    let c = DnsClient::new(config(DnsOptions {
        prefer_ipv6: true,
        ..DnsOptions::default()
    }))
    .ok()
    .unwrap();
    let a = vec![v4(1, 1, 1, 1)];
    let b = vec![IpAddress::V6(1), IpAddress::V6(1)];
    let r = c.interleave_ips(a, b.clone());
    assert_eq!(r.len(), 3);
    assert_eq!(r[0], b[0]);
}

#[test]
fn interleave_exhausts_one_side() {
    let a = vec![v4(1, 1, 1, 1)];
    let b = vec![IpAddress::V6(1), IpAddress::V6(1)];
    let r = test_client().interleave_ips(a, b);
    assert_eq!(r.len(), 3);
}

#[test]
fn addresses_are_ordered_for_connecting() {
    let c = test_client();
    let r = c
        .order_addresses(
            "h",
            Some(vec![v4(1, 1, 1, 1), v4(2, 2, 2, 2)]),
            Some(vec![IpAddress::V6(1)]),
        )
        .unwrap();
    assert_eq!(r.len(), 3);
    assert!(r.contains(&v4(1, 1, 1, 1)) && r.contains(&v4(2, 2, 2, 2)));
    assert_eq!(r[1], IpAddress::V6(1));
    assert!(matches!(
        c.order_addresses("h", None, None),
        Err(ConnectError::NoRecords(_))
    ));
}

#[test]
fn defaults_applied() {
    let options = DnsOptions::default();
    assert_eq!(options.protocol, Protocol::Udp);
    assert!(!options.prefer_ipv6);
    assert_eq!(options.cache_size, 1024);
    assert_eq!(options.min_ttl, 30);
    assert_eq!(options.max_ttl, 3600);
    assert_eq!(options.empty_ttl, 300);
    assert_eq!(options.max_concurrent_queries, 1024);
}

#[test]
fn tls_names_are_completed() {
    let mut cfg = config(DnsOptions {
        protocol: Protocol::Dot,
        ..DnsOptions::default()
    });
    let outcome = complete_config(&mut cfg);
    assert_eq!(outcome.is_ok(), cfg.tls_domain.is_some());
    cfg.tls_domain = Some("dns.example".into());
    assert!(complete_config(&mut cfg).is_ok());
    assert_eq!(cfg.tls_domain.as_deref(), Some("dns.example"));
}

#[test]
fn cache_entries_age() {
    let c = test_client();
    let entry = CacheEntry {
        ips: vec![],
        created_at: 100,
        ttl: 50,
    };
    assert_eq!(c.lookup(None, 100), LookupStep::Query);
    assert_eq!(c.lookup(Some(&entry), 120), LookupStep::Fresh);
    assert_eq!(c.lookup(Some(&entry), 1_000_000), LookupStep::Query);
}

#[test]
fn attempts_to_connect_race() {
    assert!(matches!(
        HappyEyeballs::begin(0).err(),
        Some(ConnectError::NoAddresses)
    ));
    let (mut race, step) = HappyEyeballs::begin(2).ok().unwrap();
    assert_eq!(step, EyeballStep::Connect(0));
    assert_eq!(race.on_delay(), EyeballStep::Connect(1));
    assert_eq!(race.on_attempt(false), EyeballStep::Wait);
    assert_eq!(race.on_attempt(true), EyeballStep::Connected);
    let (mut race, _) = HappyEyeballs::begin(1).ok().unwrap();
    assert_eq!(race.on_attempt(false), EyeballStep::Wait);
    assert_eq!(race.on_delay(), EyeballStep::AllFailed);
}

#[test]
fn socks_schemes_are_cut() {
    assert_eq!(socks_address("socks5://127.0.0.1:1080"), "127.0.0.1:1080");
    assert_eq!(socks_address("127.0.0.1:1080"), "127.0.0.1:1080");
}

#[test]
fn headers_are_read() {
    assert_eq!(
        read_header(&[0x12, 0x34, 0x82, 0x83, 0, 0, 0, 0, 0, 0, 0, 0]),
        Some((0x1234, true, 3))
    );
    assert_eq!(read_header(&[0; 11]), None);
}

#[test]
fn answers_are_judged_by_their_content() {
    let options = DnsOptions::default();
    let answers = [
        Some((RTYPE_A, 100, Some(7), None)),
        None,
        Some((5, 1, None, None)),
        Some((RTYPE_A, 60, Some(8), None)),
    ];
    let (ips, ttl) = judge_response(
        Some((1, false, 0)),
        Some(("EXAMPLE.com.".to_string(), RTYPE_A)),
        &answers,
        1,
        RTYPE_A,
        "example.com",
        &options,
    )
    .unwrap();
    assert_eq!(ips, vec![IpAddress::V4(7), IpAddress::V4(8)]);
    assert_eq!(ttl, 60);
}

#[test]
fn udp_id_assignment_avoids_collision() {
    let mut pending = PendingQueries::new();
    let mut data1 = vec![0u8; 12];
    let id1 = pending.assign_id_and_register(&mut data1).unwrap();
    assert_eq!(data1[0..2], id1.to_be_bytes());
    let mut data2 = vec![0u8; 12];
    let id2 = loop {
        if let Some(id) = pending.assign_id_and_register(&mut data2) {
            break id;
        }
    };
    assert_ne!(id1, id2);
    assert!(!pending.try_register(id1, &mut data2));
    assert_eq!(pending.on_message(&data1), Some(id1));
    assert_eq!(pending.on_message(&data1), None);
    assert!(pending.try_register(id1, &mut data2));
    assert_eq!(data2[0..2], id1.to_be_bytes());
    pending.forget(id1);
    assert!(pending.try_register(id1, &mut data2));
    pending.forget_all();
    assert!(pending.try_register(id2, &mut data2));
}

#[test]
fn messages_are_framed_with_their_length() {
    let framed = frame_message(&[9; 300]);
    assert_eq!(framed[..2], [1, 44]);
    assert_eq!(framed.len(), 302);
    assert_eq!(framed_len(&[1, 44]), 300);
}

#[test]
fn dot_connections_connect_on_demand() {
    let mut c = DotConnection::new();
    assert!(matches!(
        c.on_event(DotEvent::Query { id: 1 }),
        DotAction::Connect { id: 1 }
    ));
    assert!(matches!(
        c.on_event(DotEvent::ConnectFailed {
            id: 1,
            reason: "refused".into()
        }),
        DotAction::FailOne { id: 1, .. }
    ));
    assert!(matches!(
        c.on_event(DotEvent::Connected { id: 2 }),
        DotAction::Write { id: 2 }
    ));
    assert!(matches!(
        c.on_event(DotEvent::Query { id: 3 }),
        DotAction::Write { id: 3 }
    ));
    assert!(matches!(c.on_event(DotEvent::Written), DotAction::Wait));
    assert!(matches!(
        c.on_event(DotEvent::ReaderEnded),
        DotAction::FailAll { .. }
    ));
    assert!(matches!(
        c.on_event(DotEvent::Query { id: 4 }),
        DotAction::Connect { id: 4 }
    ));
}
