use bytes::{Bytes, BytesMut};
use httproxy::bypass::{BypassConfig, BypassRules, BypassRulesBuilder};
use httproxy::client::connection::{
    choose_route, connect_response, is_authorized, open_plain_tunnel,
    proxy_auth_required_response, ClientConnectionActor, ConnRoute, ConnStep,
};
use httproxy::client::constants::{
    MASTER_RESUME_WINDOW_SECS, MAX_BATCH_BYTES, MAX_HEADER_LEN, MAX_IN_FLIGHT_BYTES,
    MAX_LOCAL_CONNECTIONS, MIN_IN_FLIGHT_BYTES, PREFETCH_LEAD_BYTES, UPLOAD_CONCURRENCY,
};
use httproxy::client::download_loop::{
    use_prefetched, DownloadError, DownloadLoopActor, PrefetchOutcome, ResponseEnd,
};
use httproxy::client::handshake::{
    judge_connect, ClientHandshake, ConnectVerdict, PqSessionTicket,
};
use httproxy::client::proxy::{
    connect_target, extract_header, is_connect, judge_head, parse_proxy_request, request_target,
    resolve_target_host, rewrite_absolute_url, rewrite_request_line, write_origin, ParseOutcome,
    ParsedHead, ProxyError, UrlParts,
};
use httproxy::client::setup::{
    address_for_host, build_state, check_limits, expected_auth, server_address, ClientConfigError,
};
use httproxy::client::state::{ticket_is_valid, ClientPqFsm, FsmStep, ManualResolver, TicketStore};
use httproxy::client::tunnel::{UploadWindow, WindowTurn};
use httproxy::client::upload_loop::{Phase, PostOutcome, SealOutcome, UploadError, UploadLoopActor};
use httproxy::client::utils::{
    build_tunnel_cookie, check_response_status, encode_initial_payload, is_silent_error,
    on_download_end, on_upload_end, random_cookie, write_cookie, IoKind, RootCause, UploadEnd,
};
use httproxy::config::{ClientAuthSection, ClientProxyAuth, ClientSection, ClientTopConfig};
use httproxy::crypto::{generate_keypair, public_key_to_b64, AesFrameCipher};
use httproxy::server::utils::extract_cookie_value;
use httproxy::shaper::{
    decode_from_buffer, encode_frame, EncodingType, FrameError, PaddingConfig, PaddingRangeError,
    ResolvedShaperConfig, ShaperAction, ShaperEvent, TrafficConfig, TrafficShaper, MAX_RAW_PAYLOAD,
};

fn traffic() -> TrafficConfig {
    TrafficConfig {
        global: PaddingConfig {
            padding_threshold: 0,
            padding_range: [0, 0],
        },
        stages: vec![],
        encoding_type: EncodingType::Binary,
        max_download_bytes: None,
    }
}

fn client_config() -> ClientTopConfig {
    ClientTopConfig {
        client: ClientSection {
            listen: "127.0.0.1:8080".into(),
            remote: "https://example.com/secret".into(),
            address: None,
            public_key: None,
            auth: None,
            max_connections: None,
            max_in_flight_bytes: None,
            upload_concurrency: None,
        },
        auth: ClientAuthSection {
            token: "mytoken".into(),
        },
        log: None,
        traffic_shaping: traffic(),
        bypass: BypassConfig::default(),
    }
}

// Proxy requests.

#[test]
fn resolve_connect_host() {
    let target = resolve_target_host("CONNECT", "example.com:443").unwrap();
    assert_eq!(target, "example.com:443");
}

#[test]
fn resolve_http_url() {
    let target = resolve_target_host("GET", "http://example.com/path").unwrap();
    assert_eq!(target, "example.com:80");
}

#[test]
fn resolve_https_url() {
    let target = resolve_target_host("GET", "https://example.com/path").unwrap();
    assert_eq!(target, "example.com:443");
}

#[test]
fn resolve_connect_no_port_fails() {
    assert!(resolve_target_host("CONNECT", "example.com").is_err());
}

#[test]
fn rewrite_absolute_to_origin() {
    let mut buf = BytesMut::from(
        &b"GET http://example.com/path HTTP/1.1\r\nHost: example.com\r\n\r\n"[..],
    );
    rewrite_absolute_url(&mut buf, "GET", "http://example.com/path").unwrap();
    let result = String::from_utf8(buf.to_vec()).unwrap();
    assert!(
        result.starts_with("GET /path HTTP/1.1\r\n"),
        "got: {result}"
    );
    assert!(result.contains("Host: example.com"));
}

#[test]
fn rewrite_with_query_string() {
    let mut buf = BytesMut::from(
        &b"GET http://example.com/search?q=rust&lang=en HTTP/1.1\r\nHost: example.com\r\n\r\n"[..],
    );
    rewrite_absolute_url(&mut buf, "GET", "http://example.com/search?q=rust&lang=en").unwrap();
    let result = String::from_utf8(buf.to_vec()).unwrap();
    assert!(
        result.starts_with("GET /search?q=rust&lang=en HTTP/1.1\r\n"),
        "got: {result}"
    );
}

#[test]
fn rewrite_root_path() {
    let mut buf =
        BytesMut::from(&b"GET http://example.com/ HTTP/1.1\r\nHost: example.com\r\n\r\n"[..]);
    rewrite_absolute_url(&mut buf, "GET", "http://example.com/").unwrap();
    let result = String::from_utf8(buf.to_vec()).unwrap();
    assert!(result.starts_with("GET / HTTP/1.1\r\n"), "got: {result}");
}

#[test]
fn rewrite_strips_port() {
    let mut buf = BytesMut::from(
        &b"GET http://example.com:8080/path HTTP/1.1\r\nHost: example.com:8080\r\n\r\n"[..],
    );
    rewrite_absolute_url(&mut buf, "GET", "http://example.com:8080/path").unwrap();
    let result = String::from_utf8(buf.to_vec()).unwrap();
    assert!(
        result.starts_with("GET /path HTTP/1.1\r\n"),
        "got: {result}"
    );
    assert!(result.contains("Host: example.com:8080"));
}

#[test]
fn rewrite_already_origin_form_noop() {
    let original = b"GET /path HTTP/1.1\r\nHost: example.com\r\n\r\n";
    let mut buf = BytesMut::from(&original[..]);
    rewrite_absolute_url(&mut buf, "GET", "/path").unwrap();
    assert_eq!(&buf[..], &original[..]);
}

#[test]
fn rewrite_post_body_intact() {
    let body = b"{\"key\":\"value\"}";
    let mut request = Vec::new();
    request.extend_from_slice(b"POST http://example.com/api HTTP/1.1\r\n");
    request.extend_from_slice(b"Host: example.com\r\n");
    request.extend_from_slice(b"Content-Type: application/json\r\n");
    request.extend_from_slice(format!("Content-Length: {}\r\n", body.len()).as_bytes());
    request.extend_from_slice(b"\r\n");
    request.extend_from_slice(body);

    let mut buf = BytesMut::from(&request[..]);
    rewrite_absolute_url(&mut buf, "POST", "http://example.com/api").unwrap();
    let result = buf.to_vec();

    let result_str = String::from_utf8(result.clone()).unwrap();
    assert!(
        result_str.starts_with("POST /api HTTP/1.1\r\n"),
        "got: {result_str}"
    );
    assert!(result.ends_with(body), "POST body was modified");
    assert!(result_str.contains(&format!("Content-Length: {}", body.len())));
}

#[test]
fn resolve_connect_ipv6_brackets_stripped() {
    let t = resolve_target_host("CONNECT", "[::1]:443").unwrap();
    assert_eq!(t, "::1:443");
    assert!(resolve_target_host("CONNECT", "[::1]").is_err());
}

#[test]
fn targets_that_cannot_be_resolved() {
    assert!(matches!(
        resolve_target_host("CONNECT", "exa mple:1"),
        Err(ProxyError::InvalidTarget(_))
    ));
    assert!(matches!(
        resolve_target_host("CONNECT", "example.com"),
        Err(ProxyError::TargetPort(_))
    ));
    assert!(matches!(
        resolve_target_host("GET", "/path"),
        Err(ProxyError::InvalidUrl)
    ));
    assert!(matches!(
        resolve_target_host("GET", "data:text"),
        Err(ProxyError::NoHost)
    ));
    assert!(matches!(
        resolve_target_host("GET", "gopherx://example.com/"),
        Err(ProxyError::NoPort)
    ));
    assert!(is_connect("CONNECT"));
    assert!(!is_connect("GET"));
}

#[test]
fn targets_of_parsed_addresses() {
    let t = connect_target(Some(("example.com".into(), Some(8443))), "x").unwrap();
    assert_eq!(t, "example.com:8443");
    let parts = UrlParts {
        href: "http://h/p?q#f".into(),
        host: Some("h".into()),
        port: Some(80),
        path: "/p".into(),
        query: Some("q".into()),
        fragment: Some("f".into()),
    };
    assert_eq!(write_origin(&parts), "/p?q#f");
    assert_eq!(request_target(Some(parts)).unwrap(), "h:80");
}

#[test]
fn request_lines_that_cannot_be_rewritten() {
    let mut buf = BytesMut::from(&b"GET http://x/ HTTP/1.1"[..]);
    assert!(matches!(
        rewrite_request_line(&mut buf, "GET", "/"),
        Err(ProxyError::NoNewline)
    ));
    let mut buf = BytesMut::from(&[0xff, b' ', b'a', b' ', b'b', b'\r', b'\n'][..]);
    assert!(matches!(
        rewrite_request_line(&mut buf, "GET", "/"),
        Err(ProxyError::LineEncoding)
    ));
    let mut buf = BytesMut::from(&b"GET\r\n"[..]);
    assert!(matches!(
        rewrite_request_line(&mut buf, "GET", "/"),
        Err(ProxyError::MalformedLine(_))
    ));
    let mut buf = BytesMut::from(&b"GET http://x/a HTTP/1.1\r\nrest"[..]);
    rewrite_request_line(&mut buf, "GET", "/a").unwrap();
    assert_eq!(&buf[..], b"GET /a HTTP/1.1\r\nrest");
}

#[test]
fn heads_are_parsed_and_judged() {
    match parse_proxy_request(
        b"GET http://x/ HTTP/1.1\r\nproxy-authorization: Basic abc\r\n\r\nbody",
        true,
    ) {
        ParseOutcome::Complete {
            method,
            header_len,
            url,
            proxy_auth,
        } => {
            assert_eq!(method, "GET");
            assert_eq!(url, "http://x/");
            assert_eq!(header_len, 58);
            assert_eq!(proxy_auth.as_deref(), Some("Basic abc"));
        }
        _ => panic!("expected a whole head"),
    }
    assert!(matches!(
        parse_proxy_request(b"GET / HTT", false),
        ParseOutcome::NeedMore
    ));
    assert!(matches!(
        parse_proxy_request(b"\x00\x01", false),
        ParseOutcome::Failed(ProxyError::Invalid(_))
    ));
    assert!(matches!(
        parse_proxy_request(&vec![b'A'; MAX_HEADER_LEN + 1], false),
        ParseOutcome::Failed(ProxyError::HeaderTooLarge)
    ));
    let head = |method: Option<&str>, path: Option<&str>| ParsedHead {
        method: method.map(|s| s.to_string()),
        path: path.map(|s| s.to_string()),
        headers: vec![],
        len: 4,
    };
    assert!(matches!(
        judge_head(Ok(Some(head(None, Some("/")))), 4, false),
        ParseOutcome::Failed(ProxyError::NoMethod)
    ));
    assert!(matches!(
        judge_head(Ok(Some(head(Some("GET"), None))), 4, false),
        ParseOutcome::Failed(ProxyError::NoPath)
    ));
    let headers = vec![
        ("Host".to_string(), b"a".to_vec()),
        ("HOST".to_string(), vec![b'x', 0xff]),
    ];
    assert_eq!(extract_header(&headers, "host").as_deref(), Some("a"));
    assert_eq!(
        extract_header(&headers[1..], "host").as_deref(),
        Some("x\u{fffd}")
    );
    assert_eq!(extract_header(&headers, "other"), None);
}

#[test]
fn proxy_errors_have_words() {
    assert!(ProxyError::Closed.message().len() > 5);
    assert!(ProxyError::TargetPort("x".into()).message().contains("x"));
}

// Connections.

fn bypass_loopback() -> BypassRules {
    let mut b = BypassRulesBuilder::new();
    b.add_cidr("127.0.0.1/32").unwrap();
    b.build().unwrap()
}

#[test]
fn auth_retry_on_same_connection() {
    let mut actor = ClientConnectionActor::new(Some("Basic dXNlcjpwYXNz".to_string()));
    assert!(matches!(
        actor.on_data(b"GET http://127.0.0.1:99/ HTTP/1.1\r\nHost: x\r\n\r\n"),
        ConnStep::Challenge
    ));
    assert!(proxy_auth_required_response().starts_with("HTTP/1.1 407"));
    let step = actor.on_data(
        b"GET http://127.0.0.1:99/ HTTP/1.1\r\nHost: x\r\nProxy-Authorization: Basic dXNlcjpwYXNz\r\n\r\n",
    );
    match step {
        ConnStep::Ready { target, payload } => {
            assert_eq!(target, "127.0.0.1:99");
            let text = String::from_utf8(payload.to_vec()).unwrap();
            assert!(text.contains("GET / "), "got: {text}");
            assert!(text.contains("Host: x"));
            assert_eq!(
                choose_route(Some(&bypass_loopback()), &target, true),
                ConnRoute::Direct
            );
        }
        _ => panic!("expected the request to be ready"),
    }
}

#[test]
fn connect_early_data_buffered_and_forwarded() {
    let mut actor = ClientConnectionActor::new(None);
    assert!(matches!(
        actor.on_data(b"CONNECT 127.0.0.1:99 HTTP/1.1\r\nHost: x\r\n\r\n"),
        ConnStep::Established { read_early: true }
    ));
    assert!(connect_response().starts_with("HTTP/1.1 200"));
    let mut step = actor.on_early(Some(b"early-data-bytes"));
    if let ConnStep::ReadEarly = step {
        step = actor.on_early(None);
    }
    match step {
        ConnStep::Ready { target, payload } => {
            assert_eq!(target, "127.0.0.1:99");
            assert_eq!(&payload[..], b"early-data-bytes");
        }
        _ => panic!("expected the early data"),
    }
}

#[test]
fn connections_closed_early_fail() {
    let mut actor = ClientConnectionActor::new(None);
    assert!(matches!(actor.on_data(b"GET / HT"), ConnStep::Read));
    assert!(matches!(
        actor.on_closed(),
        ConnStep::Failed(ProxyError::Closed)
    ));
}

#[test]
fn routes_and_credentials() {
    assert_eq!(choose_route(None, "example.com:1", true), ConnRoute::Encrypted);
    assert_eq!(choose_route(None, "example.com:1", false), ConnRoute::Plain);
    assert!(is_authorized(None, None));
    assert!(is_authorized(Some("a"), Some("a")));
    assert!(!is_authorized(Some("a"), Some("b")));
    assert!(!is_authorized(Some("a"), None));
}

#[test]
fn plain_tunnels_carry_their_payload() {
    let request = open_plain_tunnel(b"first bytes", &traffic()).ok().unwrap();
    assert_eq!(
        extract_cookie_value(Some(request.cookie.as_bytes()), "session"),
        Some(request.stream_id.clone())
    );
    let mut buf = BytesMut::from(&request.body[..]);
    let (seq, data) = decode_from_buffer(&mut buf, None, EncodingType::Binary)
        .unwrap()
        .unwrap();
    assert_eq!(seq, 0);
    assert_eq!(&data[..], b"first bytes");
    assert!(request.remaining.is_empty());
    assert_eq!(request.next_seq, 1);
}

// Tickets.

fn ticket(session: &str) -> PqSessionTicket {
    PqSessionTicket {
        master: [7u8; 32],
        session_id: session.to_string(),
    }
}

#[test]
fn load_ticket_returns_none_when_empty() {
    assert!(TicketStore::new().load_and_validate_ticket(5).is_none());
}

#[test]
fn load_ticket_returns_some_when_fresh() {
    let mut store = TicketStore::new();
    store.store(&ticket("sid-1"), 100);
    let ticket = store.load_and_validate_ticket(100).expect("fresh ticket");
    assert_eq!(ticket.session_id, "sid-1");
    assert_eq!(ticket.master, [7u8; 32]);
}

#[test]
fn ticket_is_valid_boundary() {
    let now = 10_000u64;
    assert!(ticket_is_valid(now, now));
    assert!(ticket_is_valid(now - 1, now));
    assert!(ticket_is_valid(now - MASTER_RESUME_WINDOW_SECS + 1, now));
    assert!(!ticket_is_valid(now - MASTER_RESUME_WINDOW_SECS, now));
    assert!(!ticket_is_valid(0, now));
    assert!(ticket_is_valid(now + 100, now));
}

#[test]
fn invalidate_matching_session_clears() {
    let mut store = TicketStore::new();
    store.store(&ticket("sid-2"), 1);
    store.invalidate_stale_master("sid-2");
    assert!(store.is_empty());
}

#[test]
fn invalidate_non_matching_session_keeps() {
    let mut store = TicketStore::new();
    store.store(&ticket("sid-3"), 1);
    store.invalidate_stale_master("other-sid");
    assert!(!store.is_empty());
}

#[test]
fn rejected_tickets_lead_to_a_handshake() {
    let mut store = TicketStore::new();
    store.store(&ticket("sid"), 1);
    let mut fsm = ClientPqFsm::new(&mut store, 2);
    assert!(matches!(fsm, ClientPqFsm::Resuming(_)));
    assert!(matches!(
        fsm.on_connect(judge_connect(428), &mut store),
        FsmStep::Handshake
    ));
    assert!(store.is_empty());
    assert!(matches!(fsm, ClientPqFsm::Handshaking));
    assert!(matches!(
        fsm.on_connect(judge_connect(200), &mut store),
        FsmStep::Finished
    ));
    assert!(matches!(
        ClientPqFsm::new(&mut store, 2),
        ClientPqFsm::Handshaking
    ));
    let mut fsm = ClientPqFsm::new(&mut store, 2);
    assert!(matches!(
        fsm.on_connect(judge_connect(502), &mut store),
        FsmStep::Failed(_)
    ));
    assert!(matches!(judge_connect(428), ConnectVerdict::Rehandshake(_)));
    assert!(matches!(judge_connect(503), ConnectVerdict::Rejected(_)));
}

#[test]
fn the_resolver_knows_one_address() {
    let r = ManualResolver {
        target_addr: "127.0.0.1".into(),
    };
    assert_eq!(r.lookup_target(), "127.0.0.1:0");
}

// Cookies, first payloads and ends.

#[test]
fn build_cookie_contains_session() {
    let mut buf = String::new();
    build_tunnel_cookie(&mut buf, "abc:def:ghi");
    assert!(buf.starts_with("session=abc:def:ghi; "));
    assert!(buf.len() > 25);
}

#[test]
fn cookies_are_read_back() {
    let cookie = write_cookie("key", "v:1", 20);
    assert!(cookie.starts_with("key=v:1; "));
    assert_eq!(
        extract_cookie_value(Some(cookie.as_bytes()), "key").as_deref(),
        Some("v:1")
    );
    let cookie = random_cookie("session", "x");
    assert_eq!(
        extract_cookie_value(Some(cookie.as_bytes()), "session").as_deref(),
        Some("x")
    );
}

#[test]
fn encode_zero_payload() {
    let config = TrafficConfig {
        global: PaddingConfig {
            padding_threshold: 16384,
            padding_range: [0, 0],
        },
        stages: vec![],
        encoding_type: Default::default(),
        max_download_bytes: None,
    };
    let no_cipher: Option<&AesFrameCipher> = None;
    let (body, remaining, seq) =
        encode_initial_payload(b"", MAX_RAW_PAYLOAD, no_cipher, &config).unwrap();
    assert!(body.is_empty());
    assert!(remaining.is_empty());
    assert_eq!(seq, 0);
}

#[test]
fn long_first_payloads_are_cut() {
    let payload: Vec<u8> = (0..40_000u32).map(|i| (i % 251) as u8).collect();
    let cipher = AesFrameCipher::new(&[5u8; 32]);
    let (body, remaining, seq) =
        encode_initial_payload(&payload, 35_000, Some(&cipher), &traffic()).unwrap();
    let mut buf = BytesMut::from(&body[..]);
    let mut joined = Vec::new();
    let mut next = 0;
    while let Some((n, part)) =
        decode_from_buffer(&mut buf, Some(&cipher), EncodingType::Binary).unwrap()
    {
        assert_eq!(n, next);
        next += 1;
        joined.extend_from_slice(&part);
    }
    assert_eq!(seq, next);
    assert_eq!(joined.len(), 35_000);
    joined.extend_from_slice(&remaining);
    assert_eq!(joined, payload);

    let json = TrafficConfig {
        encoding_type: EncodingType::Json,
        ..traffic()
    };
    let no_cipher: Option<&AesFrameCipher> = None;
    assert!(matches!(
        encode_initial_payload(&payload, MAX_RAW_PAYLOAD, no_cipher, &json),
        Err(FrameError::PayloadTooLarge { .. })
    ));
}

#[test]
fn is_silent_reset() {
    assert!(is_silent_error(&RootCause::Io(IoKind::ConnectionReset)));
}

#[test]
fn is_not_silent_other() {
    assert!(!is_silent_error(&RootCause::Io(IoKind::Other)));
    assert!(!is_silent_error(&RootCause::Other("other".into())));
}

#[test]
fn responses_are_judged_by_status() {
    assert!(check_response_status(204, "upload").is_ok());
    let e = check_response_status(502, "upload").unwrap_err();
    assert!(e.contains("upload"), "got: {e}");
    assert!(e.contains("502 Bad Gateway"), "got: {e}");
}

#[test]
fn ends_of_both_directions() {
    assert!(on_upload_end(UploadEnd::Finished).is_ok());
    assert!(on_upload_end(UploadEnd::Cancelled).is_ok());
    assert!(on_upload_end(UploadEnd::Failed("x".into())).is_err());
    assert!(on_download_end(Ok(()), None).is_ok());
    assert_eq!(
        on_download_end(Err("gone".into()), Some("label")),
        Err("label".into())
    );
    assert_eq!(
        on_download_end(Err("gone".into()), None),
        Err("gone".into())
    );
}

// Configuration.

#[test]
fn client_state_from_a_minimal_configuration() {
    let state = build_state(&client_config(), None).ok().unwrap();
    assert_eq!(state.remote_str, "https://example.com/secret");
    assert_eq!(state.auth_header, "Bearer mytoken");
    assert!(state.server_public_key.is_none());
    assert_eq!(state.max_connections, MAX_LOCAL_CONNECTIONS);
    assert_eq!(state.max_in_flight_bytes, MAX_IN_FLIGHT_BYTES);
    assert_eq!(state.upload_concurrency, UPLOAD_CONCURRENCY);
}

#[test]
fn client_configurations_are_checked() {
    let mut cfg = client_config();
    cfg.client.max_in_flight_bytes = Some(MIN_IN_FLIGHT_BYTES - 1);
    assert!(matches!(
        check_limits(&cfg),
        Err(ClientConfigError::InFlight(_))
    ));
    cfg.client.max_in_flight_bytes = Some(MIN_IN_FLIGHT_BYTES);
    assert!(check_limits(&cfg).is_ok());
    cfg.client.upload_concurrency = Some(0);
    assert!(matches!(
        check_limits(&cfg),
        Err(ClientConfigError::Concurrency)
    ));
    cfg.client.upload_concurrency = None;
    cfg.client.public_key = Some("zz".into());
    assert!(matches!(
        build_state(&cfg, None).err(),
        Some(ClientConfigError::PublicKey(_))
    ));
    let (_, pk) = generate_keypair();
    cfg.client.public_key = Some(public_key_to_b64(&pk));
    assert_eq!(
        build_state(&cfg, None).ok().unwrap().server_public_key,
        Some(pk)
    );
    cfg.client.remote = "no url".into();
    assert!(matches!(
        build_state(&cfg, None).err(),
        Some(ClientConfigError::Remote)
    ));
    cfg.traffic_shaping.global.padding_range = [2, 1];
    assert!(matches!(
        build_state(&cfg, None).err(),
        Some(ClientConfigError::Traffic(PaddingRangeError::Global { .. }))
    ));
}

#[test]
fn local_credentials_are_encoded() {
    let auth = ClientProxyAuth {
        username: "user".into(),
        password: "pass".into(),
    };
    assert_eq!(expected_auth(&auth), "Basic dXNlcjpwYXNz");
}

#[test]
fn server_is_connected_at_its_host_or_address() {
    assert_eq!(
        server_address(None, "https://proxy.example:8443/x").as_deref(),
        Some("proxy.example")
    );
    assert_eq!(
        server_address(Some("192.0.2.1"), "https://proxy.example/").as_deref(),
        Some("192.0.2.1")
    );
    assert!(server_address(None, "data:text").is_none());
    assert!(server_address(Some("192.0.2.1"), "data:text").is_none());
    assert!(server_address(Some("192.0.2.1"), "no url").is_none());
    assert!(address_for_host(Some("192.0.2.1"), None).is_none());
    assert_eq!(address_for_host(None, Some("h")).as_deref(), Some("h"));
}

// The upload loop.

fn upload_all(
    actor: &mut UploadLoopActor,
    mut shaper: TrafficShaper<AesFrameCipher>,
    data: &[u8],
) -> Vec<u8> {
    let mut rest = data;
    let mut received = Vec::new();
    let mut running: Vec<usize> = Vec::new();
    loop {
        match actor.phase() {
            Phase::Waiting | Phase::Filling => {
                let mut out = BytesMut::new();
                let mut action = shaper
                    .poll_fill_and_seal(ShaperEvent::Polled, &mut out)
                    .unwrap();
                let outcome = loop {
                    action = match action {
                        ShaperAction::Read { limit } => {
                            let n = rest.len().min(limit);
                            let (now, later) = rest.split_at(n);
                            rest = later;
                            let event = if n == 0 {
                                ShaperEvent::Eof
                            } else {
                                ShaperEvent::Data(now)
                            };
                            shaper.poll_fill_and_seal(event, &mut out).unwrap()
                        }
                        ShaperAction::Sealed { .. } => break SealOutcome::Sealed,
                        ShaperAction::Finished => break SealOutcome::Ended,
                        other => panic!("unexpected {other:?}"),
                    };
                };
                actor.on_seal(outcome, &out).unwrap();
            }
            Phase::Posting => match actor.try_post().unwrap() {
                Some(body) => {
                    running.push(body.len());
                    received.extend_from_slice(&body);
                }
                None => {
                    let len = running.remove(0);
                    actor.on_post_done(len, PostOutcome::Accepted).unwrap();
                }
            },
            Phase::Draining => {
                let len = running.remove(0);
                actor.on_post_done(len, PostOutcome::Accepted).unwrap();
            }
            Phase::Done => return received,
        }
    }
}

fn frames_in(received: &[u8]) -> (Vec<u64>, Vec<u8>) {
    let mut src = BytesMut::from(received);
    let mut seqs = Vec::new();
    let mut decoded = Vec::new();
    while let Some((seq, data)) = decode_from_buffer(&mut src, None, EncodingType::Binary).unwrap()
    {
        seqs.push(seq);
        decoded.extend_from_slice(&data);
    }
    assert!(src.is_empty());
    (seqs, decoded)
}

#[test]
fn run_uploads_all_data_with_contiguous_seqs() {
    let initial: Vec<u8> = (0..40_000u32).map(|i| (i % 251) as u8).collect();
    let extra: Vec<u8> = (0..20_000u32).map(|i| (i % 253) as u8).collect();
    let mut all = initial;
    all.extend_from_slice(&extra);
    let config = ResolvedShaperConfig::resolve(&traffic());
    let mut actor = UploadLoopActor::new(64 * 1024, 4);
    let received = upload_all(&mut actor, TrafficShaper::with_seq(&config, None, 0), &all);
    assert!(!received.is_empty(), "server must receive upload frames");
    assert_eq!(frames_in(&received).1, all);
    assert!(!actor.has_requests());
}

#[test]
fn run_starts_seq_from_configured_value() {
    let initial = vec![0xABu8; 40_000];
    let config = ResolvedShaperConfig::resolve(&traffic());
    let mut actor = UploadLoopActor::new(64 * 1024, 4);
    let received = upload_all(
        &mut actor,
        TrafficShaper::with_seq(&config, None, 7),
        &initial,
    );
    let (seqs, _) = frames_in(&received);
    assert_eq!(seqs.first(), Some(&7));
    for w in seqs.windows(2) {
        assert_eq!(w[1], w[0] + 1, "seqs must be contiguous");
    }
}

#[test]
fn upload_failure_propagates_error() {
    let mut actor = UploadLoopActor::new(64 * 1024, 4);
    actor.on_seal(SealOutcome::Sealed, &[1u8; 100]).unwrap();
    actor.on_seal(SealOutcome::NotReady, &[]).unwrap();
    let body = actor.try_post().unwrap().unwrap();
    let err = actor
        .on_post_done(body.len(), PostOutcome::Failed("refused".into()))
        .unwrap_err();
    let msg = err.message();
    assert!(
        msg.contains("upload POST failed") || msg.contains("http post failed"),
        "unexpected error: {msg}"
    );
    assert!(matches!(err, UploadError::PostFailed(_)));
}

#[test]
fn empty_input_sends_no_requests() {
    let config = ResolvedShaperConfig::resolve(&traffic());
    let mut actor = UploadLoopActor::new(64 * 1024, 4);
    let received = upload_all(&mut actor, TrafficShaper::with_seq(&config, None, 5), &[]);
    assert!(received.is_empty(), "empty input must not send any POST");
}

#[test]
fn uploads_keep_within_their_limits() {
    let mut actor = UploadLoopActor::new(4 * MAX_BATCH_BYTES, 1);
    let frame = [9u8; 16_000];
    while actor.phase() != Phase::Posting {
        actor.on_seal(SealOutcome::Sealed, &frame).unwrap();
    }
    let first = actor.try_post().unwrap().unwrap();
    assert!(first.len() >= MAX_BATCH_BYTES);
    actor.on_seal(SealOutcome::Sealed, &frame).unwrap();
    actor.on_seal(SealOutcome::Ended, &[]).unwrap();
    assert!(actor.try_post().unwrap().is_none());
    actor
        .on_post_done(first.len(), PostOutcome::Accepted)
        .unwrap();
    let last = actor.try_post().unwrap().unwrap();
    assert_eq!(actor.phase(), Phase::Draining);
    assert!(matches!(
        actor.on_post_done(last.len(), PostOutcome::Panicked("p".into())),
        Err(UploadError::Panicked(_))
    ));
}

#[test]
fn bodies_above_a_low_limit_go_out_alone() {
    let mut actor = UploadLoopActor::new(MIN_IN_FLIGHT_BYTES, 4);
    let frame = [9u8; 10_000];
    actor.on_seal(SealOutcome::Sealed, &frame).unwrap();
    actor.on_seal(SealOutcome::Sealed, &frame).unwrap();
    assert_eq!(actor.phase(), Phase::Posting);
    let body = actor.try_post().unwrap().unwrap();
    assert_eq!(body.len(), 20_000);
    actor.on_seal(SealOutcome::Sealed, &frame).unwrap();
    actor.on_seal(SealOutcome::Ended, &[]).unwrap();
    assert!(actor.try_post().unwrap().is_none());
    actor
        .on_post_done(body.len(), PostOutcome::Accepted)
        .unwrap();
    assert_eq!(actor.try_post().unwrap().unwrap().len(), 10_000);
}

// The upload window.

#[test]
fn windows_cut_bodies_between_frames() {
    let mut window = UploadWindow::new();
    let frame = vec![7u8; 18_000];
    let mut frames = 0;
    let body = loop {
        match window.next_turn() {
            WindowTurn::WaitFrame | WindowTurn::TryFrame => {
                window.on_seal(SealOutcome::Sealed, Bytes::from(frame.clone()));
                frames += 1;
            }
            WindowTurn::Send(body) => break body,
            _ => panic!("nothing to wait for"),
        }
    };
    assert_eq!(frames, MAX_BATCH_BYTES / 18_000 + 1);
    assert_eq!(body.len(), 18_000 * (frames - 1));
    // The frame that did not fit begins the next body.
    assert!(matches!(window.next_turn(), WindowTurn::TryFrame));
    window.on_seal(SealOutcome::Ended, Bytes::new());
    match window.next_turn() {
        WindowTurn::Send(last) => assert_eq!(&last[..], &frame[..]),
        _ => panic!("expected the kept frame"),
    }
    assert!(matches!(window.next_turn(), WindowTurn::WaitRequest));
    window
        .on_post_done(body.len(), PostOutcome::Accepted)
        .unwrap();
    assert!(matches!(
        window.on_post_done(18_000, PostOutcome::Failed("no".into())),
        Err(UploadError::LastPostFailed(_))
    ));
    assert!(matches!(window.next_turn(), WindowTurn::Over));
}

#[test]
fn windows_wait_for_room_in_flight() {
    let mut window = UploadWindow::new();
    let frame = vec![7u8; 18_000];
    let mut bodies = Vec::new();
    loop {
        match window.next_turn() {
            WindowTurn::WaitFrame | WindowTurn::TryFrame => {
                window.on_seal(SealOutcome::Sealed, Bytes::from(frame.clone()));
            }
            WindowTurn::Send(body) => bodies.push(body.len()),
            WindowTurn::WaitRequest => break,
            WindowTurn::Over => panic!("more was to come"),
        }
    }
    let sent: usize = bodies.iter().sum();
    assert!(sent <= MAX_IN_FLIGHT_BYTES && sent + 18_000 > MAX_IN_FLIGHT_BYTES);
    window
        .on_post_done(bodies[0], PostOutcome::Accepted)
        .unwrap();
    assert!(matches!(window.next_turn(), WindowTurn::TryFrame));
    window.on_seal(SealOutcome::NotReady, Bytes::new());
    assert!(matches!(window.next_turn(), WindowTurn::Send(_)));
    assert!(matches!(window.next_turn(), WindowTurn::WaitFrame));
}

// The download loop.

fn downloaded(frames: &[(&[u8], u64)]) -> Vec<u8> {
    let mut out = Vec::new();
    for (data, seq) in frames {
        out.extend_from_slice(
            &encode_frame(data, *seq, None, 0, [0, 0], EncodingType::Binary).unwrap(),
        );
    }
    out
}

#[test]
fn downloads_are_put_together_from_chunks() {
    let stream = downloaded(&[(b"ab", 0), (b"cd", 1), (b"ef", 2)]);
    let mut actor = DownloadLoopActor::<AesFrameCipher>::new(None, EncodingType::Binary, None);
    let mut data = Vec::new();
    for chunk in stream.chunks(5) {
        let outcome = actor.on_chunk(chunk);
        assert!(outcome.error.is_none());
        assert!(!outcome.fire_prefetch);
        data.extend_from_slice(&outcome.data);
    }
    assert_eq!(data, b"abcdef");
    assert_eq!(actor.on_end(), (ResponseEnd::Done, 0));
}

#[test]
fn downloads_rotate_and_prefetch() {
    let max = PREFETCH_LEAD_BYTES + 20;
    let mut actor =
        DownloadLoopActor::<AesFrameCipher>::new(None, EncodingType::Binary, Some(max));
    assert!(actor.armed());
    let outcome = actor.on_chunk(&downloaded(&[(b"0123456789", 0)]));
    assert!(outcome.fire_prefetch);
    assert!(!actor.armed());
    assert_eq!(actor.on_end(), (ResponseEnd::Done, 0));

    let mut actor = DownloadLoopActor::<AesFrameCipher>::new(None, EncodingType::Binary, Some(10));
    actor.on_chunk(&downloaded(&[(b"0123456789", 0)]));
    assert_eq!(actor.on_end(), (ResponseEnd::Rotate, 0));
    let outcome = actor.on_chunk(&downloaded(&[(b"x", 1)]));
    assert_eq!(outcome.data, b"x");
    assert!(use_prefetched(Some(PrefetchOutcome::Answered)));
    assert!(!use_prefetched(Some(PrefetchOutcome::TimedOut)));
    assert!(!use_prefetched(None));
}

#[test]
fn downloads_out_of_order_fail() {
    let mut actor = DownloadLoopActor::<AesFrameCipher>::new(None, EncodingType::Binary, None);
    let outcome = actor.on_chunk(&downloaded(&[(b"a", 0), (b"b", 2)]));
    assert_eq!(outcome.data, b"a");
    assert_eq!(
        outcome.error,
        Some(DownloadError::OutOfOrder {
            seq: 2,
            expected: 1
        })
    );
    assert!(outcome.error.unwrap().message().contains("2"));
    let mut actor = DownloadLoopActor::<AesFrameCipher>::new(None, EncodingType::Binary, None);
    assert!(matches!(
        actor.on_chunk(&[0xff, 0xff, 0]).error,
        Some(DownloadError::Frame(FrameError::BinaryTooLong))
    ));
}

#[test]
fn first_frames_are_padded_as_configured() {
    let mut config = traffic();
    config.global = PaddingConfig {
        padding_threshold: 100,
        padding_range: [40, 60],
    };
    let no_cipher: Option<&AesFrameCipher> = None;
    let (body, _, _) =
        encode_initial_payload(&[7; 10], MAX_RAW_PAYLOAD, no_cipher, &config).unwrap();
    let least = 2 + 10 + 10;
    assert!((least + 40..=least + 60).contains(&body.len()), "{}", body.len());
    let (body, _, _) =
        encode_initial_payload(&[7; 100], MAX_RAW_PAYLOAD, no_cipher, &config).unwrap();
    assert_eq!(body.len(), 2 + 10 + 100);
    let (_, pk) = generate_keypair();
    let (_, plain) = ClientHandshake::begin(&pk, &traffic()).ok().unwrap();
    config.global.padding_threshold = 16_000;
    config.global.padding_range = [50, 50];
    let (_, padded) = ClientHandshake::begin(&pk, &config).ok().unwrap();
    assert_eq!(padded.body.len(), plain.body.len() + 50);
}
