use bytes::BytesMut;
use httproxy::client::handshake::{open_tunnel, prepare_tunnel, ClientHandshake, HandshakeError};
use httproxy::crypto::{generate_keypair, generate_mlkem_keypair};
use httproxy::decimal::push_decimal;
use httproxy::hello::{
    build_client_hello, build_server_hello, parse_client_hello, parse_server_hello,
    ClientHelloError, ServerHelloError,
};
use httproxy::log::{plan_log_files, LogConfig};
use httproxy::{now_secs, Clock};
use httproxy::server::handlers::{
    ack_answer, admit_tunnel, authorize_tunnel, begin_handshake, dispatch_answer, dispatch_route,
    extract_bearer, handle_fresh_handshake, plaintext_session, plaintext_target, setup_answer,
    gen_token, token_claims, validate_jwt_if_needed, AckOutcome, BatchEnd, DispatchFailure, HandshakeRefusal,
    Route, SetupFailure, UploadBatch,
};
use httproxy::server::masters::MasterStore;
use httproxy::server::nonce_registry::NonceRegistry;
use httproxy::server::utils::extract_cookie_value;
use httproxy::session::{
    cookie_session, open_stream_id, parse_target, seal_session_cookie, split_cookie, TunnelRefusal,
};
use httproxy::shaper::{
    decode_from_buffer, EncodingType, PaddingConfig, TrafficConfig,
};

fn traffic(encoding_type: EncodingType) -> TrafficConfig {
    TrafficConfig {
        global: PaddingConfig {
            padding_threshold: 16384,
            padding_range: [10, 200],
        },
        stages: vec![],
        encoding_type,
        max_download_bytes: None,
    }
}

#[test]
fn handshakes_agree_and_open_tunnels() {
    for encoding in [EncodingType::Binary, EncodingType::Json] {
        let traffic = traffic(encoding);
        let (server_sk, server_pk) = generate_keypair();
        let (mut client, request) = ClientHandshake::begin(&server_pk, &traffic).ok().unwrap();
        let mut masters = MasterStore::new();
        let mut nonces = NonceRegistry::new();
        let reply = handle_fresh_handshake(
            Some(&server_sk),
            Some(request.cookie.as_bytes()),
            &request.body,
            &traffic,
            "user",
            &mut masters,
            1000,
        )
        .ok()
        .unwrap();

        let (front, back) = reply.frame.split_at(20);
        assert!(client.on_reply(front).ok().unwrap().is_none());
        let ticket = client.on_reply(back).ok().unwrap().unwrap();
        assert_eq!(ticket.session_id, reply.session_id);
        assert_eq!(ticket.master, reply.master);
        assert_eq!(
            masters.get(&ticket.session_id),
            Some(("user".to_string(), ticket.master, 1000))
        );

        let tunnel = prepare_tunnel(
            &ticket,
            &[9u8; 16],
            "example.com:443",
            b"hello target",
            &traffic,
        )
        .ok()
        .unwrap();
        let cookie = extract_cookie_value(Some(tunnel.cookie.as_bytes()), "session").unwrap();
        assert_eq!(cookie, tunnel.cookie_value);
        assert_eq!(
            dispatch_route(false, Some(&cookie), false, &masters),
            Route::Spawn
        );
        let grant = authorize_tunnel(&cookie, &mut masters, &mut nonces, 1001)
            .ok()
            .unwrap();
        assert_eq!(grant.target, "example.com:443");
        assert_eq!(grant.host, "example.com");
        assert_eq!(grant.port, 443);
        assert_eq!(grant.user, "user");
        assert_eq!(grant.stream_id, [9u8; 16]);
        assert_eq!(grant.upload_key, tunnel.upload_key);
        assert_eq!(grant.download_key, tunnel.download_key);
        let cipher = httproxy::crypto::AesFrameCipher::new(&grant.upload_key);
        let mut body = BytesMut::from(&tunnel.body[..]);
        let (seq, data) = decode_from_buffer(&mut body, Some(&cipher), encoding)
            .unwrap()
            .unwrap();
        assert_eq!(seq, 0);
        assert_eq!(&data[..], b"hello target");

        // The same stream is let in only once.
        assert!(matches!(
            authorize_tunnel(&cookie, &mut masters, &mut nonces, 1001),
            Err(TunnelRefusal::StreamClaimed)
        ));
        nonces.mark_consumed(&ticket.session_id, &[9u8; 16]);
        assert!(matches!(
            authorize_tunnel(&cookie, &mut masters, &mut nonces, 1001),
            Err(TunnelRefusal::StreamConsumed)
        ));
        let second = open_tunnel(&ticket, "h:1", b"", &traffic).ok().unwrap();
        assert!(authorize_tunnel(&second.cookie_value, &mut masters, &mut nonces, 1001).is_ok());
        let third = open_tunnel(&ticket, "h:1", b"", &traffic).ok().unwrap();
        assert!(matches!(
            authorize_tunnel(&third.cookie_value, &mut masters, &mut nonces, 1_000_000),
            Err(TunnelRefusal::MasterExpired)
        ));
        assert!(matches!(
            authorize_tunnel(&third.cookie_value, &mut masters, &mut nonces, 1001),
            Err(TunnelRefusal::SessionNotFound)
        ));
    }
}

#[test]
fn handshakes_are_refused() {
    let (server_sk, server_pk) = generate_keypair();
    let mut masters = MasterStore::new();
    let traffic = traffic(EncodingType::Binary);
    assert!(matches!(
        begin_handshake(Some(&server_sk), None),
        Err(HandshakeRefusal::MissingCookie)
    ));
    assert!(matches!(
        begin_handshake(Some(&server_sk), Some("???")),
        Err(HandshakeRefusal::CookieEncoding)
    ));
    assert!(matches!(
        begin_handshake(Some(&server_sk), Some("AAAA")),
        Err(HandshakeRefusal::CookieLength)
    ));
    let (_, request) = ClientHandshake::begin(&server_pk, &traffic).ok().unwrap();
    let mut refusal = |key: Option<&[u8; 32]>, body: &[u8]| {
        handle_fresh_handshake(
            key,
            Some(request.cookie.as_bytes()),
            body,
            &traffic,
            "u",
            &mut masters,
            1,
        )
        .err()
        .unwrap()
    };
    assert!(matches!(
        refusal(None, &request.body),
        HandshakeRefusal::NoPrivateKey
    ));
    assert!(matches!(
        refusal(Some(&server_sk), b""),
        HandshakeRefusal::NoFrame
    ));
    let (other_sk, _) = generate_keypair();
    let wrong = refusal(Some(&other_sk), &request.body);
    assert!(matches!(wrong, HandshakeRefusal::Frame(_)));
    assert_eq!(wrong.to_error().0, 500);
}

#[test]
fn replies_that_are_no_server_hello_fail() {
    let (_, server_pk) = generate_keypair();
    let (mut client, _) = ClientHandshake::begin(&server_pk, &traffic(EncodingType::Binary))
        .ok()
        .unwrap();
    assert!(matches!(
        client.on_reply(&[0xff, 0xff]),
        Err(HandshakeError::Frame(_)) | Ok(None)
    ));
}

#[test]
fn client_hellos_are_read_back() {
    let (_, kem_pk) = generate_mlkem_keypair();
    let (_, x_pk) = generate_keypair();
    let hello = build_client_hello(&kem_pk, &x_pk);
    let (kem, x) = parse_client_hello(&hello).ok().unwrap();
    assert_eq!(kem, kem_pk);
    assert_eq!(x, x_pk);
    assert!(matches!(
        parse_client_hello(&hello[..1]),
        Err(ClientHelloError::TooShort)
    ));
    assert!(matches!(
        parse_client_hello(&hello[..100]),
        Err(ClientHelloError::TruncatedKem)
    ));
    assert!(matches!(
        parse_client_hello(&hello[..2 + 1184]),
        Err(ClientHelloError::MissingX25519)
    ));
    assert!(matches!(
        parse_client_hello(&hello[..hello.len() - 1]),
        Err(ClientHelloError::TruncatedX25519)
    ));
}

#[test]
fn server_hellos_are_read_back() {
    let hello = build_server_hello("sid", &[5; 1088], &[6; 32]);
    let (sid, ct, pk) = parse_server_hello(&hello).ok().unwrap();
    assert_eq!(sid, "sid");
    assert_eq!(ct, vec![5; 1088]);
    assert_eq!(pk, [6; 32]);
    assert!(matches!(
        parse_server_hello(&hello[..1]),
        Err(ServerHelloError::TooShort) | Err(ServerHelloError::Truncated)
    ));
    assert!(matches!(
        parse_server_hello(&hello[..hello.len() - 1]),
        Err(ServerHelloError::Truncated)
    ));
}

#[test]
fn session_cookies_are_split() {
    let cookie = seal_session_cookie(&[1u8; 32], "sid", &[2u8; 16], "h:1").unwrap();
    let (sid, _, stream) = split_cookie(&cookie).unwrap();
    assert_eq!(sid, "sid");
    assert_eq!(open_stream_id(&[1u8; 32], &stream).unwrap(), [2u8; 16]);
    assert!(open_stream_id(&[3u8; 32], &stream).is_err());
    assert_eq!(cookie_session(&cookie), "sid");
    assert_eq!(cookie_session("plain"), "plain");
    assert!(split_cookie("a:b").is_none());
    assert_eq!(parse_target("::1:80").unwrap(), ("::1".to_string(), 80));
    assert!(matches!(
        parse_target("host"),
        Err(TunnelRefusal::TargetFormat)
    ));
    assert!(matches!(
        parse_target("host:70000"),
        Err(TunnelRefusal::TargetPort)
    ));
    let e = TunnelRefusal::SessionNotFound.to_error();
    assert_eq!((e.0, e.1.as_str()), (428, "session not found"));
}

#[test]
fn requests_are_routed() {
    let mut masters = MasterStore::new();
    assert_eq!(dispatch_route(true, None, false, &masters), Route::Plaintext);
    assert_eq!(dispatch_route(false, None, false, &masters), Route::Handshake);
    assert_eq!(
        dispatch_route(false, Some("s:t:n"), true, &masters),
        Route::Tunnel
    );
    assert_eq!(
        dispatch_route(false, Some("s:t:n"), false, &masters),
        Route::SessionNotFound
    );
    masters.insert("s".into(), "u".into(), [0; 32], 1);
    assert_eq!(
        dispatch_route(false, Some("s:t:n"), false, &masters),
        Route::Spawn
    );
}

fn token(sub: &str, exp: u64, secret: &[u8]) -> String {
    let mut claims = serde_json::Map::new();
    claims.insert("sub".into(), sub.into());
    claims.insert("exp".into(), exp.into());
    jsonwebtoken::encode(
        &jsonwebtoken::Header::default(),
        &claims,
        &jsonwebtoken::EncodingKey::from_secret(secret),
    )
    .unwrap()
}

#[test]
fn tokens_are_checked() {
    let far = 100_000_000_000;
    let header = format!("Bearer {}", token("me", far, b"secret"));
    assert_eq!(
        validate_jwt_if_needed(Some(&header), b"secret").unwrap(),
        "me"
    );
    let e = validate_jwt_if_needed(Some(&header), b"other").unwrap_err();
    assert_eq!((e.0, e.1.as_str()), (401, "invalid token"));
    let expired = format!("Bearer {}", token("me", 1, b"secret"));
    assert!(validate_jwt_if_needed(Some(&expired), b"secret").is_err());
    let e = validate_jwt_if_needed(Some("Basic x"), b"secret").unwrap_err();
    assert_eq!((e.0, e.1.as_str()), (401, "invalid header"));
    assert!(validate_jwt_if_needed(None, b"secret").is_err());
    assert_eq!(extract_bearer(Some("Bearer a b")).as_deref(), Some("a b"));
    let claims = token_claims(Some((Some("s".into()), Some(9)))).unwrap();
    assert_eq!((claims.sub.as_str(), claims.exp), ("s", 9));
    assert!(token_claims(Some((None, Some(9)))).is_err());
    assert!(token_claims(None).is_err());
}

#[test]
fn failures_have_answers() {
    assert_eq!(
        plaintext_target(Some("h:80")).unwrap(),
        ("h".to_string(), 80)
    );
    assert_eq!(plaintext_target(None).unwrap_err().0, 400);
    assert!(ack_answer(AckOutcome::Done).is_ok());
    assert_eq!(ack_answer(AckOutcome::TimedOut).unwrap_err().0, 504);
    assert_eq!(ack_answer(AckOutcome::Closed).unwrap_err().0, 502);
    assert_eq!(setup_answer(SetupFailure::ConnectTimeout).0, 504);
    assert_eq!(setup_answer(SetupFailure::Connect("no route")).1, "no route");
    assert_eq!(setup_answer(SetupFailure::Decode("x")).1, "decode error: x");
    assert_eq!(setup_answer(SetupFailure::UploadClosed).0, 502);
    assert_eq!(
        dispatch_answer(DispatchFailure::Decode("x")).1,
        "frame decode error: x"
    );
    assert_eq!(dispatch_answer(DispatchFailure::Closed).0, 502);
    assert!(admit_tunnel(4, 5).is_ok());
    let e = admit_tunnel(5, 5).unwrap_err();
    assert_eq!((e.0, e.1.as_str()), (503, "too many tunnels"));
    assert_eq!(plaintext_session(Some("c".into())), "c");
    let fresh = plaintext_session(None);
    assert_eq!(fresh.len(), 36);
    assert_ne!(fresh, plaintext_session(None));
}

#[test]
fn batches_end_with_their_last_frame() {
    let mut batch = UploadBatch::new();
    assert_eq!(batch.end(), BatchEnd::Continue);
    batch.on_frame(3);
    batch.on_frame(9);
    batch.on_frame(4);
    assert_eq!(batch.end(), BatchEnd::Eos { max_seq: 9 });
}

#[test]
fn log_files_are_planned() {
    let files = plan_log_files(Some("/var/log".into()), Some("app".into()), Some("txt".into()));
    assert_eq!(files.directory, "/var/log");
    assert_eq!(files.prefix, "app");
    assert_eq!(files.suffix, "txt");
    let files = plan_log_files(None, None, None);
    assert!(!files.directory.is_empty() && !files.prefix.is_empty() && !files.suffix.is_empty());
    assert_eq!(LogConfig::default().level, "info");
    assert_eq!(LogConfig::default().max_backups, 7);
}

#[test]
fn seconds_are_counted_from_the_start() {
    let mut clock = Clock::new(std::time::Instant::now());
    let first = now_secs(&mut clock);
    assert!(first < 5);
    assert!(now_secs(&mut clock) >= first);
    let hour = std::time::Duration::from_secs(3600);
    if let Some(earlier) = std::time::Instant::now().checked_sub(hour) {
        assert!(now_secs(&mut Clock::new(earlier)) >= 3600);
    }
}

#[test]
fn numbers_are_written_in_decimal() {
    let mut s = String::from("n=");
    push_decimal(&mut s, 0);
    push_decimal(&mut s, 18446744073709551615);
    assert_eq!(s, "n=018446744073709551615");
}

#[test]
fn issued_tokens_are_accepted() {
    let far = 4_000_000_000u64;
    for user in ["alice", "", "a \"quoted\" \u{fc}ser"] {
        let token = gen_token("secret", user, far).unwrap();
        let header = format!("Bearer {token}");
        assert_eq!(
            validate_jwt_if_needed(Some(&header), b"secret").unwrap(),
            user
        );
        assert!(validate_jwt_if_needed(Some(&header), b"other").is_err());
    }
    let expired = format!("Bearer {}", gen_token("secret", "alice", 1).unwrap());
    assert!(validate_jwt_if_needed(Some(&expired), b"secret").is_err());
    let token = gen_token("s", "u", 7).unwrap();
    // The parts before the signature are {"typ":"JWT","alg":"HS256"} and {"sub":"u","exp":7}.
    assert!(
        token.starts_with("eyJ0eXAiOiJKV1QiLCJhbGciOiJIUzI1NiJ9.eyJzdWIiOiJ1IiwiZXhwIjo3fQ."),
        "{token}"
    );
}
