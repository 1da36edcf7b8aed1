use bytes::{BufMut, Bytes, BytesMut};
use httproxy::config::{AuthSection, ProxySection, ServerSection, ServerTopConfig};
use httproxy::crypto::{generate_keypair, private_key_to_b64, AesFrameCipher};
use httproxy::error::{HttpProxyError, ServerError};
use httproxy::server::constants::{
    MASTER_EXPIRY_SECS, MAX_EOS_WAITERS, MAX_PENDING_FRAMES, MAX_TUNNELS, STREAM_IDLE_TIMEOUT_SECS,
};
use httproxy::server::masters::{prune_expired_masters, stream_cutoff, MasterStore};
use httproxy::server::nonce_registry::{NonceConsumedError, NonceQueryResult, NonceRegistry};
use httproxy::server::setup::{build_state, listens_on_path, ServerConfigError};
use httproxy::server::state::{
    DownloadStream, DropAction, ReadGate, ReadOutcome, SourceAccess, SourceItem, UploadStream,
};
use httproxy::server::stream::{DecoderStep, FrameDecoder, StreamError};
use httproxy::server::stream_registry::{StreamQueryResult, StreamRegistry};
use httproxy::server::tunnel::{
    ContinueVerdict, DownloadSegment, IdleVerdict, Phase, SegmentEnd, TunnelActor,
};
use httproxy::server::upload::{EosVerdict, FrameVerdict, UploadActor};
use httproxy::server::utils::{
    extract_cookie_value, padding_of, random_padding, validate_uuid, MAX_ANSWER_PADDING,
};
use httproxy::shaper::{
    encode_frame, EncodingType, FrameError, PaddingConfig, PaddingRangeError, TrafficConfig,
};

fn traffic() -> TrafficConfig {
    TrafficConfig {
        global: PaddingConfig {
            padding_threshold: 100,
            padding_range: [0, 50],
        },
        stages: vec![],
        encoding_type: Default::default(),
        max_download_bytes: None,
    }
}

fn server_config() -> ServerTopConfig {
    ServerTopConfig {
        server: ServerSection {
            listen: "0.0.0.0:0".into(),
            path: "/t".into(),
            private_key: None,
            max_tunnels: None,
        },
        auth: AuthSection {
            secret: "test-key".into(),
        },
        proxy: None,
        log: None,
        dns: None,
        traffic_shaping: traffic(),
    }
}

// Errors.

#[test]
fn error_display_and_source() {
    let io_err = HttpProxyError::Io(std::io::Error::other("boom").to_string());
    assert!(io_err.message().contains("boom"));
    assert!(io_err.source().is_some());

    let proto_err = HttpProxyError::Protocol("bad frame".into());
    assert_eq!(proto_err.message(), "protocol error: bad frame");
    assert!(proto_err.source().is_none());
}

#[test]
fn app_error_constructors() {
    assert_eq!(ServerError::bad_request("x").0, 400);
    assert_eq!(ServerError::bad_gateway("x").0, 502);
    assert_eq!(ServerError::gateway_timeout("x").0, 504);
    assert_eq!(ServerError::unauthorized("x").0, 401);
    assert_eq!(ServerError::not_found("x").0, 404);
    assert_eq!(ServerError::internal("x").0, 500);
    assert_eq!(ServerError::payload_too_large("x").0, 413);
    assert_eq!(ServerError::precondition_required("x").0, 428);
    assert_eq!(ServerError::service_unavailable("x").0, 503);
    assert_eq!(ServerError::service_unavailable("x").1, "x");
}

#[test]
fn app_error_from_std_error() {
    let io = std::io::Error::other("oops");
    let app = ServerError::internal(&io.to_string());
    assert_eq!(app.0, 500);
    assert_eq!(app.1, "oops");
}

#[test]
fn server_errors_become_protocol_errors() {
    let e = HttpProxyError::from_server_error(ServerError::not_found("gone"));
    assert_eq!(e.message(), "protocol error: gone");
}

// Masters.

#[test]
fn prune_expired_masters_removes_old_keeps_fresh() {
    let mut store = MasterStore::new();
    let now = 10_000u64;
    store.insert("old".to_string(), "u".to_string(), [0u8; 32], now - 2000);
    store.insert("fresh".to_string(), "u".to_string(), [0u8; 32], now);
    let pruned = prune_expired_masters(&mut store, now);
    assert_eq!(pruned, 1);
    assert!(store.get("old").is_none());
    assert!(store.get("fresh").is_some());
}

#[test]
fn prune_expired_masters_boundary() {
    let mut store = MasterStore::new();
    let now = 10_000u64;
    store.insert(
        "boundary".to_string(),
        "u".to_string(),
        [0u8; 32],
        now - MASTER_EXPIRY_SECS,
    );
    let pruned = prune_expired_masters(&mut store, now);
    assert_eq!(pruned, 1);
    store.insert(
        "young".to_string(),
        "u".to_string(),
        [0u8; 32],
        now - MASTER_EXPIRY_SECS + 1,
    );
    assert_eq!(prune_expired_masters(&mut store, now), 0);
}

#[test]
fn masters_are_found_and_removed() {
    let mut store = MasterStore::new();
    store.insert("s".to_string(), "user".to_string(), [3u8; 32], 7);
    assert_eq!(store.get("s"), Some(("user".to_string(), [3u8; 32], 7)));
    store.insert("s".to_string(), "other".to_string(), [4u8; 32], 8);
    assert_eq!(store.get("s"), Some(("other".to_string(), [4u8; 32], 8)));
    store.remove("s");
    assert!(store.get("s").is_none());
    assert_eq!(stream_cutoff(MASTER_EXPIRY_SECS + 5), 5);
    assert_eq!(stream_cutoff(5), 0);
}

// Configuration.

#[test]
fn build_state_with_minimal_config() {
    let cfg = server_config();
    let plan = build_state(&cfg).ok().unwrap();
    assert!(plan.private_key.is_none());
    assert!(cfg.dns.is_none());
    assert!(plan.socks5_proxy.is_none());
    assert_eq!(plan.max_tunnels, MAX_TUNNELS);
}

#[test]
fn build_state_reads_key_and_proxy() {
    let mut cfg = server_config();
    let (sk, _) = generate_keypair();
    cfg.server.private_key = Some(private_key_to_b64(&sk));
    cfg.server.max_tunnels = Some(3);
    cfg.proxy = Some(ProxySection {
        socks5: Some("socks5://127.0.0.1:1080".into()),
    });
    let plan = build_state(&cfg).ok().unwrap();
    assert_eq!(plan.private_key, Some(sk));
    assert_eq!(
        plan.socks5_proxy.as_deref(),
        Some("socks5://127.0.0.1:1080")
    );
    assert_eq!(plan.max_tunnels, 3);

    cfg.server.private_key = Some("abc".into());
    assert!(matches!(
        build_state(&cfg),
        Err(ServerConfigError::PrivateKey(_))
    ));
    cfg.traffic_shaping.global.padding_range = [9, 8];
    assert!(matches!(
        build_state(&cfg),
        Err(ServerConfigError::Traffic(PaddingRangeError::Global {
            low: 9,
            high: 8
        }))
    ));
}

#[test]
fn listening_on_a_path() {
    assert!(listens_on_path("/run/proxy.sock"));
    assert!(!listens_on_path("127.0.0.1:80"));
}

// Nonces.

#[test]
fn fresh_claim_succeeds() {
    let mut reg = NonceRegistry::new();
    let nonce = [0xAA; 16];
    assert!(matches!(reg.try_claim("s1", &nonce), Ok(true)));
}

#[test]
fn active_nonce_reports_active() {
    let mut reg = NonceRegistry::new();
    let nonce = [0xBB; 16];
    reg.try_claim("s1", &nonce).unwrap();
    assert_eq!(reg.check_nonce("s1", &nonce), NonceQueryResult::Active);
}

#[test]
fn consumed_nonce_reports_consumed() {
    let mut reg = NonceRegistry::new();
    let nonce = [0xCC; 16];
    reg.try_claim("s1", &nonce).unwrap();
    reg.mark_consumed("s1", &nonce);
    assert_eq!(reg.check_nonce("s1", &nonce), NonceQueryResult::Consumed);
}

#[test]
fn consumed_nonce_rejects_replay() {
    let mut reg = NonceRegistry::new();
    let nonce = [0xDD; 16];
    reg.try_claim("s1", &nonce).unwrap();
    reg.mark_consumed("s1", &nonce);
    assert!(reg.try_claim("s1", &nonce).is_err());
}

#[test]
fn active_nonce_allows_duplicate_claim() {
    let mut reg = NonceRegistry::new();
    let nonce = [0xEE; 16];
    assert!(reg.try_claim("s1", &nonce).unwrap());
    assert!(matches!(reg.try_claim("s1", &nonce), Ok(false)));
    assert_eq!(reg.check_nonce("s1", &nonce), NonceQueryResult::Active);
}

#[test]
fn remove_session_clears_all_nonces() {
    let mut reg = NonceRegistry::new();
    reg.try_claim("s1", &[1u8; 16]).unwrap();
    reg.try_claim("s1", &[2u8; 16]).unwrap();
    reg.remove_session("s1");
    assert_eq!(reg.check_nonce("s1", &[1u8; 16]), NonceQueryResult::Fresh);
    assert_eq!(reg.check_nonce("s1", &[2u8; 16]), NonceQueryResult::Fresh);
}

#[test]
fn concurrent_sessions_independent() {
    let mut reg = NonceRegistry::new();
    let n1 = [1u8; 16];
    let n2 = [2u8; 16];
    reg.try_claim("s1", &n1).unwrap();
    reg.try_claim("s2", &n2).unwrap();
    reg.mark_consumed("s1", &n1);
    assert_eq!(reg.check_nonce("s1", &n1), NonceQueryResult::Consumed);
    assert_eq!(reg.check_nonce("s2", &n2), NonceQueryResult::Active);
}

#[test]
fn fresh_nonce_returns_fresh() {
    let reg = NonceRegistry::new();
    assert_eq!(
        reg.check_nonce("nonexistent", &[0xFF; 16]),
        NonceQueryResult::Fresh
    );
}

#[test]
fn concurrent_claims_different_nonces() {
    let mut reg = NonceRegistry::default();
    let mut success = 0;
    for i in 0..16u8 {
        if let Ok(true) = reg.try_claim("concurrent-session", &[i; 16]) {
            success += 1;
        }
    }
    assert_eq!(success, 16, "all 16 claims should succeed");
}

#[test]
fn concurrent_remove_and_claim_race() {
    let mut reg = NonceRegistry::new();
    let nonce = [0x99u8; 16];
    assert!(matches!(reg.try_claim("remove-session", &nonce), Ok(true)));
    let other_nonce = [0x88u8; 16];
    let _ = reg.try_claim("remove-session", &other_nonce);
    reg.remove_session("remove-session");
    assert_eq!(
        reg.check_nonce("remove-session", &nonce),
        NonceQueryResult::Fresh
    );
    assert_eq!(
        reg.check_nonce("remove-session", &other_nonce),
        NonceQueryResult::Fresh
    );
}

#[test]
fn concurrent_claim_and_consume_race() {
    let nonce = [0x42u8; 16];
    for consume_first in [false, true] {
        let mut reg = NonceRegistry::new();
        assert!(matches!(reg.try_claim("race-session", &nonce), Ok(true)));
        if consume_first {
            reg.mark_consumed("race-session", &nonce);
        }
        match reg.try_claim("race-session", &nonce) {
            Ok(false) => {}
            Err(NonceConsumedError) => {}
            Ok(true) => panic!("should not claim an already-Active nonce"),
        }
    }
}

#[test]
fn shrinking_keeps_nonces() {
    let mut reg = NonceRegistry::new();
    reg.try_claim("s", &[1u8; 16]).unwrap();
    reg.mark_consumed("s", &[2u8; 16]);
    reg.shrink_to_fit();
    assert_eq!(reg.check_nonce("s", &[1u8; 16]), NonceQueryResult::Active);
}

// Streams.

fn dummy_ts() -> u64 {
    1_700_000_000
}

#[test]
fn fresh_register_succeeds() {
    let mut reg = StreamRegistry::new();
    assert!(reg.register(1, dummy_ts()));
    assert_eq!(reg.check(1), StreamQueryResult::Active);
}

#[test]
fn duplicate_register_rejected() {
    let mut reg = StreamRegistry::new();
    assert!(reg.register(1, dummy_ts()));
    assert!(!reg.register(1, dummy_ts()));
}

#[test]
fn consumed_stream_reports_consumed() {
    let mut reg = StreamRegistry::new();
    reg.register(1, dummy_ts());
    reg.mark_consumed(1);
    assert_eq!(reg.check(1), StreamQueryResult::Consumed);
}

#[test]
fn fresh_stream_returns_fresh() {
    let reg = StreamRegistry::new();
    assert_eq!(reg.check(2), StreamQueryResult::Fresh);
}

#[test]
fn remove_consumed_before_removes_expired() {
    let mut reg = StreamRegistry::new();
    reg.register(1, 100);
    reg.mark_consumed(1);
    reg.register(2, 200);
    let removed = reg.remove_consumed_before(150);
    assert_eq!(removed, 1);
    assert_eq!(reg.check(1), StreamQueryResult::Fresh);
    assert_eq!(reg.check(2), StreamQueryResult::Active);
}

#[test]
fn remove_consumed_before_keeps_recent() {
    let mut reg = StreamRegistry::new();
    reg.register(1, 1000);
    reg.mark_consumed(1);
    let removed = reg.remove_consumed_before(900);
    assert_eq!(removed, 0);
    assert_eq!(reg.check(1), StreamQueryResult::Consumed);
    reg.shrink_to_fit();
    assert_eq!(reg.check(1), StreamQueryResult::Consumed);
}

#[test]
fn concurrent_streams_independent() {
    let mut reg = StreamRegistry::new();
    assert!(reg.register(1, dummy_ts()));
    assert!(reg.register(2, dummy_ts()));
    reg.mark_consumed(1);
    assert_eq!(reg.check(1), StreamQueryResult::Consumed);
    assert_eq!(reg.check(2), StreamQueryResult::Active);
}

#[test]
fn concurrent_registrations_different_ids() {
    let mut reg = StreamRegistry::default();
    let success = (0..16u128).filter(|id| reg.register(*id, dummy_ts())).count();
    assert_eq!(success, 16, "all 16 registrations should succeed");
}

#[test]
fn concurrent_register_and_consume_race() {
    for consume_first in [false, true] {
        let mut reg = StreamRegistry::new();
        assert!(reg.register(9, dummy_ts()));
        if consume_first {
            reg.mark_consumed(9);
        }
        assert!(!reg.register(9, dummy_ts()));
    }
}

// Cookies and padding.

#[test]
fn extract_cookie_basic() {
    let header = Some(&b"session=abc123; other=val"[..]);
    assert_eq!(
        extract_cookie_value(header, "session").as_deref(),
        Some("abc123")
    );
    assert_eq!(
        extract_cookie_value(header, "other").as_deref(),
        Some("val")
    );
    assert_eq!(extract_cookie_value(header, "missing"), None);
}

#[test]
fn extract_cookie_no_cookie_header() {
    assert_eq!(extract_cookie_value(None, "session"), None);
}

#[test]
fn extract_cookie_edges() {
    assert_eq!(
        extract_cookie_value(Some(&b";; a=1;session= x y ;b"[..]), "session").as_deref(),
        Some("x y")
    );
    assert_eq!(
        extract_cookie_value(Some(&b"xsession=1"[..]), "session"),
        None
    );
    assert_eq!(
        extract_cookie_value(Some(&[0xff, b'=', b'1'][..]), "session"),
        None
    );
}

#[test]
fn random_padding_length() {
    for _ in 0..100 {
        let p = random_padding();
        assert!(p.len() >= 30);
        assert!(p.len() <= MAX_ANSWER_PADDING);
    }
    assert_eq!(padding_of(10), "padding=XX");
    assert_eq!(padding_of(0), "");
}

#[test]
fn uuids_are_read() {
    assert_eq!(
        validate_uuid("00000000-0000-0000-0000-0000000000ff").unwrap(),
        255
    );
    let e = validate_uuid("not-a-uuid").unwrap_err();
    assert_eq!(e.0, 400);
    assert_eq!(e.1, "invalid UUID format");
}

// The decoder of uploads.

fn make_frame(data: &[u8], seq: u64) -> Vec<u8> {
    encode_frame(data, seq, None, 16384, [0, 0], EncodingType::Binary).unwrap()
}

fn decoder(max: usize) -> FrameDecoder<AesFrameCipher> {
    FrameDecoder::new(None, EncodingType::Binary, max)
}

fn frame_of(step: DecoderStep) -> (u64, Bytes) {
    match step {
        DecoderStep::Frame { seq, data } => (seq, data),
        other => panic!("expected a frame, got {other:?}"),
    }
}

#[test]
fn single_frame_decoded() {
    let mut decoder = decoder(18_781);
    assert!(matches!(decoder.poll_next(), DecoderStep::NeedInput));
    decoder.push_chunk(&make_frame(b"hello", 0));
    let (seq, data) = frame_of(decoder.poll_next());
    assert_eq!(seq, 0);
    assert_eq!(&data[..], b"hello");
    assert!(matches!(decoder.poll_next(), DecoderStep::NeedInput));
    decoder.finish();
    assert!(matches!(decoder.poll_next(), DecoderStep::Finished));
}

#[test]
fn partial_then_complete() {
    let frame = make_frame(b"world", 1);
    let split_at = frame.len() / 2;
    let mut decoder = decoder(18_781);
    decoder.push_chunk(&frame[..split_at]);
    assert!(matches!(decoder.poll_next(), DecoderStep::NeedInput));
    decoder.push_chunk(&frame[split_at..]);
    let (seq, data) = frame_of(decoder.poll_next());
    assert_eq!(seq, 1);
    assert_eq!(&data[..], b"world");
    decoder.finish();
    assert!(matches!(decoder.poll_next(), DecoderStep::Finished));
}

#[test]
fn multiple_frames_in_one_chunk() {
    let mut combined = make_frame(b"first", 0);
    combined.extend_from_slice(&make_frame(b"second", 1));
    let mut decoder = decoder(18_781);
    decoder.push_chunk(&combined);
    decoder.finish();

    let (seq0, d0) = frame_of(decoder.poll_next());
    assert_eq!(seq0, 0);
    assert_eq!(&d0[..], b"first");

    let (seq1, d1) = frame_of(decoder.poll_next());
    assert_eq!(seq1, 1);
    assert_eq!(&d1[..], b"second");

    assert!(matches!(decoder.poll_next(), DecoderStep::Finished));
}

#[test]
fn trailing_data_errors() {
    let mut decoder = decoder(18_781);
    decoder.push_chunk(b"abcde");
    decoder.finish();
    assert!(matches!(decoder.poll_next(), DecoderStep::Failed(_)));
}

#[test]
fn a_frame_cut_off_by_the_end_errors() {
    let mut decoder = decoder(18_781);
    decoder.push_chunk(&[0, 50, 1]);
    decoder.finish();
    assert!(matches!(
        decoder.poll_next(),
        DecoderStep::Failed(StreamError::TrailingData)
    ));
}

#[test]
fn empty_stream_yields_none() {
    let mut decoder = decoder(18_781);
    decoder.finish();
    assert!(matches!(decoder.poll_next(), DecoderStep::Finished));
}

#[test]
fn decode_error_propagates() {
    let mut buf = BytesMut::new();
    buf.put_u16(50_000u16);
    buf.resize(2 + 50_000, 0u8);
    let mut decoder = decoder(18_781);
    decoder.push_chunk(&buf);
    assert!(matches!(
        decoder.poll_next(),
        DecoderStep::Failed(StreamError::Frame(FrameError::BinaryTooLong))
    ));
}

#[test]
fn max_buf_size_enforced() {
    let mut chunk = BytesMut::with_capacity(2 + 200);
    chunk.put_u16(1000u16);
    chunk.resize(2 + 200, 0u8);
    let mut decoder = decoder(512);
    let mut failure = None;
    for _ in 0..3 {
        decoder.push_chunk(&chunk);
        match decoder.poll_next() {
            DecoderStep::NeedInput => {}
            DecoderStep::Failed(e) => {
                failure = Some(e);
                break;
            }
            other => panic!("unexpected {other:?}"),
        }
    }
    let err_msg = failure.unwrap().message();
    assert!(err_msg.contains("buffer exceeded"), "got: {err_msg}");
}

#[test]
fn encrypted_frames_decoded_with_scratch() {
    let key = generate_keypair().0;
    let cipher = AesFrameCipher::new(&key);
    let frame = encode_frame(
        b"encrypted hello",
        0,
        Some(&cipher),
        16384,
        [0, 0],
        EncodingType::Binary,
    )
    .unwrap();
    let mut decoder = FrameDecoder::new(Some(cipher), EncodingType::Binary, 18_781);
    decoder.push_chunk(&frame);
    let (seq, data) = frame_of(decoder.poll_next());
    assert_eq!(seq, 0);
    assert_eq!(&data[..], b"encrypted hello");
}

// The upload.

fn delivered(verdict: FrameVerdict) -> Vec<u8> {
    match verdict {
        FrameVerdict::Deliver(parts) => parts.concat(),
        _ => panic!("expected delivery"),
    }
}

#[test]
fn frames_delivered_in_order() {
    let mut actor = UploadActor::<u8>::new(0);
    assert_eq!(
        delivered(actor.handle_frame(0, Bytes::from_static(b"hello"))),
        b"hello"
    );
    assert_eq!(
        delivered(actor.handle_frame(1, Bytes::from_static(b"world"))),
        b"world"
    );
    assert!(matches!(actor.handle_eos(1, 7), EosVerdict::AckNow(7)));
}

#[test]
fn reorder_buffer_drains_on_consecutive_arrival() {
    let mut actor = UploadActor::new(0);
    assert!(matches!(
        actor.handle_frame(2, Bytes::from_static(b"c")),
        FrameVerdict::Stored
    ));
    assert!(matches!(actor.handle_eos(2, 'w'), EosVerdict::Queued));
    assert!(actor.has_pending());
    assert!(actor.take_due_waiters().is_empty());
    assert_eq!(
        delivered(actor.handle_frame(0, Bytes::from_static(b"a"))),
        b"a"
    );
    assert!(actor.take_due_waiters().is_empty());
    assert_eq!(
        delivered(actor.handle_frame(1, Bytes::from_static(b"b"))),
        b"bc"
    );
    assert_eq!(actor.next_seq(), Some(3));
    assert_eq!(actor.take_due_waiters(), vec![(2, 'w')]);
    assert!(!actor.has_pending());
}

#[test]
fn eos_acked_immediately_when_next_seq_exceeds_max() {
    let mut actor = UploadActor::new(5);
    assert!(matches!(actor.handle_eos(3, ()), EosVerdict::AckNow(())));
}

#[test]
fn shutdown_drains_and_acks_waiters() {
    let mut actor = UploadActor::new(0);
    assert!(matches!(
        actor.handle_frame(5, Bytes::from_static(b"far")),
        FrameVerdict::Stored
    ));
    assert!(matches!(actor.handle_eos(5, 1), EosVerdict::Queued));
    actor.shutdown_and_drain();
    assert!(matches!(
        actor.handle_frame(0, Bytes::from_static(b"late")),
        FrameVerdict::Ignored
    ));
    assert_eq!(actor.ack_all_waiters(), vec![1]);
    assert!(matches!(actor.handle_eos(5, 2), EosVerdict::Closed(2)));
}

#[test]
fn stale_and_repeated_frames_are_told_apart() {
    let mut actor = UploadActor::<()>::new(3);
    assert!(matches!(
        actor.handle_frame(2, Bytes::from_static(b"x")),
        FrameVerdict::Stale
    ));
    assert!(matches!(
        actor.handle_frame(5, Bytes::from_static(b"x")),
        FrameVerdict::Stored
    ));
    assert!(matches!(
        actor.handle_frame(5, Bytes::from_static(b"y")),
        FrameVerdict::Duplicate
    ));
}

#[test]
fn the_reorder_buffer_is_bounded() {
    let mut actor = UploadActor::<()>::new(0);
    for i in 0..MAX_PENDING_FRAMES as u64 {
        assert!(matches!(
            actor.handle_frame(i + 1, Bytes::from_static(b"x")),
            FrameVerdict::Stored
        ));
    }
    assert!(matches!(
        actor.handle_frame(MAX_PENDING_FRAMES as u64 + 1, Bytes::from_static(b"x")),
        FrameVerdict::Overflow
    ));

    let mut actor = UploadActor::new(0);
    for i in 0..MAX_EOS_WAITERS {
        assert!(matches!(actor.handle_eos(9, i), EosVerdict::Queued));
    }
    assert!(matches!(actor.handle_eos(9, 1000), EosVerdict::Overflow(1000)));
}

// The tunnel.

fn rotating_actor() -> TunnelActor<u8> {
    let mut actor = TunnelActor::new(true, Some(1000), 0);
    assert_eq!(actor.phase(), Phase::Connecting);
    actor.on_upstream_connected();
    assert!(actor.start());
    actor
}

#[test]
fn continue_in_rotating_restarts_download() {
    let mut actor = rotating_actor();
    let mut segment = DownloadSegment::new(Some(1000));
    assert!(segment.on_sent(2000));
    actor.on_segment_done(SegmentEnd::Rotated);
    assert!(actor.next_waiting().is_none());
    assert!(matches!(actor.on_continue(1), ContinueVerdict::Start(1)));
    assert_eq!(actor.phase(), Phase::Active);
}

#[test]
fn continue_during_active_segment_is_queued_and_served() {
    let mut actor = rotating_actor();
    assert!(matches!(actor.on_continue(1), ContinueVerdict::Queued));
    actor.on_segment_done(SegmentEnd::Rotated);
    assert!(matches!(
        actor.next_waiting(),
        Some(ContinueVerdict::Start(1))
    ));
    actor.on_offer(true);
    assert_eq!(actor.phase(), Phase::Active);
    assert!(actor.next_waiting().is_none());
}

#[test]
fn continue_in_direct_mode_returns_none() {
    let mut actor = TunnelActor::new(false, None, 0);
    actor.on_upstream_connected();
    assert!(!actor.start());
    assert!(matches!(actor.on_continue(1), ContinueVerdict::Refuse(1)));
}

#[test]
fn abandoned_continue_skips_segment_restart() {
    let mut actor = rotating_actor();
    assert!(matches!(actor.on_continue(1), ContinueVerdict::Queued));
    actor.on_segment_done(SegmentEnd::Rotated);
    assert!(matches!(
        actor.next_waiting(),
        Some(ContinueVerdict::Start(1))
    ));
    actor.on_offer(false);
    assert_eq!(actor.phase(), Phase::Rotating);
    assert!(matches!(actor.on_continue(2), ContinueVerdict::Start(2)));
}

#[test]
fn rotation_staleness_timeout_closes_tunnel() {
    let mut actor = rotating_actor();
    assert!(!actor.rotation_timer_applies());
    actor.on_segment_done(SegmentEnd::Rotated);
    assert!(actor.rotation_timer_applies());
    actor.cleanup();
    assert!(actor.should_stop());
    assert_eq!(actor.phase(), Phase::Closed);
}

#[test]
fn idle_tunnels_are_closed() {
    let mut actor = rotating_actor();
    actor.touch(100);
    assert_eq!(
        actor.on_idle_timer(100 + STREAM_IDLE_TIMEOUT_SECS - 1),
        IdleVerdict::Rearm { secs: 1 }
    );
    assert_eq!(
        actor.on_idle_timer(100 + STREAM_IDLE_TIMEOUT_SECS),
        IdleVerdict::Close
    );
    assert!(matches!(actor.on_continue(4), ContinueVerdict::Queued));
    actor.on_upload_closed();
    assert!(actor.should_stop());
    assert_eq!(actor.cleanup(), vec![4]);
}

#[test]
fn ended_segments_refuse_who_waits() {
    let mut actor = rotating_actor();
    assert!(matches!(actor.on_continue(1), ContinueVerdict::Queued));
    actor.on_segment_done(SegmentEnd::Ended);
    assert!(matches!(
        actor.next_waiting(),
        Some(ContinueVerdict::Refuse(1))
    ));
    assert!(actor.should_stop());
}

// Streams of one direction.

#[test]
fn upload_streams_grow_idle_and_stale() {
    let mut s = UploadStream::new(10);
    assert!(!s.is_idle(10 + STREAM_IDLE_TIMEOUT_SECS - 1));
    assert!(s.is_idle(10 + STREAM_IDLE_TIMEOUT_SECS + 1));
    s.touch(200);
    assert!(!s.is_idle(201));
    assert!(!s.is_rotation_stale(1_000_000));
    s.mark_rotation(300);
    assert!(!s.is_rotation_stale(301));
    assert!(s.is_rotation_stale(400));
    s.clear_rotation();
    assert!(!s.is_rotation_stale(400));
    assert!(s.do_shutdown());
    assert!(!s.do_shutdown());
}

#[test]
fn download_streams_rotate_at_their_limit() {
    let mut s = DownloadStream::new(false, Some(100));
    assert_eq!(s.gate(true, false, SourceAccess::Available), ReadGate::Read);
    assert_eq!(
        s.on_item(SourceItem::Frame { len: 99 }),
        ReadOutcome::Emit
    );
    assert_eq!(s.on_item(SourceItem::Pending), ReadOutcome::Wait);
    assert_eq!(
        s.on_item(SourceItem::Frame { len: 1 }),
        ReadOutcome::EmitAndRotate
    );
    assert_eq!(s.drop_action(), DropAction::Keep);

    let mut s = DownloadStream::new(false, None);
    assert_eq!(s.on_item(SourceItem::Error), ReadOutcome::Fail);
    assert_eq!(s.drop_action(), DropAction::TearDown);
    let mut s = DownloadStream::new(true, None);
    assert_eq!(s.gate(false, false, SourceAccess::Available), ReadGate::Wait);
    assert_eq!(s.on_item(SourceItem::End), ReadOutcome::End);
}

#[test]
fn streams_are_read_wherever_they_are_cut() {
    let items: [(u64, &[u8]); 4] = [(7, b"one"), (3, b""), (9, b"three"), (9, &[5u8; 4000])];
    let mut stream = Vec::new();
    for (seq, data) in items {
        stream.extend_from_slice(&make_frame(data, seq));
    }
    for size in [1, 2, 3, 7, 100, stream.len()] {
        let mut decoder = decoder(18_781);
        let mut got = Vec::new();
        for chunk in stream.chunks(size) {
            decoder.push_chunk(chunk);
            while let DecoderStep::Frame { seq, data } = decoder.poll_next() {
                got.push((seq, data));
            }
            assert!(matches!(decoder.poll_next(), DecoderStep::NeedInput));
        }
        decoder.finish();
        assert!(matches!(decoder.poll_next(), DecoderStep::Finished));
        assert_eq!(got.len(), items.len());
        for ((seq, data), (want_seq, want)) in got.iter().zip(items) {
            assert_eq!(*seq, want_seq);
            assert_eq!(&data[..], want);
        }
    }
    let mut empty = decoder(18_781);
    empty.finish();
    assert!(matches!(empty.poll_next(), DecoderStep::Finished));
}

#[test]
fn frames_are_put_into_order_from_any_order() {
    let orders: [[u64; 6]; 4] = [
        [4, 5, 6, 7, 8, 9],
        [9, 8, 7, 6, 5, 4],
        [6, 4, 9, 5, 8, 7],
        [5, 7, 9, 8, 6, 4],
    ];
    for order in orders {
        let mut actor = UploadActor::new(4);
        let mut written: Vec<u8> = Vec::new();
        let mut seen: Vec<u64> = Vec::new();
        for seq in order {
            seen.push(seq);
            match actor.handle_frame(seq, Bytes::from(vec![seq as u8; seq as usize])) {
                FrameVerdict::Deliver(parts) => written.extend(parts.concat()),
                FrameVerdict::Stored => {}
                _ => panic!("frame {seq} was refused"),
            }
            assert!(!matches!(actor.handle_eos(seq, ()), EosVerdict::Closed(_)));
            let mut want: Vec<u8> = Vec::new();
            let mut next = 4;
            while seen.contains(&next) {
                want.extend(vec![next as u8; next as usize]);
                next += 1;
            }
            assert_eq!(written, want);
            assert_eq!(actor.next_seq(), Some(next));
            actor.take_due_waiters();
        }
        assert_eq!(actor.next_seq(), Some(10));
    }
}
