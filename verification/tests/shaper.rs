use bytes::{BufMut, BytesMut};
use httproxy::crypto::{decrypt_bytes, encrypt_bytes, AesFrameCipher};
use httproxy::shaper::base122::has_plain_leads;
use httproxy::shaper::frame::{encode_padded, extract_frame_range, frame_raw_limit, padding_len};
use httproxy::shaper::json::{parse_json_payload_into, trim_bytes};
use httproxy::shaper::{
    decode_frame, decode_from_buffer, encode_frame, DecodedFrame, EncodingType, FrameCipher,
    FrameError, PaddingConfig, PaddingRangeError, ResolvedShaperConfig, ShaperAction, ShaperEvent,
    StageConfig, TrafficConfig, TrafficShaper, MAX_JSON_LINE_LEN, MAX_RAW_PAYLOAD, READ_HIGH_WATER,
};

fn test_config() -> TrafficConfig {
    TrafficConfig {
        encoding_type: EncodingType::Binary,
        global: PaddingConfig {
            padding_threshold: 16384,
            padding_range: [0, 16],
        },
        stages: vec![],
        max_download_bytes: None,
    }
}

fn random_key() -> [u8; 32] {
    httproxy::crypto::generate_keypair().0
}

fn seal_all<C: FrameCipher>(
    mut shaper: TrafficShaper<C>,
    data: &[u8],
    out: &mut BytesMut,
) -> Vec<u64> {
    let mut seqs = Vec::new();
    let mut rest = data;
    let mut action = shaper
        .poll_fill_and_seal(ShaperEvent::Polled, out)
        .unwrap();
    loop {
        action = match action {
            ShaperAction::Read { limit } => {
                if rest.is_empty() {
                    shaper.poll_fill_and_seal(ShaperEvent::Eof, out).unwrap()
                } else {
                    let n = rest.len().min(limit);
                    let (now, later) = rest.split_at(n);
                    rest = later;
                    shaper
                        .poll_fill_and_seal(ShaperEvent::Data(now), out)
                        .unwrap()
                }
            }
            ShaperAction::Sealed { seq } => {
                seqs.push(seq);
                shaper
                    .poll_fill_and_seal(ShaperEvent::Polled, out)
                    .unwrap()
            }
            ShaperAction::Finished => return seqs,
            other => panic!("unexpected {other:?} with a ready source"),
        };
    }
}

#[test]
fn encode_decode_roundtrip_binary_no_cipher() {
    let data = b"hello proxy frame";
    let config = test_config();
    let frame = encode_frame(
        data,
        7,
        None,
        config.global.padding_threshold,
        config.global.padding_range,
        config.encoding_type,
    )
    .unwrap();
    let mut buf = BytesMut::from(&frame[..]);
    let (seq, decoded) = decode_from_buffer(&mut buf, None, EncodingType::Binary)
        .unwrap()
        .unwrap();
    assert_eq!(seq, 7);
    assert_eq!(&decoded[..], data);
    assert!(buf.is_empty());
}

#[test]
fn decode_incomplete_returns_none() {
    let mut buf = BytesMut::new();
    buf.put_u16(100u16);
    buf.put_u8(0xAA);
    let mut scratch = BytesMut::new();
    let mut json_scratch = Vec::new();
    let result = decode_frame(
        &mut buf,
        &mut scratch,
        &mut json_scratch,
        None,
        EncodingType::Binary,
    )
    .unwrap();
    assert!(result.is_none());
}

#[test]
fn decode_too_long_rejected() {
    let mut buf = BytesMut::new();
    buf.put_u16((MAX_RAW_PAYLOAD + 1000) as u16);
    buf.resize(2 + MAX_RAW_PAYLOAD + 1000, 0u8);
    let mut scratch = BytesMut::new();
    let mut json_scratch = Vec::new();
    let result = decode_frame(
        &mut buf,
        &mut scratch,
        &mut json_scratch,
        None,
        EncodingType::Binary,
    );
    assert!(matches!(result, Err(FrameError::BinaryTooLong)));
}

#[test]
fn extract_frame_valid() {
    let payload = [0u8; 8]
        .iter()
        .copied()
        .chain(3u16.to_be_bytes())
        .chain(b"abc".iter().copied())
        .collect::<Vec<_>>();
    let (seq, start, end) = extract_frame_range(&payload).unwrap();
    assert_eq!(seq, 0);
    assert_eq!(&payload[start..end], b"abc");
}

#[test]
fn extract_frame_too_short() {
    assert!(extract_frame_range(b"short").is_err());
    assert!(matches!(
        extract_frame_range(b"short"),
        Err(FrameError::PayloadTooShort)
    ));
    assert!(matches!(
        extract_frame_range(&[0, 0, 0, 0, 0, 0, 0, 1, 0, 4, 1, 2, 3]),
        Err(FrameError::PayloadTruncated)
    ));
}

#[test]
fn parse_json_payload_valid() {
    let enc = base122_fast::encode(b"hello");
    let json = format!("{{\"data\":\"{enc}\"}}");
    let mut out = Vec::new();
    let n = parse_json_payload_into(json.as_bytes(), &mut out).unwrap();
    assert_eq!(&out[..n], b"hello");
}

#[test]
fn parse_json_payload_missing_field() {
    let mut out = Vec::new();
    let result = parse_json_payload_into(b"{\"other\":\"x\"}", &mut out);
    assert!(result.is_err());
}

#[test]
fn refused_base122_in_words() {
    let mut out = vec![1, 2, 3];
    let e = parse_json_payload_into("{\"data\":\"\u{800}x\"}".as_bytes(), &mut out).unwrap_err();
    assert_eq!(e, FrameError::InvalidBase122);
    assert_eq!(e.message(), "Invalid lead byte");
    assert_eq!(base122_fast::decode("\u{800}x"), Err("Invalid lead byte"));
    assert!(out.is_empty());
}

#[test]
fn leads_that_stand_for_nothing_are_refused() {
    for lead in ["\u{680}", "\u{6ff}"] {
        for at in [0, 31, 62] {
            let text = format!("{}{lead}{}", "A".repeat(at), "A".repeat(62 - at));
            let line = format!("{{\"data\":\"{text}\"}}");
            let mut out = vec![1];
            assert_eq!(
                parse_json_payload_into(line.as_bytes(), &mut out),
                Err(FrameError::InvalidBase122)
            );
            assert!(out.is_empty());
        }
    }
    assert!(has_plain_leads("A\u{7bf}".as_bytes()));
    assert!(!has_plain_leads("A\u{680}".as_bytes()));
}

#[test]
fn json_frames_of_every_length_roundtrip() {
    for len in 0..64usize {
        let data: Vec<u8> = (0..len).map(|i| (i * 37 + 10) as u8).collect();
        let frame = encode_frame(&data, 1, None, 0, [0, 0], EncodingType::Json).unwrap();
        let mut src = BytesMut::from(&frame[..]);
        let (seq, got) = decode_from_buffer(&mut src, None, EncodingType::Json)
            .unwrap()
            .unwrap();
        assert_eq!(seq, 1);
        assert_eq!(&got[..], &data[..]);
        let body = encode_padded(&data, 1, None::<&AesFrameCipher>, 0, EncodingType::Binary);
        let text = base122_fast::encode(&body.unwrap()[2..]);
        assert_eq!(frame, format!("{{\"data\":\"{text}\"}}\n").into_bytes());
    }
}

#[test]
fn trim_bytes_cuts_white_space() {
    assert_eq!(trim_bytes(b" \t\r\n x y \n"), b"x y");
    assert_eq!(trim_bytes(b"  "), b"");
    assert_eq!(trim_bytes(b"xy"), b"xy");
}

#[test]
fn decode_frame_plain_owned_zero_copy() {
    let data = b"plain payload";
    let frame = encode_frame(data, 9, None, 16384, [0, 0], EncodingType::Binary).unwrap();
    let mut src = BytesMut::from(&frame[..]);
    let mut scratch = BytesMut::new();
    let mut json_scratch = Vec::new();
    match decode_frame(
        &mut src,
        &mut scratch,
        &mut json_scratch,
        None,
        EncodingType::Binary,
    )
    .unwrap()
    .unwrap()
    {
        DecodedFrame::Owned { seq, data } => {
            assert_eq!(seq, 9);
            assert_eq!(&data[..], b"plain payload");
        }
        _ => panic!("expected Owned frame"),
    }
    assert!(src.is_empty());
}

#[test]
fn decode_frame_cipher_into_scratch() {
    let cipher = AesFrameCipher::new(&random_key());
    let frame = encode_frame(
        b"secret payload",
        42,
        Some(&cipher),
        16384,
        [0, 0],
        EncodingType::Binary,
    )
    .unwrap();
    let mut src = BytesMut::from(&frame[..]);
    let mut scratch = BytesMut::new();
    let mut json_scratch = Vec::new();
    match decode_frame(
        &mut src,
        &mut scratch,
        &mut json_scratch,
        Some(&cipher),
        EncodingType::Binary,
    )
    .unwrap()
    .unwrap()
    {
        DecodedFrame::InScratch { seq, start, end } => {
            assert_eq!(seq, 42);
            assert_eq!(&scratch[start..end], b"secret payload");
        }
        _ => panic!("expected InScratch frame"),
    }
    assert!(src.is_empty());
}

#[test]
fn decode_frame_scratch_reused_across_frames() {
    let cipher = AesFrameCipher::new(&random_key());
    let messages = [
        b"first".as_slice(),
        b"second".as_slice(),
        b"third".as_slice(),
    ];
    let mut combined = BytesMut::new();
    for (i, msg) in messages.iter().enumerate() {
        let frame = encode_frame(
            msg,
            i as u64,
            Some(&cipher),
            16384,
            [0, 0],
            EncodingType::Binary,
        )
        .unwrap();
        combined.extend_from_slice(&frame);
    }
    let mut scratch = BytesMut::new();
    let mut json_scratch = Vec::new();
    let mut expected_seq = 0u64;
    while !combined.is_empty() {
        match decode_frame(
            &mut combined,
            &mut scratch,
            &mut json_scratch,
            Some(&cipher),
            EncodingType::Binary,
        )
        .unwrap()
        .unwrap()
        {
            DecodedFrame::InScratch { seq, start, end } => {
                assert_eq!(seq, expected_seq);
                assert_eq!(&scratch[start..end], messages[expected_seq as usize]);
                expected_seq += 1;
            }
            _ => panic!("expected InScratch frame"),
        }
    }
    assert_eq!(expected_seq, 3);
}

#[test]
fn decode_frame_json_roundtrip() {
    let frame = encode_frame(b"json payload", 3, None, 16384, [0, 0], EncodingType::Json).unwrap();
    let mut src = BytesMut::from(&frame[..]);
    let mut scratch = BytesMut::new();
    let mut json_scratch = Vec::new();
    match decode_frame(
        &mut src,
        &mut scratch,
        &mut json_scratch,
        None,
        EncodingType::Json,
    )
    .unwrap()
    .unwrap()
    {
        DecodedFrame::Owned { seq, data } => {
            assert_eq!(seq, 3);
            assert_eq!(&data[..], b"json payload");
        }
        _ => panic!("expected Owned frame"),
    }
    assert!(src.is_empty());
}

#[test]
fn decode_frame_json_cipher_roundtrip() {
    let cipher = AesFrameCipher::new(&random_key());
    let frame = encode_frame(
        b"json cipher payload",
        5,
        Some(&cipher),
        16384,
        [0, 0],
        EncodingType::Json,
    )
    .unwrap();
    let mut src = BytesMut::from(&frame[..]);
    let mut scratch = BytesMut::new();
    let mut json_scratch = Vec::new();
    match decode_frame(
        &mut src,
        &mut scratch,
        &mut json_scratch,
        Some(&cipher),
        EncodingType::Json,
    )
    .unwrap()
    .unwrap()
    {
        DecodedFrame::InScratch { seq, start, end } => {
            assert_eq!(seq, 5);
            assert_eq!(&scratch[start..end], b"json cipher payload");
        }
        _ => panic!("expected InScratch frame"),
    }
    assert!(src.is_empty());
}

#[test]
fn json_frames_fit_single_h2_data_frame() {
    for sealed in [false, true] {
        let cipher = if sealed {
            Some(AesFrameCipher::new(&[0u8; 32]))
        } else {
            None
        };
        let mut config = test_config();
        config.encoding_type = EncodingType::Json;
        let resolved = ResolvedShaperConfig::resolve(&config);
        let data = vec![0xAAu8; 64 * 1024];
        let shaper = TrafficShaper::with_seq(&resolved, cipher, 0);
        let mut out = BytesMut::new();
        seal_all(shaper, &data, &mut out);

        let mut frames = 0;
        let mut src = &out[..];
        while !src.is_empty() {
            let newline = memchr::memchr(b'\n', src).expect("frame must end with newline");
            let line_len = newline + 1;
            assert!(line_len <= 16384, "JSON frame {line_len} B > 16384");
            src = &src[line_len..];
            frames += 1;
        }
        assert!(frames >= 4, "expected multiple frames, got {frames}");

        let opener = AesFrameCipher::new(&[0u8; 32]);
        let mut scratch = BytesMut::new();
        let mut json_scratch = Vec::new();
        let mut decoded = Vec::new();
        let mut buf = out;
        while !buf.is_empty() {
            let cipher: Option<&dyn FrameCipher> = if sealed { Some(&opener) } else { None };
            match decode_frame(
                &mut buf,
                &mut scratch,
                &mut json_scratch,
                cipher,
                EncodingType::Json,
            )
            .unwrap()
            .unwrap()
            {
                DecodedFrame::InScratch { start, end, .. } => {
                    decoded.extend_from_slice(&scratch[start..end]);
                }
                DecodedFrame::Owned { data, .. } => decoded.extend_from_slice(&data),
            }
        }
        assert_eq!(decoded, data);
    }
}

#[test]
fn poll_seal_into_produces_valid_frames() {
    let config = ResolvedShaperConfig::resolve(&test_config());
    let data = vec![0xABu8; 40_000];
    let shaper = TrafficShaper::<AesFrameCipher>::with_seq(&config, None, 0);
    let mut out = BytesMut::new();
    let seqs = seal_all(shaper, &data, &mut out);

    assert_eq!(seqs, vec![0, 1, 2]);

    let mut scratch = BytesMut::new();
    let mut json_scratch = Vec::new();
    let mut decoded = Vec::new();
    let mut frame_idx = 0usize;
    while !out.is_empty() {
        match decode_frame(
            &mut out,
            &mut scratch,
            &mut json_scratch,
            None,
            EncodingType::Binary,
        )
        .unwrap()
        .unwrap()
        {
            DecodedFrame::Owned { seq, data } => {
                assert_eq!(seq, seqs[frame_idx]);
                frame_idx += 1;
                decoded.extend_from_slice(&data);
            }
            _ => panic!("expected Owned frame"),
        }
    }
    assert_eq!(decoded, data);
}

#[test]
fn poll_seal_into_cipher_matches_stream_output() {
    let key = random_key();
    let config = ResolvedShaperConfig::resolve(&test_config());
    let data = vec![0x5Cu8; 33_000];
    let shaper = TrafficShaper::with_seq(&config, Some(AesFrameCipher::new(&key)), 0);
    let mut out = BytesMut::new();
    let seqs = seal_all(shaper, &data, &mut out);
    let opener = AesFrameCipher::new(&key);
    let mut decoded = Vec::new();
    let mut found = Vec::new();
    while let Some((seq, part)) =
        decode_from_buffer(&mut out, Some(&opener), EncodingType::Binary).unwrap()
    {
        found.push(seq);
        decoded.extend_from_slice(&part);
    }
    assert_eq!(seqs, found);
    assert_eq!(decoded, data);
    assert!(out.is_empty());
}

struct VecCipher([u8; 32]);

impl FrameCipher for VecCipher {
    fn encrypt(&self, data: &[u8]) -> Result<Vec<u8>, FrameError> {
        encrypt_bytes(&self.0, data)
    }
    fn decrypt(&self, data: &[u8]) -> Result<Vec<u8>, FrameError> {
        decrypt_bytes(&self.0, data)
    }
}

#[test]
fn seal_in_place_default_impl_produces_valid_frames() {
    let key = random_key();
    let config = ResolvedShaperConfig::resolve(&test_config());
    let data = vec![0x3Du8; 20_000];
    let shaper = TrafficShaper::with_seq(&config, Some(VecCipher(key)), 0);
    let mut out = BytesMut::new();
    let seqs = seal_all(shaper, &data, &mut out);

    let opener = VecCipher(key);
    let mut scratch = BytesMut::new();
    let mut json_scratch = Vec::new();
    let mut decoded = Vec::new();
    let mut frame_idx = 0usize;
    while !out.is_empty() {
        match decode_frame(
            &mut out,
            &mut scratch,
            &mut json_scratch,
            Some(&opener),
            EncodingType::Binary,
        )
        .unwrap()
        .unwrap()
        {
            DecodedFrame::InScratch { seq, start, end } => {
                assert_eq!(seq, seqs[frame_idx]);
                frame_idx += 1;
                decoded.extend_from_slice(&scratch[start..end]);
            }
            _ => panic!("expected InScratch frame"),
        }
    }
    assert_eq!(decoded, data);
}

#[test]
fn encode_frame_rejects_oversized_payload() {
    let big = vec![0u8; MAX_RAW_PAYLOAD + 1];
    let r = encode_frame(&big, 0, None, 0, [0, 0], EncodingType::Binary);
    assert!(matches!(
        r,
        Err(FrameError::PayloadTooLarge {
            len: 16385,
            limit: 16384
        })
    ));
    let r = encode_frame(&big, 0, None, 0, [0, 0], EncodingType::Json);
    assert!(matches!(
        r,
        Err(FrameError::PayloadTooLarge {
            len: 16385,
            limit: 14310
        })
    ));
}

#[test]
fn encode_frame_json_padding_stays_within_line_limit() {
    let raw = vec![0x42u8; 1000];
    let aes = AesFrameCipher::new(&[0u8; 32]);
    for cipher in [None, Some(&aes as &dyn FrameCipher)] {
        let frame =
            encode_frame(&raw, 0, cipher, 100_000, [0, 100_000], EncodingType::Json).unwrap();
        let line_len = frame.iter().position(|&b| b == b'\n').unwrap();
        assert!(line_len <= MAX_JSON_LINE_LEN);
    }
}

#[test]
fn poll_seal_into_eof_returns_none() {
    let cfg = ResolvedShaperConfig::resolve(&test_config());
    let shaper = TrafficShaper::<AesFrameCipher>::with_seq(&cfg, None, 0);
    let mut out = BytesMut::new();
    assert!(seal_all(shaper, b"", &mut out).is_empty());
    assert!(out.is_empty());
}

#[test]
fn poll_seal_into_respects_start_seq() {
    let data = vec![0x55u8; 1000];
    let cfg = ResolvedShaperConfig::resolve(&test_config());
    let shaper = TrafficShaper::<AesFrameCipher>::with_seq(&cfg, None, 42);
    let mut out = BytesMut::new();
    assert_eq!(seal_all(shaper, &data, &mut out), vec![42]);
    let (seq, _) = decode_from_buffer(&mut out, None, EncodingType::Binary)
        .unwrap()
        .expect("frame");
    assert_eq!(seq, 42);
}

#[test]
fn poll_seal_into_pending_then_data() {
    let cfg = ResolvedShaperConfig::resolve(&test_config());
    let mut shaper = TrafficShaper::<AesFrameCipher>::with_seq(&cfg, None, 0);
    let mut out = BytesMut::new();
    let asked = shaper
        .poll_fill_and_seal(ShaperEvent::Polled, &mut out)
        .unwrap();
    assert!(matches!(asked, ShaperAction::Read { .. }));
    let waits = shaper
        .poll_fill_and_seal(ShaperEvent::NotReady, &mut out)
        .unwrap();
    assert_eq!(waits, ShaperAction::Wait, "an empty source must be waited for");

    let asked = shaper
        .poll_fill_and_seal(ShaperEvent::Polled, &mut out)
        .unwrap();
    assert!(matches!(asked, ShaperAction::Read { .. }));
    let data = [0x33u8; READ_HIGH_WATER];
    let sealed = shaper
        .poll_fill_and_seal(ShaperEvent::Data(&data), &mut out)
        .unwrap();
    assert!(
        matches!(sealed, ShaperAction::Sealed { seq: 0 }),
        "data arrival must produce a frame"
    );
    assert!(!out.is_empty());
}

#[test]
fn stages_progress_and_fall_back_to_global() {
    let cfg = TrafficConfig {
        global: PaddingConfig {
            padding_threshold: 10_000,
            padding_range: [0, 0],
        },
        stages: vec![
            StageConfig {
                count: Some(1),
                count_range: None,
                padding_threshold: 10_000,
                padding_range: [100, 100],
            },
            StageConfig {
                count: None,
                count_range: Some([2, 3]),
                padding_threshold: 10_000,
                padding_range: [200, 200],
            },
        ],
        encoding_type: EncodingType::Binary,
        max_download_bytes: None,
    };
    let resolved = ResolvedShaperConfig::resolve(&cfg);
    let mut shaper = TrafficShaper::<AesFrameCipher>::with_seq(&resolved, None, 0);
    let mut out = BytesMut::new();
    let mut sizes = Vec::new();
    for _ in 0..4 {
        let asked = shaper
            .poll_fill_and_seal(ShaperEvent::Polled, &mut out)
            .unwrap();
        assert!(matches!(asked, ShaperAction::Read { .. }));
        let asked = shaper
            .poll_fill_and_seal(ShaperEvent::Data(&[0x44u8; 1000]), &mut out)
            .unwrap();
        assert!(matches!(asked, ShaperAction::Read { .. }));
        let timer = shaper
            .poll_fill_and_seal(ShaperEvent::NotReady, &mut out)
            .unwrap();
        assert!(matches!(timer, ShaperAction::ArmTimer { .. }));
        let sealed = shaper
            .poll_fill_and_seal(ShaperEvent::TimerFired, &mut out)
            .unwrap();
        assert!(matches!(sealed, ShaperAction::Sealed { .. }));
        sizes.push(out.len());
        out.clear();
    }
    assert_eq!(sizes[0], 2 + 10 + 1000 + 100);
    assert_eq!(sizes[1], 2 + 10 + 1000 + 200);
    assert_eq!(sizes[2], 2 + 10 + 1000 + 200);
    assert_eq!(sizes[3], 2 + 10 + 1000);
}

#[test]
fn decode_frame_json_rejects_malformed_lines() {
    let mut scratch = BytesMut::new();
    let mut json_scratch = Vec::new();
    let mut src = BytesMut::from(&b"\n"[..]);
    assert!(decode_frame(
        &mut src,
        &mut scratch,
        &mut json_scratch,
        None,
        EncodingType::Json
    )
    .is_err());

    let mut long = BytesMut::new();
    long.extend_from_slice(b"{\"data\":\"");
    long.resize(MAX_JSON_LINE_LEN + 2, b'x');
    assert!(decode_frame(
        &mut long,
        &mut scratch,
        &mut json_scratch,
        None,
        EncodingType::Json
    )
    .is_err());

    let mut unclosed = BytesMut::new();
    unclosed.extend_from_slice(b"{\"data\":\"abc");
    unclosed.extend_from_slice(b"\n");
    assert!(decode_frame(
        &mut unclosed,
        &mut scratch,
        &mut json_scratch,
        None,
        EncodingType::Json
    )
    .is_err());
}

#[test]
fn decode_frame_json_rejects_invalid_utf8() {
    let mut scratch = BytesMut::new();
    let mut json_scratch = Vec::new();
    let mut src = BytesMut::new();
    src.extend_from_slice(b"{\"data\":\"");
    src.extend_from_slice(&[0xff, 0xfe, 0xfd]);
    src.extend_from_slice(b"\"}\n");
    assert!(decode_frame(
        &mut src,
        &mut scratch,
        &mut json_scratch,
        None,
        EncodingType::Json
    )
    .is_err());
}

#[test]
fn binary_frame_has_its_exact_bytes() {
    let plain: Option<&AesFrameCipher> = None;
    let frame = encode_padded(b"ab", 0x0102, plain, 3, EncodingType::Binary).unwrap();
    assert_eq!(
        frame,
        vec![0, 15, 0, 0, 0, 0, 0, 0, 1, 2, 0, 2, b'a', b'b', 0, 0, 0]
    );
}

#[test]
fn padding_is_cut_to_the_room_in_the_frame() {
    assert_eq!(frame_raw_limit(false, EncodingType::Binary), 16384);
    assert_eq!(frame_raw_limit(true, EncodingType::Json), 14282);
    assert_eq!(padding_len(16380, 16384, 20000, 100), 4);
    assert_eq!(padding_len(100, 16384, 100, 50), 0);
    assert_eq!(padding_len(99, 16384, 100, 50), 50);
}

#[test]
fn padding_ranges_are_checked() {
    let mut cfg = test_config();
    assert!(cfg.validate().is_ok());
    cfg.stages.push(StageConfig {
        count: Some(1),
        count_range: None,
        padding_threshold: 1,
        padding_range: [5, 4],
    });
    assert_eq!(
        cfg.validate(),
        Err(PaddingRangeError::Stage {
            index: 0,
            low: 5,
            high: 4
        })
    );
    cfg.global.padding_range = [2, 1];
    assert_eq!(
        cfg.validate(),
        Err(PaddingRangeError::Global { low: 2, high: 1 })
    );
}

#[test]
fn stages_are_put_into_packet_order() {
    let mut cfg = test_config();
    for end in [9, 3, 5] {
        cfg.stages.push(StageConfig {
            count: Some(end),
            count_range: None,
            padding_threshold: 1,
            padding_range: [0, 0],
        });
    }
    let resolved = ResolvedShaperConfig::resolve(&cfg);
    let ends: Vec<usize> = resolved.stages.iter().map(|s| s.end_count).collect();
    assert_eq!(ends, vec![3, 5, 9]);
}

#[test]
fn frames_cut_short_are_waited_for() {
    for encoding in [EncodingType::Binary, EncodingType::Json] {
        let frame = encode_frame(b"cut", 1, None, 0, [0, 0], encoding).unwrap();
        for n in 0..frame.len() {
            let mut buf = BytesMut::from(&frame[..n]);
            assert!(decode_from_buffer(&mut buf, None, encoding)
                .unwrap()
                .is_none());
        }
    }
}

#[test]
fn a_shaper_sends_all_of_its_source() {
    for len in [0usize, 1, 16_384, 16_385, 100_000] {
        let data: Vec<u8> = (0..len).map(|i| (i % 251) as u8).collect();
        let config = ResolvedShaperConfig::resolve(&test_config());
        let shaper = TrafficShaper::<AesFrameCipher>::with_seq(&config, None, 5);
        let mut out = BytesMut::new();
        let seqs = seal_all(shaper, &data, &mut out);
        let want: Vec<u64> = (5..5 + seqs.len() as u64).collect();
        assert_eq!(seqs, want);
        assert_eq!(seqs.is_empty(), data.is_empty());
        let mut got = Vec::new();
        for seq in want {
            let (n, part) = decode_from_buffer(&mut out, None, EncodingType::Binary)
                .unwrap()
                .unwrap();
            assert_eq!(n, seq);
            assert!(!part.is_empty());
            got.extend_from_slice(&part);
        }
        assert!(out.is_empty());
        assert_eq!(got, data);
    }
}

#[test]
fn buffers_stay_where_there_is_no_frame() {
    let cipher = AesFrameCipher::new(&random_key());
    let too_long = [0xff, 0xff, 1];
    let partial = [0, 100, 1];
    for (bytes, ok) in [(&partial, true), (&too_long, false)] {
        let mut src = BytesMut::from(&bytes[..]);
        let mut scratch = BytesMut::from(&b"scratch"[..]);
        let mut json_scratch = b"json".to_vec();
        let r = decode_frame(
            &mut src,
            &mut scratch,
            &mut json_scratch,
            Some(&cipher),
            EncodingType::Binary,
        );
        assert_eq!(matches!(r, Ok(None)), ok);
        assert_eq!(&src[..], &bytes[..]);
        assert_eq!(&scratch[..], b"scratch");
        assert_eq!(json_scratch, b"json");
    }
}
