use audioscan::{
    finish_scan, open_message, SilenceTracker,
    assess, conclude, decode_error, stream_layout, truncated, DecodeProgress, DecodeWarning,
    PacketDecode, PacketRead, ScanError, SecondsText, Status, Step, SCHEMA_VERSION,
};

fn secs(timeout: &str, decoded: &str, declared: &str) -> SecondsText {
    SecondsText {
        timeout: timeout.to_string(),
        decoded: decoded.to_string(),
        declared: declared.to_string(),
    }
}

fn decode_detail(e: &ScanError) -> String {
    match e {
        ScanError::Decode(d) => d.clone(),
        other => panic!("expected a decode error, got {other:?}"),
    }
}

#[test]
fn schema_version_is_one() {
    assert_eq!(SCHEMA_VERSION, 1);
}

#[test]
fn reads_route_packets_and_end_the_loop() {
    let mut p = DecodeProgress::new(3, 2, 48_000);
    assert!(matches!(p.after_read(PacketRead::Packet { track_id: 3 }), Step::Decode));
    assert!(matches!(p.after_read(PacketRead::Packet { track_id: 4 }), Step::Skip));
    assert!(matches!(p.after_read(PacketRead::EndOfStream), Step::Stop));
    assert!(!p.early_end);
    assert!(matches!(p.after_read(PacketRead::ResetRequired), Step::Stop));
    assert!(p.early_end);
    match p.after_read(PacketRead::Failed("bad header".to_string())) {
        Step::Fail(e) => {
            assert_eq!(decode_detail(&e), "reading packet: bad header");
            assert_eq!(e.message(), "decode failed: reading packet: bad header");
        }
        _ => panic!("a read failure fails the scan"),
    }
}

#[test]
fn decodes_count_corrupt_packets_and_stop_on_layout_change() {
    let mut p = DecodeProgress::new(0, 2, 48_000);
    assert!(matches!(p.after_decode(PacketDecode::Corrupt), Step::Skip));
    assert!(matches!(p.after_decode(PacketDecode::Corrupt), Step::Skip));
    assert_eq!(p.skipped_packets, 2);
    assert!(matches!(
        p.after_decode(PacketDecode::Frames { channels: 2, sample_rate: 48_000 }),
        Step::Consume
    ));
    assert!(matches!(
        p.after_decode(PacketDecode::Frames { channels: 6, sample_rate: 44_100 }),
        Step::Stop
    ));
    assert_eq!(p.layout_changed, Some((6, 44_100)));
    assert!(matches!(p.after_decode(PacketDecode::StreamError), Step::Stop));
    assert!(p.early_end);
    match p.after_decode(PacketDecode::Failed("oops".to_string())) {
        Step::Fail(e) => assert_eq!(decode_detail(&e), "decoding: oops"),
        _ => panic!("a decode failure fails the scan"),
    }
}

#[test]
fn warnings_come_in_order_with_their_texts() {
    let mut p = DecodeProgress::new(0, 2, 48_000);
    p.after_decode(PacketDecode::Corrupt);
    p.after_decode(PacketDecode::Corrupt);
    p.after_decode(PacketDecode::Corrupt);
    p.after_decode(PacketDecode::StreamError);
    p.deadline_passed();
    p.after_decode(PacketDecode::Frames { channels: 1, sample_rate: 44_100 });
    let ws = p.warnings(48_000, Some(96_000));
    assert_eq!(
        ws,
        vec![
            DecodeWarning::SkippedPackets { count: 3 },
            DecodeWarning::EarlyEnd,
            DecodeWarning::TimedOut,
            DecodeWarning::LayoutChanged {
                channels: 2,
                sample_rate: 48_000,
                new_channels: 1,
                new_sample_rate: 44_100
            },
            DecodeWarning::Truncated { decoded_frames: 48_000, declared_frames: 96_000 },
        ]
    );
    let s = secs("0.001", "1", "2");
    let texts: Vec<String> = ws.iter().map(|w| w.text(&s)).collect();
    assert_eq!(
        texts,
        vec![
            "skipped 3 corrupt packet(s)",
            "decode ended early on a stream error",
            "decode exceeded timeout of 0.001s",
            "stream changed layout mid-file: 2ch/48000Hz -> 1ch/44100Hz",
            "truncated: decoded 1s of 2s declared",
        ]
    );
}

#[test]
fn truncation_allows_one_percent_slack() {
    assert!(!truncated(99, Some(100)));
    assert!(truncated(98, Some(100)));
    assert!(!truncated(0, Some(0)));
    assert!(!truncated(0, None));
    // 99% of 101 is 99.99, floored to 99
    assert!(!truncated(99, Some(101)));
    assert!(truncated(98, Some(101)));
    // the product saturates instead of overflowing
    assert!(truncated(0, Some(u64::MAX)));
    assert!(!truncated(u64::MAX / 100, Some(u64::MAX)));
    assert!(truncated(u64::MAX / 100 - 1, Some(u64::MAX)));
}

#[test]
fn truncated_half_decode_is_partial() {
    // a 4 s tone at 48 kHz cut to half its data
    let p = DecodeProgress::new(0, 1, 48_000);
    let (status, warnings) =
        assess(&p, 96_000, Some(192_000), false, &secs("", "2", "4")).expect("non-strict success");
    assert_eq!(status, Status::Partial);
    assert_eq!(status.as_str(), "partial");
    assert_eq!(warnings, vec!["truncated: decoded 2s of 4s declared".to_string()]);
    assert!(warnings.iter().any(|w| w.starts_with("truncated:")));
}

#[test]
fn truncated_half_decode_is_an_error_under_strict() {
    let p = DecodeProgress::new(0, 1, 48_000);
    let err = assess(&p, 96_000, Some(192_000), true, &secs("", "2", "4")).unwrap_err();
    let detail = decode_detail(&err);
    assert_eq!(detail, "incomplete decode (strict): truncated: decoded 2s of 4s declared");
    assert!(err.message().to_lowercase().contains("strict"));
}

#[test]
fn timed_out_decode_is_partial_with_a_timeout_warning() {
    let mut p = DecodeProgress::new(0, 1, 48_000);
    assert!(matches!(p.deadline_passed(), Step::Stop));
    let (status, warnings) =
        assess(&p, 4_800, Some(480_000), false, &secs("0.001", "0.1", "10")).expect("soft timeout");
    assert_eq!(status, Status::Partial);
    assert!(warnings.iter().any(|w| w.contains("timeout")));
    assert!(assess(&p, 4_800, Some(480_000), true, &secs("0.001", "0.1", "10")).is_err());
}

#[test]
fn complete_decode_is_clean_strict_or_not() {
    let p = DecodeProgress::new(0, 1, 48_000);
    for strict in [false, true] {
        let (status, warnings) = assess(&p, 48_000, Some(48_000), strict, &secs("60", "1", "1")).unwrap();
        assert_eq!(status, Status::Clean);
        assert_eq!(status.as_str(), "ok");
        assert!(warnings.is_empty());
    }
    assert_eq!(p.skipped_packets, 0);
}

#[test]
fn conclude_joins_warnings_for_strict_errors() {
    let ws = vec!["a".to_string(), "b".to_string()];
    let err = conclude(ws.clone(), true).unwrap_err();
    assert_eq!(decode_detail(&err), "incomplete decode (strict): a; b");
    let (status, kept) = conclude(ws.clone(), false).unwrap();
    assert_eq!(status, Status::Partial);
    assert_eq!(kept, ws);
    let (status, kept) = conclude(Vec::new(), true).unwrap();
    assert_eq!(status, Status::Clean);
    assert!(kept.is_empty());
}

#[test]
fn stream_layout_names_the_missing_field() {
    assert_eq!(stream_layout(Some(48_000), Some(2)).unwrap(), (48_000, 2));
    let e = stream_layout(None, None).unwrap_err();
    assert!(matches!(e, ScanError::MissingStreamInfo("sample rate")));
    assert_eq!(e.message(), "stream is missing its sample rate");
    let e = stream_layout(Some(44_100), None).unwrap_err();
    assert!(matches!(e, ScanError::MissingStreamInfo("channel layout")));
}

#[test]
fn error_messages_match_their_variants() {
    assert_eq!(
        ScanError::Format("unsupported".into()).message(),
        "could not determine audio format: unsupported"
    );
    assert_eq!(ScanError::NoTrack.message(), "file has no decodable audio track");
    assert_eq!(ScanError::NoDecoder.message(), "no decoder available for this codec");
    assert_eq!(ScanError::Config("bad".into()).message(), "invalid config: bad");
    assert_eq!(decode_error("ebur128 init", "x").message(), "decode failed: ebur128 init: x");
    let io = std::io::Error::new(std::io::ErrorKind::NotFound, "gone");
    let e = ScanError::Open { path: "a.wav".into(), source: io };
    assert_eq!(e.message(), "could not open a.wav: gone");
}

#[test]
fn finished_scan_reports_frames_and_silences_from_one_count() {
    let p = DecodeProgress::new(0, 1, 100);
    // 3-frame windows; silent, loud, silent, then 1 frame of a silent window
    let mut t = SilenceTracker::new(100, 3);
    for v in [true, false, true] {
        for _ in 0..3 {
            t.push_frame();
        }
        t.close_window(v);
    }
    t.push_frame();
    let o = finish_scan(&p, t, true, Some(10), false, &secs("", "0.1", "0.1")).unwrap();
    assert_eq!(o.decoded_frames, 10);
    assert_eq!(o.status, Status::Clean);
    assert!(o.warnings.is_empty());
    assert_eq!(o.silences, vec![(0, 3), (6, 10)]);
}

#[test]
fn finished_scan_judges_truncation_by_the_tracker_count() {
    let p = DecodeProgress::new(0, 1, 100);
    let mut t = SilenceTracker::new(100, 1000);
    for _ in 0..3 {
        t.push_frame();
    }
    t.close_window(false);
    let o = finish_scan(&p, t, false, Some(10), false, &secs("", "0.03", "0.1")).unwrap();
    assert_eq!(o.decoded_frames, 3);
    assert_eq!(o.status, Status::Partial);
    assert_eq!(o.warnings, vec!["truncated: decoded 0.03s of 0.1s declared".to_string()]);
    assert!(o.silences.is_empty());

    let mut t = SilenceTracker::new(100, 0);
    t.push_frame();
    let e = finish_scan(&p, t, true, Some(10), true, &secs("", "0.01", "0.1")).err().unwrap();
    assert_eq!(
        e.message(),
        "decode failed: incomplete decode (strict): truncated: decoded 0.01s of 0.1s declared"
    );
}

#[test]
fn open_message_keeps_the_io_description() {
    assert_eq!(
        open_message("take.wav", "No such file or directory (os error 2)"),
        "could not open take.wav: No such file or directory (os error 2)"
    );
    assert_eq!(open_message("", ""), "could not open : ");
}
