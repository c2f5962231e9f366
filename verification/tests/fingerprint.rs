use thmp5::fingerprint::{
    ber, choose_match, finish_fingerprint, generate_fingerprint, lookup_params, raw_fingerprint,
    raw_outcome, same_recording, AcoustIdEntry, FingerprintError, FingerprintPass, FingerprintResult,
    PassAction, PassEvent,
};

#[test]
fn thirty_seconds_are_enough() {
    let mut pass = FingerprintPass::new(Some(1000), Some(1));
    assert_eq!(pass.step(PassEvent::Packet { wanted: false }), PassAction::ReadPacket);
    assert_eq!(pass.step(PassEvent::Packet { wanted: true }), PassAction::DecodePacket);
    assert_eq!(
        pass.step(PassEvent::Decoded { samples: vec![0; 29_999] }),
        PassAction::ReadPacket
    );
    assert!(!pass.is_done());
    assert_eq!(pass.step(PassEvent::Decoded { samples: vec![0] }), PassAction::Finish);
    assert_eq!(pass.step(PassEvent::BadPacket), PassAction::ReadPacket);
    assert_eq!(pass.step(PassEvent::ResetRequired), PassAction::ResetAndRead);
    assert_eq!(pass.step(PassEvent::EndOfStream), PassAction::Finish);
    let unknown = FingerprintPass::new(None, None);
    assert_eq!((unknown.sample_rate, unknown.channels), (44_100, 2));
}

#[test]
fn audio_that_cannot_be_dealt_with_gives_no_fingerprint() {
    let mut pass = FingerprintPass::new(Some(44_100), Some(0));
    pass.step(PassEvent::Decoded { samples: vec![1, 2] });
    assert!(matches!(generate_fingerprint(&pass), Err(FingerprintError::Start)));
    let slow = FingerprintPass::new(Some(1000), Some(1));
    assert!(matches!(raw_fingerprint(&slow), Err(FingerprintError::Start)));
    let short = FingerprintPass::new(Some(11_025), Some(1));
    assert!(matches!(raw_fingerprint(&short), Err(FingerprintError::Empty)));
}

#[test]
fn sound_has_a_fingerprint() {
    // A sweep of ten seconds.
    let rate = 11_025u32;
    let mut pass = FingerprintPass::new(Some(rate), Some(1));
    let samples: Vec<i16> = (0..rate * 10)
        .map(|i| {
            let t = i as f64 / rate as f64;
            ((t * (200.0 + 60.0 * t) * 6.28).sin() * 9000.0) as i16
        })
        .collect();
    pass.step(PassEvent::Decoded { samples });
    let raw = raw_fingerprint(&pass).unwrap();
    assert!(raw.len() >= 10);
    assert!(same_recording(&raw, &raw));
    let made = generate_fingerprint(&pass).unwrap();
    assert_eq!(made.duration_ms, 10_000);
    let finished = finish_fingerprint(&raw, pass.samples.len(), rate, 1).unwrap();
    assert_eq!(made.fingerprint, finished.fingerprint);
    // The first byte tells the algorithm, the next three the length.
    assert!(made.fingerprint.starts_with("AQAA"));
}

/// A pass over as many frames of a sweep as given.
fn sweep(rate: u32, channels: u32, frames: usize) -> FingerprintPass {
    let mut pass = FingerprintPass::new(Some(rate), Some(channels));
    let samples = (0..frames * channels as usize).map(|i| ((i * (i / 300)) % 20_000) as i16);
    pass.samples = samples.collect();
    pass
}

#[test]
fn short_audio_has_no_fingerprint() {
    let empty = |rate, channels, frames| {
        let pass = sweep(rate, channels, frames);
        assert_eq!(raw_fingerprint(&pass), Err(FingerprintError::Empty), "{rate} {frames}");
        assert!(matches!(generate_fingerprint(&pass), Err(FingerprintError::Empty)));
    };
    for channels in [1, 2, 3] {
        empty(11_025, channels, 4_095);
        empty(11_025, channels, 30_030);
        empty(44_100, channels, 120_123);
    }
    empty(44_100, 2, 1);
    empty(48_000, 2, 130_747);
    empty(192_000, 1, 522_988);
    empty(22_050, 1, 60_061);
    empty(8_000, 1, 21_791);
    empty(1_001, 1, 2_726);
}

#[test]
fn long_audio_has_a_fingerprint() {
    for (frames, n) in [(30_031, 1), (31_395, 1), (31_396, 2), (100_000, 52)] {
        assert_eq!(raw_fingerprint(&sweep(11_025, 1, frames)).unwrap().len(), n);
        assert_eq!(raw_fingerprint(&sweep(11_025, 2, frames)).unwrap().len(), n);
    }
    for (rate, frames) in [
        (44_100, 240_248),
        (48_000, 261_495),
        (192_000, 1_045_978),
        (22_050, 120_124),
        (8_000, 43_583),
        (1_001, 5_454),
    ] {
        let pass = sweep(rate, 1, frames);
        assert!(!raw_fingerprint(&pass).unwrap().is_empty());
        assert!(generate_fingerprint(&pass).is_ok());
    }
}

#[test]
fn other_sound_has_another_fingerprint() {
    let a = raw_fingerprint(&sweep(11_025, 1, 60_000)).unwrap();
    let b = raw_fingerprint(&sweep(11_025, 2, 60_000)).unwrap();
    assert_ne!(a, b);
}

#[test]
fn numbers_are_packed() {
    // Header 1, length 1, then the bits of one number: position 1, end.
    let one = finish_fingerprint(&vec![1], 44_100, 44_100, 1).unwrap();
    assert_eq!(one.fingerprint, "AQAAAQE=");
    assert_eq!(one.duration_ms, 1000);
    assert!(matches!(
        finish_fingerprint(&vec![], 1, 44_100, 1),
        Err(FingerprintError::Empty)
    ));
}

#[test]
fn differing_bits_are_counted() {
    let a = vec![0u32; 10];
    let mut b = a.clone();
    b[3] = 0b1011;
    let errors = ber(&a, &b);
    assert_eq!((errors.differing, errors.compared), (3, 320));
    assert!(same_recording(&a, &b));
    assert!(same_recording(&b, &a));
    // Two in five bits: not the same any more.
    let far: Vec<u32> = (0..10).map(|i| if i < 4 { u32::MAX } else { 0 }).collect();
    assert!(!same_recording(&a, &far));
    // Too short to tell.
    assert!(!same_recording(&a[..9], &a[..9]));
}

#[test]
fn the_best_trusted_match_is_chosen() {
    let entry = |id: &str, score: f32, recordings: &[&str]| AcoustIdEntry {
        id: id.into(),
        score_bits: score.to_bits(),
        recordings: recordings.iter().map(|s| s.to_string()).collect(),
    };
    let results = vec![
        entry("low", 0.5, &["x"]),
        entry("good", 0.9, &["m", "n"]),
        entry("better", 0.95, &[]),
        entry("edge", 0.85, &["e"]),
    ];
    let best = choose_match("ok", &results).unwrap();
    assert_eq!(best.acoustid, "better");
    assert_eq!(best.recording_mbid, None);
    let best = choose_match("ok", &results[..2].iter().map(|e| entry(&e.id, f32::from_bits(e.score_bits), &["m"])).collect()).unwrap();
    assert_eq!((best.acoustid.as_str(), best.recording_mbid.as_deref()), ("good", Some("m")));
    assert!(choose_match("error", &results).is_none());
    assert!(choose_match("ok", &vec![entry("low", 0.84, &[])]).is_none());
    assert!(choose_match("ok", &vec![entry("edge", 0.85, &[])]).is_some());
    assert!(choose_match("ok", &vec![entry("none", f32::NAN, &[])]).is_none());
}

#[test]
fn a_lookup_names_duration_and_fingerprint() {
    let f = FingerprintResult { fingerprint: "AQ".into(), duration_ms: 61_999 };
    let expected: Vec<(String, String)> = [
        ("client", "key"),
        ("meta", "recordings"),
        ("duration", "61"),
        ("fingerprint", "AQ"),
    ]
    .iter()
    .map(|(a, b)| (a.to_string(), b.to_string()))
    .collect();
    assert_eq!(lookup_params("key", &f), expected);
}

#[test]
fn no_more_than_thirty_seconds_are_used() {
    let mut pass = FingerprintPass::new(Some(1000), Some(2));
    let samples = (0..70_000).map(|i| (i % 100) as i16).collect();
    assert_eq!(pass.step(PassEvent::Decoded { samples }), PassAction::Finish);
    assert_eq!(pass.samples.len(), 60_000);
    assert_eq!(pass.samples[59_999], 99);
}

#[test]
fn an_incomplete_frame_is_dropped() {
    let mut pass = FingerprintPass::new(Some(44_100), Some(2));
    pass.step(PassEvent::Decoded { samples: vec![1, 2, 3] });
    pass.drop_incomplete_frame();
    assert_eq!(pass.samples, vec![1, 2]);
    pass.drop_incomplete_frame();
    assert_eq!(pass.samples, vec![1, 2]);
    let mut silent = FingerprintPass::new(Some(44_100), Some(0));
    silent.step(PassEvent::Decoded { samples: vec![1] });
    let before = silent.samples.clone();
    silent.drop_incomplete_frame();
    assert_eq!(silent.samples, before);
}

#[test]
fn a_raw_fingerprint_is_started_and_not_empty() {
    assert_eq!(raw_outcome(None), Err(FingerprintError::Start));
    assert_eq!(raw_outcome(Some(vec![])), Err(FingerprintError::Empty));
    assert_eq!(raw_outcome(Some(vec![3, 4])), Ok(vec![3, 4]));
}
