use lecture::vad::{StreamingVad, VadConfig};

fn loud_frame(bytes: usize) -> Vec<u8> {
    // Samples of 1000 (little endian): well above the default threshold of 500.
    let mut out = Vec::new();
    while out.len() < bytes {
        out.push(0xE8);
        out.push(0x03);
    }
    out
}

fn quiet_frame(bytes: usize) -> Vec<u8> {
    vec![0u8; bytes]
}

#[test]
fn vad_frame_size_matches_expected_pcm_layout() {
    let vad = StreamingVad::new(16_000, 1, VadConfig::default());
    assert_eq!(vad.frame_bytes(), 640);
}

#[test]
fn default_config_values() {
    let cfg = VadConfig::default();
    assert_eq!(cfg.frame_ms, 20);
    assert_eq!(cfg.start_ms, 160);
    assert_eq!(cfg.stop_ms, 700);
    assert_eq!(cfg.preroll_ms, 200);
    assert_eq!(cfg.max_segment_ms, 25_000);
    assert_eq!(cfg.min_segment_ms, 500);
    assert_eq!(cfg.silence_threshold, 500);
}

#[test]
fn stereo_frames_are_twice_as_large() {
    let vad = StreamingVad::new(16_000, 2, VadConfig::default());
    assert_eq!(vad.frame_bytes(), 1280);
    let vad = StreamingVad::new(48_000, 1, VadConfig::default());
    assert_eq!(vad.frame_bytes(), 1920);
}

#[test]
fn silence_never_opens_a_segment() {
    let mut vad = StreamingVad::new(16_000, 1, VadConfig::default());
    let fb = vad.frame_bytes();
    for i in 0..200u64 {
        assert!(vad.push_frame(&quiet_frame(fb), i * 20).is_none());
    }
    assert!(vad.flush(4000).is_none());
}

#[test]
fn speech_then_silence_closes_a_segment() {
    let mut vad = StreamingVad::new(16_000, 1, VadConfig::default());
    let fb = vad.frame_bytes();
    let mut segments = Vec::new();
    let mut t = 0u64;
    // 1 s of quiet, 2 s of speech, 1 s of quiet.
    for _ in 0..50 {
        if let Some(s) = vad.push_frame(&quiet_frame(fb), t) {
            segments.push(s);
        }
        t += 20;
    }
    for _ in 0..100 {
        if let Some(s) = vad.push_frame(&loud_frame(fb), t) {
            segments.push(s);
        }
        t += 20;
    }
    for _ in 0..50 {
        if let Some(s) = vad.push_frame(&quiet_frame(fb), t) {
            segments.push(s);
        }
        t += 20;
    }
    assert_eq!(segments.len(), 1);
    let s = &segments[0];
    // Speech starts at 1000 ms; the detector opens at the 8th loud frame
    // (starting at 1140 ms) and reaches back 200 ms of pre-roll.
    assert_eq!(s.start_ms, 940);
    // 35 quiet frames (700 ms) after the speech close the segment.
    assert_eq!(s.end_ms, 3000 + 700);
    assert_eq!(s.speech_ms, 2000);
    // 10 pre-roll frames, then every frame up to the end of the silence run.
    assert_eq!(s.pcm.len(), (10 + 92 + 35) * fb);
    assert!(vad.flush(t).is_none());
}

#[test]
fn long_speech_is_cut_at_the_maximum_length() {
    let cfg = VadConfig { max_segment_ms: 1000, ..VadConfig::default() };
    let mut vad = StreamingVad::new(16_000, 1, cfg);
    let fb = vad.frame_bytes();
    let mut segments = Vec::new();
    for i in 0..100u64 {
        if let Some(s) = vad.push_frame(&loud_frame(fb), i * 20) {
            segments.push(s);
        }
    }
    assert!(!segments.is_empty());
    for s in &segments {
        assert!(s.pcm.len() >= 32_000);
        assert!(s.pcm.len() < 32_000 + fb);
    }
}

#[test]
fn flush_closes_an_open_segment() {
    let mut vad = StreamingVad::new(16_000, 1, VadConfig::default());
    let fb = vad.frame_bytes();
    for i in 0..40u64 {
        assert!(vad.push_frame(&loud_frame(fb), i * 20).is_none());
    }
    let s = vad.flush(800).expect("an open segment");
    assert_eq!(s.start_ms, 0);
    assert_eq!(s.end_ms, 800);
    assert!(vad.flush(900).is_none());
}

#[test]
fn short_bursts_are_discarded() {
    let mut vad = StreamingVad::new(16_000, 1, VadConfig::default());
    let fb = vad.frame_bytes();
    let mut t = 0u64;
    for _ in 0..8 {
        assert!(vad.push_frame(&loud_frame(fb), t).is_none());
        t += 20;
    }
    // Open now; the 8 frames so far hold 5120 bytes, less than 500 ms.
    let s = vad.flush(t);
    assert!(s.is_none());
}

#[test]
fn a_second_flush_reports_nothing() {
    let mut vad = StreamingVad::new(16_000, 1, VadConfig::default());
    let fb = vad.frame_bytes();
    for i in 0..8u64 {
        assert!(vad.push_frame(&loud_frame(fb), i * 20).is_none());
    }
    // 8 loud frames (5 120 bytes) are shorter than the 16 000-byte minimum.
    assert!(vad.flush(160).is_none());
    assert!(vad.flush(200).is_none());
    for i in 10..50u64 {
        let _ = vad.push_frame(&loud_frame(fb), i * 20);
    }
    assert!(vad.flush(1000).is_some());
    assert!(vad.flush(1100).is_none());
}
