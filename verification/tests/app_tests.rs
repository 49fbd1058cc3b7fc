use lecture::app::{
    backend_name, finished_text, human_language_name, segment_console_text, segment_wav_name,
    session_banner, session_capture_feed, session_vad_config, worker_step, QueueItem, QueuePop,
    SegmentQueue, SpeechTally, WorkerAction, WorkerEvent,
};
use lecture::platform::AudioSource;
use lecture::vad::{SpeechSegment, VadConfig};

fn segment(start_ms: u64) -> SpeechSegment {
    SpeechSegment { start_ms, end_ms: start_ms + 1000, speech_ms: 800, pcm: vec![1, 2, 3, 4] }
}

/// 1 s of quiet, 2 s of speech, 1 s of quiet, 1 s of speech, as 16-bit mono PCM at 16 kHz.
fn capture_stream() -> Vec<u8> {
    let mut out = Vec::new();
    let mut push = |ms: usize, loud: bool| {
        for _ in 0..ms * 16 {
            if loud {
                out.extend_from_slice(&1200i16.to_le_bytes());
            } else {
                out.extend_from_slice(&0i16.to_le_bytes());
            }
        }
    };
    push(1000, false);
    push(2000, true);
    push(1000, false);
    push(1000, true);
    out
}

fn run_feed(stream: &[u8], chunk: usize) -> (Vec<(u64, u64, u64, usize)>, u64) {
    let mut feed = session_capture_feed(20);
    let mut out = Vec::new();
    for piece in stream.chunks(chunk) {
        assert!(feed.can_take(piece.len()));
        for s in feed.push_bytes(piece) {
            out.push((s.start_ms, s.end_ms, s.speech_ms, s.pcm.len()));
        }
    }
    if let Some(s) = feed.finish() {
        out.push((s.start_ms, s.end_ms, s.speech_ms, s.pcm.len()));
    }
    (out, feed.frame_index())
}

#[test]
fn session_vad_config_caps_segments_at_the_chunk_length() {
    let cfg = session_vad_config(20);
    assert_eq!(cfg.max_segment_ms, 20_000);
    assert_eq!(cfg.frame_ms, VadConfig::default().frame_ms);
    assert_eq!(cfg.start_ms, 160);
    // `chunk_seconds * 1000` saturates, then is cut to 32 bits.
    assert_eq!(session_vad_config(u64::MAX).max_segment_ms, u32::MAX);
    assert_eq!(session_vad_config(4_294_968).max_segment_ms, 704);
}

#[test]
fn capture_feed_cuts_the_stream_into_frames() {
    let feed = session_capture_feed(20);
    assert_eq!(feed.frame_bytes(), 640);
    let (segments, frames) = run_feed(&capture_stream(), 8192);
    assert_eq!(frames, 250);
    assert_eq!(segments.len(), 2);
    assert_eq!(segments[0], (940, 3700, 2000, (10 + 92 + 35) * 640));
    // The second burst is still open at the end and is closed by `finish`.
    assert_eq!(segments[1].1, 5000);
}

#[test]
fn capture_feed_does_not_depend_on_read_sizes() {
    let stream = capture_stream();
    let whole = run_feed(&stream, stream.len());
    for chunk in [1usize, 7, 639, 640, 641, 1000, 8192] {
        assert_eq!(run_feed(&stream, chunk), whole);
    }
}

#[test]
fn capture_feed_keeps_a_partial_frame() {
    let mut feed = session_capture_feed(20);
    assert!(feed.push_bytes(&[0u8; 1000]).is_empty());
    assert_eq!(feed.frame_index(), 1);
    assert!(feed.push_bytes(&[0u8; 280]).is_empty());
    assert_eq!(feed.frame_index(), 2);
}

#[test]
fn queue_hands_items_out_in_order() {
    let mut q = SegmentQueue::new(4);
    assert!(matches!(q.pop(), QueuePop::Wait));
    assert!(!q.push_segment(segment(0)));
    assert!(!q.push_segment(segment(1000)));
    q.push_finish(10, 0);
    assert_eq!(q.len(), 3);
    assert!(matches!(q.pop(), QueuePop::Item(QueueItem::Segment(s)) if s.start_ms == 0));
    assert!(matches!(q.pop(), QueuePop::Item(QueueItem::Segment(s)) if s.start_ms == 1000));
    assert!(matches!(
        q.pop(),
        QueuePop::Item(QueueItem::Finish { duration_seconds: 10, dropped_segments: 0 })
    ));
    assert!(matches!(q.pop(), QueuePop::Wait));
    q.close();
    assert!(matches!(q.pop(), QueuePop::Closed));
}

#[test]
fn full_queue_drops_the_oldest_segment() {
    let mut q = SegmentQueue::new(4);
    for i in 0..4u64 {
        assert!(!q.push_segment(segment(i * 1000)));
    }
    assert!(q.push_segment(segment(4000)));
    assert!(q.push_segment(segment(5000)));
    assert_eq!(q.dropped_segments(), 2);
    assert_eq!(q.len(), 4);
    let mut starts = Vec::new();
    while let QueuePop::Item(QueueItem::Segment(s)) = q.pop() {
        starts.push(s.start_ms);
    }
    assert_eq!(starts, vec![2000, 3000, 4000, 5000]);
}

#[test]
fn closed_queue_ignores_segments_but_takes_the_finish_marker() {
    let mut q = SegmentQueue::new(2);
    q.close();
    assert!(!q.push_segment(segment(0)));
    assert_eq!(q.len(), 0);
    q.push_finish(3, 1);
    assert!(matches!(
        q.pop(),
        QueuePop::Item(QueueItem::Finish { duration_seconds: 3, dropped_segments: 1 })
    ));
    assert!(matches!(q.pop(), QueuePop::Closed));
}

#[test]
fn eviction_stops_at_a_finish_marker() {
    let mut q = SegmentQueue::new(1);
    q.push_finish(1, 0);
    assert!(!q.push_segment(segment(0)));
    assert_eq!(q.dropped_segments(), 0);
    assert_eq!(q.len(), 1);
    assert!(matches!(q.pop(), QueuePop::Item(QueueItem::Segment(s)) if s.start_ms == 0));
}

#[test]
fn speech_tally_adds_and_saturates() {
    let mut t = SpeechTally::new();
    t.add(1500);
    t.add(2700);
    assert_eq!(t.speech_seconds(), 4);
    t.add(u64::MAX);
    assert_eq!(t.total_ms, u64::MAX);
}

#[test]
fn scratch_file_names() {
    assert_eq!(segment_wav_name(940, 3700), "segment-940-3700.wav");
    assert_eq!(segment_wav_name(0, 0), "segment-0-0.wav");
}

#[test]
fn language_and_backend_names() {
    assert_eq!(human_language_name("es"), "Spanish");
    assert_eq!(human_language_name("en"), "English");
    assert_eq!(human_language_name("fr"), "fr");
    assert_eq!(human_language_name("ES"), "ES");
    assert_eq!(backend_name(false), "linux-pipewire+pulse+ffmpeg+whisper.cpp");
    assert_eq!(backend_name(true), "windows-wasapi+ffmpeg+whisper.cpp");
}

#[test]
fn banner_describes_the_session() {
    let source = AudioSource {
        id: 1,
        application: "PipeWire monitor".to_string(),
        stream: "out.monitor".to_string(),
        capture_spec: "out.monitor".to_string(),
        backend: "pulse".to_string(),
    };
    let expected = format!(
        "Lecture\n{}\n\nSource      PipeWire monitor/out.monitor\nModel       base-q5\nLanguage    Spanish\nThreads     2\nAudio       16 kHz mono\nRecording   disabled\n\n● Listening\n\n",
        "─".repeat(32)
    );
    assert_eq!(session_banner(&source, "base-q5", "es", 2, false), expected);
    assert!(session_banner(&source, "m", "de", 8, true).contains("Language    de\nThreads     8\n"));
    assert!(session_banner(&source, "m", "de", 8, true).contains("Recording   enabled\n"));
}

#[test]
fn console_texts() {
    assert_eq!(segment_console_text(61_500, "  hola mundo \n"), "[01:01]\nhola mundo\n\n");
    assert_eq!(
        finished_text(3723, "s/transcript.md", "s/session.json"),
        "Session finished.\n\nDuration        01:02:03\nSaved:\ns/transcript.md\ns/session.json\n"
    );
}

#[test]
fn closed_queue_drains_then_says_closed() {
    let mut q = SegmentQueue::new(4);
    q.push_segment(segment(0));
    q.push_segment(segment(1000));
    q.close();
    assert!(!q.push_segment(segment(2000)));
    assert!(matches!(q.pop(), QueuePop::Item(QueueItem::Segment(s)) if s.start_ms == 0));
    assert!(!q.push_segment(segment(3000)));
    assert!(matches!(q.pop(), QueuePop::Item(QueueItem::Segment(s)) if s.start_ms == 1000));
    assert!(matches!(q.pop(), QueuePop::Closed));
    assert!(matches!(q.pop(), QueuePop::Closed));
    assert_eq!(q.dropped_segments(), 0);
}

#[test]
fn worker_steps() {
    let mut t = SpeechTally::new();
    let a = worker_step(&mut t, WorkerEvent::Segment { start_ms: 940, end_ms: 3700, speech_ms: 2000 });
    assert!(matches!(a, WorkerAction::Transcribe { wav_name } if wav_name == "segment-940-3700.wav"));
    let a = worker_step(&mut t, WorkerEvent::Transcribed { start_ms: 940, text: " hola ".to_string() });
    assert!(matches!(a, WorkerAction::Record { console } if console == "[00:00]\nhola\n\n"));
    let a = worker_step(&mut t, WorkerEvent::Transcribed { start_ms: 940, text: " \n ".to_string() });
    assert!(matches!(a, WorkerAction::Skip));
    let a = worker_step(&mut t, WorkerEvent::Failed { start_ms: 61_000 });
    assert!(matches!(a, WorkerAction::Warn { at } if at == "01:01"));
    worker_step(&mut t, WorkerEvent::Segment { start_ms: 5000, end_ms: 6000, speech_ms: 1500 });
    let a = worker_step(&mut t, WorkerEvent::Finish { duration_seconds: 90, dropped_segments: 1 });
    assert!(matches!(
        a,
        WorkerAction::Finish { duration_seconds: 90, speech_seconds: 3, dropped_segments: 1 }
    ));
    assert!(matches!(worker_step(&mut t, WorkerEvent::QueueClosed), WorkerAction::Fail));
}
