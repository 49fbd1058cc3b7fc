use lecture::platform::AudioSource;
use lecture::session::{
    create_session_title, metadata_backend_name, session_dir_name, transcript_header,
    AudioSourceMetadata, SessionLog,
};

fn source() -> AudioSource {
    AudioSource {
        id: 2,
        application: "PipeWire monitor".to_string(),
        stream: "alsa_output.monitor".to_string(),
        capture_spec: "alsa_output.monitor".to_string(),
        backend: "pulse".to_string(),
    }
}

fn log() -> SessionLog {
    SessionLog {
        title: "Redes".to_string(),
        started_at: "2024-03-05T10:00:00+01:00".to_string(),
        language: "es".to_string(),
        model: "base-q5".to_string(),
        threads: 2,
        quality: "balanced".to_string(),
        chunk_seconds: 20,
        record_audio: false,
        backend: "linux-pipewire+pulse+ffmpeg+whisper.cpp".to_string(),
        source: AudioSourceMetadata {
            application: "PipeWire monitor".to_string(),
            name: "alsa_output.monitor".to_string(),
        },
        transcript_path: "sessions/2024-03-05-redes/transcript.md".to_string(),
        session_path: "sessions/2024-03-05-redes/session.json".to_string(),
        session_dir: "sessions/2024-03-05-redes".to_string(),
        words: 0,
    }
}

#[test]
fn explicit_title_is_trimmed() {
    assert_eq!(create_session_title(&source(), Some("  Física 2 ")), "Física 2");
}

#[test]
fn blank_or_missing_title_falls_back_to_the_stream() {
    assert_eq!(create_session_title(&source(), Some("   ")), "alsa_output.monitor");
    assert_eq!(create_session_title(&source(), None), "alsa_output.monitor");
}

#[test]
fn backend_label_marks_recording() {
    assert_eq!(metadata_backend_name("linux", true), "linux+record");
    assert_eq!(metadata_backend_name("linux", false), "linux");
}

#[test]
fn session_directory_is_date_and_slug() {
    assert_eq!(session_dir_name("2024-03-05", "Computer Networks 101"), "2024-03-05-computer-networks-101");
    assert_eq!(session_dir_name("2024-03-05", "???"), "2024-03-05-session");
}

#[test]
fn header_lists_the_session_settings() {
    let h = transcript_header("Redes", "2024-03-05", "10:00:00", "es", "base-q5", 2, "balanced", &source(), true);
    assert_eq!(
        h,
        "# Redes\n\nDate: 2024-03-05\nStart: 10:00:00\nLanguage: es\nModel: base-q5\nThreads: 2\nQuality: balanced\nSource: PipeWire monitor/alsa_output.monitor\nRecording: enabled\n\n---\n\n"
    );
}

#[test]
fn segments_are_counted_and_written() {
    let mut l = log();
    let (n, block) = l.append_segment(65_400, "  Hola a   todos\n hoy ");
    assert_eq!(n, 4);
    assert_eq!(block.unwrap(), "## 01:05\n\nHola a   todos\n hoy\n\n");
    assert_eq!(l.words, 4);
    let (n, block) = l.append_segment(70_000, " \n\t ");
    assert_eq!(n, 0);
    assert!(block.is_none());
    assert_eq!(l.words, 4);
    let (n, _) = l.append_segment(3_723_000, "uno");
    assert_eq!(n, 1);
    assert_eq!(l.words, 5);
}

#[test]
fn finishing_writes_the_summary_and_metadata() {
    let mut l = log();
    l.append_segment(0, "tres palabras aquí");
    let (summary, meta) = l.finish(3723, 61, 2);
    assert_eq!(
        summary,
        "---\n\n## Session Summary\n\nDuration: 01:02:03\nSpeech: 01:01\nWords: 3\nDropped segments: 2\nSaved:\nsessions/2024-03-05-redes/transcript.md\nsessions/2024-03-05-redes/session.json\n"
    );
    assert_eq!(meta.version, 1);
    assert_eq!(meta.title, "Redes");
    assert_eq!(meta.words, 3);
    assert_eq!(meta.duration_seconds, 3723);
    assert_eq!(meta.speech_seconds, 61);
    assert_eq!(meta.dropped_segments, 2);
    assert_eq!(meta.audio_source.name, "alsa_output.monitor");
    assert_eq!(meta.session_directory, "sessions/2024-03-05-redes");
    assert_eq!(meta.transcript_path, "sessions/2024-03-05-redes/transcript.md");
}

#[test]
fn a_new_log_counts_the_words_of_its_segments() {
    let mut l = SessionLog::new(
        "Redes".to_string(),
        "2024-03-05T10:00:00+01:00".to_string(),
        "es".to_string(),
        "base-q5".to_string(),
        2,
        "balanced".to_string(),
        20,
        true,
        "linux".to_string(),
        AudioSourceMetadata { application: "A".to_string(), name: "s".to_string() },
        "t.md".to_string(),
        "s.json".to_string(),
        "dir".to_string(),
    );
    assert_eq!(l.words, 0);
    let mut total = 0;
    for text in ["uno dos", "   ", "tres cuatro cinco", "seis"] {
        total += l.append_segment(0, text).0;
    }
    assert_eq!(total, 6);
    let (_, meta) = l.finish(10, 5, 0);
    assert_eq!(meta.words, total);
    assert!(meta.record_audio);
    assert_eq!(meta.chunk_seconds, 20);
    assert_eq!(meta.audio_source.application, "A");
}
