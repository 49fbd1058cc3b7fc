use lecture::transcribe::{failure_details, transcript_text, whisper_args, whisper_output_stem};

#[test]
fn whisper_arguments() {
    assert_eq!(
        whisper_args("m.bin", "seg.wav", "scratch/whisper-7-1", "es", 4, "0.6"),
        vec![
            "-m", "m.bin", "-f", "seg.wav", "-of", "scratch/whisper-7-1", "-otxt", "-np", "-nt",
            "-l", "es", "-t", "4", "-nth", "0.6",
        ]
    );
}

#[test]
fn output_stem_names_process_and_run() {
    assert_eq!(whisper_output_stem(4242, 3), "whisper-4242-3");
}

#[test]
fn failure_details_prefer_stderr() {
    assert_eq!(failure_details(b"  model not found \n", b"ignored"), "model not found");
    assert_eq!(failure_details(b"", b"\n only stdout \n"), "only stdout");
    assert_eq!(failure_details(b"", b""), "");
    assert_eq!(failure_details(b"bad \xff byte", b""), "bad \u{FFFD} byte");
}

#[test]
fn transcript_text_normalizes_whitespace() {
    assert_eq!(transcript_text(Some(" hola\n  mundo \n".to_string()), b"ignored"), "hola mundo");
    assert_eq!(transcript_text(None, b"  desde   stdout\n"), "desde stdout");
    assert_eq!(transcript_text(Some(String::new()), b"x"), "");
}
