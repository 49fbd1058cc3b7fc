use lecture::platform::{
    discover_audio_sources, ffmpeg_capture_args, parse_pactl_sources,
    parse_wasapi_listing, resolve_audio_source, sources_table, AudioSource, SourceError,
};

fn source(id: usize, application: &str, stream: &str, spec: &str, backend: &str) -> AudioSource {
    AudioSource {
        id,
        application: application.to_string(),
        stream: stream.to_string(),
        capture_spec: spec.to_string(),
        backend: backend.to_string(),
    }
}

fn sample_sources() -> Vec<AudioSource> {
    vec![
        source(1, "PipeWire source", "alsa_input.usb-Mic", "alsa_input.usb-Mic", "pulse"),
        source(2, "PipeWire monitor", "alsa_output.pci.analog-stereo.monitor", "alsa_output.pci.analog-stereo.monitor", "pulse"),
        source(3, "WASAPI loopback", "Speakers (Realtek)", "Speakers (Realtek)", "wasapi"),
    ]
}

#[test]
fn display_name_joins_application_and_stream() {
    let s = source(1, "PipeWire monitor", "out.monitor", "out.monitor", "pulse");
    assert_eq!(s.display_name(), "PipeWire monitor/out.monitor");
}

#[test]
fn pactl_listing_is_parsed() {
    let out = b"42\talsa_output.pci.analog-stereo.monitor\tPipeWire\ts16le 2ch 48000Hz\tSUSPENDED\n\n  \n43\talsa_input.usb-Mic\tPipeWire\ts16le 1ch 48000Hz\tRUNNING\nbroken-line\n";
    let sources = parse_pactl_sources(out).unwrap();
    assert_eq!(sources.len(), 2);
    assert_eq!(sources[0].application, "PipeWire monitor");
    assert_eq!(sources[0].stream, "alsa_output.pci.analog-stereo.monitor");
    assert_eq!(sources[0].capture_spec, "alsa_output.pci.analog-stereo.monitor");
    assert_eq!(sources[0].backend, "pulse");
    assert_eq!(sources[0].id, 0);
    assert_eq!(sources[1].application, "PipeWire source");
    assert_eq!(sources[1].stream, "alsa_input.usb-Mic");
}

#[test]
fn pactl_listing_trims_the_name_and_handles_crlf() {
    let out = b"  7\t  spaced.monitor  \tPipeWire\r\n";
    let sources = parse_pactl_sources(out).unwrap();
    assert_eq!(sources.len(), 1);
    assert_eq!(sources[0].stream, "spaced.monitor");
    assert_eq!(sources[0].application, "PipeWire monitor");
    assert!(parse_pactl_sources(b"").unwrap().is_empty());
}

#[test]
fn wasapi_listing_is_parsed() {
    let stderr = b"[wasapi @ 0x1] \"Speakers (Realtek)\"\n[wasapi @ 0x1] \"default\"\n[wasapi @ 0x1]  \"  \" \nno quotes here\n[wasapi @ 0x1] \"Headphones\" (loopback)\n";
    let sources = parse_wasapi_listing(b"", stderr, false).unwrap();
    assert_eq!(sources.len(), 2);
    assert_eq!(sources[0].stream, "Speakers (Realtek)");
    assert_eq!(sources[0].application, "WASAPI loopback");
    assert_eq!(sources[0].backend, "wasapi");
    assert_eq!(sources[1].capture_spec, "Headphones");
}

#[test]
fn failed_wasapi_listing_without_devices_is_an_error() {
    match parse_wasapi_listing(b"out", b"err: \"Default\"", false) {
        Err(SourceError::WasapiListFailed(text)) => assert_eq!(text, "out\nerr: \"Default\""),
        _ => panic!("expected an error"),
    }
    assert!(parse_wasapi_listing(b"", b"", true).unwrap().is_empty());
}

#[test]
fn discovered_sources_are_numbered_from_one() {
    let found = vec![
        source(0, "PipeWire source", "a", "a", "pulse"),
        source(0, "PipeWire monitor", "b.monitor", "b.monitor", "pulse"),
    ];
    let sources = discover_audio_sources(found, false);
    assert_eq!(sources.len(), 2);
    assert_eq!(sources[0].id, 1);
    assert_eq!(sources[1].id, 2);
    assert_eq!(sources[1].stream, "b.monitor");
}

#[test]
fn empty_discovery_falls_back_to_the_default_source() {
    let linux = discover_audio_sources(Vec::new(), false);
    assert_eq!(linux.len(), 1);
    assert_eq!(linux[0].id, 1);
    assert_eq!(linux[0].application, "PipeWire");
    assert_eq!(linux[0].stream, "default");
    assert_eq!(linux[0].capture_spec, "default");
    assert_eq!(linux[0].backend, "pulse");
    let windows = discover_audio_sources(Vec::new(), true);
    assert_eq!(windows[0].application, "WASAPI");
    assert_eq!(windows[0].backend, "wasapi");
}

#[test]
fn sources_are_resolved_by_id() {
    let sources = sample_sources();
    assert_eq!(resolve_audio_source(&sources, "2").unwrap().id, 2);
    assert!(matches!(resolve_audio_source(&sources, "9"), Err(SourceError::IdNotFound(9))));
}

#[test]
fn sources_are_resolved_by_name() {
    let sources = sample_sources();
    assert_eq!(resolve_audio_source(&sources, "ALSA_INPUT.USB-MIC").unwrap().id, 1);
    assert_eq!(resolve_audio_source(&sources, "monitor").unwrap().id, 2);
    assert_eq!(resolve_audio_source(&sources, "loopback/speakers").unwrap().id, 3);
    assert_eq!(resolve_audio_source(&sources, "REALTEK").unwrap().id, 3);
    assert_eq!(resolve_audio_source(&sources, "pipewire").unwrap().id, 1);
    match resolve_audio_source(&sources, "bluetooth") {
        Err(SourceError::NameNotFound(q)) => assert_eq!(q, "bluetooth"),
        _ => panic!("expected NameNotFound"),
    }
}

#[test]
fn sources_table_lists_every_source() {
    let table = sources_table(&sample_sources()[..2]);
    let expected = format!(
        "Available audio sources\n\nID   APPLICATION      STREAM\n{}\n1    PipeWire source  alsa_input.usb-Mic\n2    PipeWire monitor alsa_output.pci.analog-stereo.monitor\n",
        "─".repeat(56)
    );
    assert_eq!(table, expected);
}

#[test]
fn ffmpeg_arguments_for_pulse_and_wasapi() {
    let s = source(1, "PipeWire monitor", "out.monitor", "out.monitor", "pulse");
    assert_eq!(
        ffmpeg_capture_args(&s, 16_000, 1, false),
        vec![
            "-hide_banner", "-loglevel", "error", "-nostdin", "-f", "pulse", "-i", "out.monitor",
            "-ac", "1", "-ar", "16000", "-f", "s16le", "pipe:1",
        ]
    );
    let w = source(1, "WASAPI loopback", "Speakers", "Speakers", "wasapi");
    assert_eq!(
        ffmpeg_capture_args(&w, 48_000, 2, true),
        vec![
            "-hide_banner", "-loglevel", "error", "-nostdin", "-f", "wasapi", "-loopback", "1",
            "-i", "Speakers", "-ac", "2", "-ar", "48000", "-f", "s16le", "pipe:1",
        ]
    );
}
