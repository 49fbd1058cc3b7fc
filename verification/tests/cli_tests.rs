use lecture::cli::{
    classify_command, fallback_model_path, first_existing, model_candidates, next_value,
    parse_devices_args, parse_start_args, quality_defaults, whisper_bin_candidates, CliCommand,
    CliError, PathDefaults,
};

fn args(items: &[&str]) -> Vec<String> {
    items.iter().map(|s| s.to_string()).collect()
}

/// The model path of a size when no environment variable is set and no
/// candidate file exists.
fn default_model_path(size: &str) -> String {
    let candidates = model_candidates(size, None, None, None);
    let exists = vec![false; candidates.len()];
    first_existing(candidates, &exists, fallback_model_path(size))
}

fn defaults() -> PathDefaults {
    PathDefaults {
        whisper_bin: "whisper-cli".to_string(),
        tiny_model: default_model_path("tiny"),
        base_model: default_model_path("base"),
        small_model: default_model_path("small"),
    }
}

#[test]
fn quality_defaults_map_to_expected_models() {
    let (label, path) = quality_defaults("balanced", &defaults()).unwrap();
    assert_eq!(label, "base-q5");
    assert_eq!(path, default_model_path("base"));
}

#[test]
fn quality_profiles_and_unknown_quality() {
    let d = defaults();
    assert_eq!(quality_defaults("fast", &d).unwrap(), ("tiny-q5".to_string(), "models/tiny-q5.bin".to_string()));
    assert_eq!(quality_defaults("accurate", &d).unwrap(), ("small-q5".to_string(), "models/small-q5.bin".to_string()));
    assert!(matches!(quality_defaults("turbo", &d), Err(CliError::UnknownQuality(q)) if q == "turbo"));
    assert!(matches!(quality_defaults("Fast", &d), Err(CliError::UnknownQuality(_))));
}

#[test]
fn fallback_model_path_names_the_size() {
    assert_eq!(fallback_model_path("base"), "models/base-q5.bin");
    assert_eq!(default_model_path("base"), "models/base-q5.bin");
}

#[test]
fn first_existing_takes_the_first_present_candidate() {
    let c = args(&["a", "b", "c"]);
    assert_eq!(first_existing(c.clone(), &[false, true, true], "z".to_string()), "b");
    assert_eq!(first_existing(c.clone(), &[true, false, false], "z".to_string()), "a");
    assert_eq!(first_existing(c, &[false, false, false], "z".to_string()), "z");
    assert_eq!(first_existing(Vec::new(), &[], "z".to_string()), "z");
}

#[test]
fn model_candidates_in_order() {
    let c = model_candidates("base", Some("/m/custom.bin"), Some("/models"), Some("/src/whisper.cpp"));
    assert_eq!(
        c,
        args(&[
            "/m/custom.bin",
            "/models/ggml-base.bin",
            "/models/for-tests-ggml-base.bin",
            "/src/whisper.cpp/models/ggml-base.bin",
            "/src/whisper.cpp/models/for-tests-ggml-base.bin",
            "../whisper.cpp/models/ggml-base.bin",
            "../../whisper.cpp/models/ggml-base.bin",
            "../whisper.cpp/models/for-tests-ggml-base.bin",
            "../../whisper.cpp/models/for-tests-ggml-base.bin",
        ])
    );
    assert_eq!(model_candidates("tiny", None, None, None).len(), 4);
}

#[test]
fn whisper_bin_candidates_in_order() {
    let c = whisper_bin_candidates(Some("/opt/whisper"), Some("/w"), Some("/home/u/lecture"));
    assert_eq!(
        c,
        args(&[
            "/opt/whisper",
            "/w/build/bin/whisper-cli",
            "/w/build/bin/Release/whisper-cli.exe",
            "/home/u/lecture/../whisper.cpp/build/bin/whisper-cli",
            "/home/u/lecture/../../whisper.cpp/build/bin/whisper-cli",
            "/home/u/lecture/../whisper.cpp/build/bin/Release/whisper-cli.exe",
        ])
    );
    assert!(whisper_bin_candidates(None, None, None).is_empty());
}

#[test]
fn commands_are_classified() {
    assert!(matches!(classify_command(Vec::new()), CliCommand::Help));
    assert!(matches!(classify_command(args(&["help"])), CliCommand::Help));
    assert!(matches!(classify_command(args(&["-h"])), CliCommand::Help));
    assert!(matches!(classify_command(args(&["--help", "x"])), CliCommand::Help));
    assert!(matches!(classify_command(args(&["devices", "--ffmpeg-bin", "f"])), CliCommand::Devices(a) if a == args(&["--ffmpeg-bin", "f"])));
    assert!(matches!(classify_command(args(&["start", "1"])), CliCommand::Start(a) if a == args(&["1"])));
    assert!(matches!(classify_command(args(&["record"])), CliCommand::Unknown(c) if c == "record"));
}

#[test]
fn next_value_moves_past_the_value() {
    let a = args(&["--title", "Física"]);
    let mut pos = 1usize;
    assert_eq!(next_value(&a, &mut pos, "--title").unwrap(), "Física");
    assert_eq!(pos, 2);
    assert!(matches!(next_value(&a, &mut pos, "--title"), Err(CliError::MissingValue(f)) if f == "--title"));
    assert_eq!(pos, 2);
}

#[test]
fn devices_arguments() {
    assert_eq!(parse_devices_args(Vec::new()).unwrap().ffmpeg_bin, "ffmpeg");
    assert_eq!(parse_devices_args(args(&["--ffmpeg-bin", "/bin/ff"])).unwrap().ffmpeg_bin, "/bin/ff");
    assert!(matches!(parse_devices_args(args(&["--ffmpeg-bin"])), Err(CliError::MissingValue(f)) if f == "--ffmpeg-bin"));
    assert!(matches!(parse_devices_args(args(&["-h"])), Err(CliError::HelpRequested)));
    assert!(matches!(parse_devices_args(args(&["extra"])), Err(CliError::UnexpectedDevicesArgument(a)) if a == "extra"));
}

#[test]
fn start_defaults() {
    let c = parse_start_args(args(&["1"]), &defaults()).unwrap();
    assert_eq!(c.source_query, "1");
    assert_eq!(c.title, None);
    assert_eq!(c.ffmpeg_bin, "ffmpeg");
    assert_eq!(c.whisper_bin, "whisper-cli");
    assert_eq!(c.quality, "balanced");
    assert_eq!(c.model_label, "base-q5");
    assert_eq!(c.model_path, "models/base-q5.bin");
    assert_eq!(c.language, "es");
    assert_eq!(c.threads, 2);
    assert_eq!(c.chunk_seconds, 20);
    assert_eq!(c.output_root, "sessions");
    assert!(!c.record_audio);
}

#[test]
fn start_positionals_and_flags() {
    let c = parse_start_args(
        args(&[
            "1", "clase-fisica2", "-l", "en", "--quality", "fast", "-t", "4", "--chunk-size", "30",
            "--output", "out", "--record", "--ffmpeg-bin", "ff", "--whisper-bin", "wb",
        ]),
        &defaults(),
    )
    .unwrap();
    assert_eq!(c.source_query, "1");
    assert_eq!(c.title, Some("clase-fisica2".to_string()));
    assert_eq!(c.language, "en");
    assert_eq!(c.quality, "fast");
    assert_eq!(c.model_label, "tiny-q5");
    assert_eq!(c.model_path, "models/tiny-q5.bin");
    assert_eq!(c.threads, 4);
    assert_eq!(c.chunk_seconds, 30);
    assert_eq!(c.output_root, "out");
    assert!(c.record_audio);
    assert_eq!(c.ffmpeg_bin, "ff");
    assert_eq!(c.whisper_bin, "wb");
}

#[test]
fn eco_pins_the_light_profile() {
    let c = parse_start_args(
        args(&["--eco", "--quality", "accurate", "-t", "8", "--chunk-size", "60", "--record", "mic"]),
        &defaults(),
    )
    .unwrap();
    assert_eq!(c.quality, "balanced");
    assert_eq!(c.model_label, "base-q5");
    assert_eq!(c.threads, 2);
    assert_eq!(c.chunk_seconds, 20);
    assert!(!c.record_audio);
    assert_eq!(c.source_query, "mic");
}

#[test]
fn explicit_model_takes_its_file_stem_as_label() {
    let c = parse_start_args(args(&["--model", "/models/ggml-large-v3.bin", "1"]), &defaults()).unwrap();
    assert_eq!(c.model_path, "/models/ggml-large-v3.bin");
    assert_eq!(c.model_label, "ggml-large-v3");
}

#[test]
fn title_flag_leaves_the_second_positional_extra() {
    let c = parse_start_args(args(&["--title", "Redes", "2"]), &defaults()).unwrap();
    assert_eq!(c.title, Some("Redes".to_string()));
    assert_eq!(c.source_query, "2");
    assert!(matches!(
        parse_start_args(args(&["--title", "Redes", "2", "3"]), &defaults()),
        Err(CliError::ExtraPositional(a)) if a == "3"
    ));
}

#[test]
fn start_errors() {
    let d = defaults();
    assert!(matches!(parse_start_args(Vec::new(), &d), Err(CliError::MissingSource)));
    assert!(matches!(parse_start_args(args(&["1", "-t", "many"]), &d), Err(CliError::InvalidThreads(v)) if v == "many"));
    assert!(matches!(parse_start_args(args(&["1", "--chunk-size", "-5"]), &d), Err(CliError::InvalidChunkSize(v)) if v == "-5"));
    assert!(matches!(parse_start_args(args(&["1", "--bogus"]), &d), Err(CliError::UnknownOption(o)) if o == "--bogus"));
    assert!(matches!(parse_start_args(args(&["1", "--language"]), &d), Err(CliError::MissingValue(f)) if f == "--language"));
    assert!(matches!(parse_start_args(args(&["1", "--quality", "max"]), &d), Err(CliError::UnknownQuality(q)) if q == "max"));
    assert!(matches!(parse_start_args(args(&["1", "--help"]), &d), Err(CliError::HelpRequested)));
    assert!(matches!(parse_start_args(args(&["a", "b", "c"]), &d), Err(CliError::ExtraPositional(a)) if a == "c"));
}

#[test]
fn threads_accept_a_leading_plus() {
    let c = parse_start_args(args(&["1", "-t", "+3"]), &defaults()).unwrap();
    assert_eq!(c.threads, 3);
}
