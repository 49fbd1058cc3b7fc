//! The command line: which command was asked for, the options of `devices`
//! and `start`, quality profiles, and where the Whisper binary and models
//! are looked for.
use vstd::prelude::*;

use crate::app::StartConfig;
use crate::text::{chars_eq, chars_of, dec, extend_str, parse_unsigned, parse_unsigned_chars, string_of};

verus! {

broadcast use vstd::string::group_string_axioms;

/// Why a command line was not accepted.
#[derive(Debug)]
pub enum CliError {
    /// `--help` was given: help is printed and nothing else happens.
    HelpRequested,
    UnexpectedDevicesArgument(String),
    /// The flag named here needs a value and none followed it.
    MissingValue(String),
    InvalidThreads(String),
    InvalidChunkSize(String),
    UnknownOption(String),
    ExtraPositional(String),
    UnknownQuality(String),
    MissingSource,
}

/// `CliError` as plain values.
pub enum CliFault {
    HelpRequested,
    UnexpectedDevicesArgument(Seq<char>),
    MissingValue(Seq<char>),
    InvalidThreads(Seq<char>),
    InvalidChunkSize(Seq<char>),
    UnknownOption(Seq<char>),
    ExtraPositional(Seq<char>),
    UnknownQuality(Seq<char>),
    MissingSource,
}

impl View for CliError {
    type V = CliFault;

    open spec fn view(&self) -> CliFault {
        match self {
            CliError::HelpRequested => CliFault::HelpRequested,
            CliError::UnexpectedDevicesArgument(s) => CliFault::UnexpectedDevicesArgument(s@),
            CliError::MissingValue(s) => CliFault::MissingValue(s@),
            CliError::InvalidThreads(s) => CliFault::InvalidThreads(s@),
            CliError::InvalidChunkSize(s) => CliFault::InvalidChunkSize(s@),
            CliError::UnknownOption(s) => CliFault::UnknownOption(s@),
            CliError::ExtraPositional(s) => CliFault::ExtraPositional(s@),
            CliError::UnknownQuality(s) => CliFault::UnknownQuality(s@),
            CliError::MissingSource => CliFault::MissingSource,
        }
    }
}

pub open spec fn arg_views(args: Seq<String>) -> Seq<Seq<char>> {
    args.map_values(|s: String| s@)
}

fn is_lit(s: &Vec<char>, lit: &str) -> (b: bool)
    ensures
        b == (s@ == lit@),
{
    let l = chars_of(lit);
    chars_eq(s.as_slice(), l.as_slice())
}

// ---------------------------------------------------------------------------
// Commands
// ---------------------------------------------------------------------------
/// The command a command line asks for, with the arguments that follow it.
pub enum CliCommand {
    Help,
    Devices(Vec<String>),
    Start(Vec<String>),
    Unknown(String),
}

/// Splits the arguments after the program name into the command and its
/// arguments: no argument, `help`, `--help` or `-h` ask for help.
pub fn classify_command(args: Vec<String>) -> (r: CliCommand)
    ensures
        args@.len() == 0 ==> r is Help,
        args@.len() > 0 ==> ({
            let c = args@[0]@;
            let rest = args@.skip(1);
            if c == "help"@ || c == "--help"@ || c == "-h"@ {
                r is Help
            } else if c == "devices"@ {
                r matches CliCommand::Devices(a) && a@ == rest
            } else if c == "start"@ {
                r matches CliCommand::Start(a) && a@ == rest
            } else {
                r matches CliCommand::Unknown(u) && u@ == c
            }
        }),
{
    let mut args = args;
    if args.len() == 0 {
        return CliCommand::Help;
    }
    let ghost all = args@;
    let command = args.remove(0);
    assert(args@ =~= all.skip(1));
    let c = chars_of(command.as_str());
    if is_lit(&c, "help") || is_lit(&c, "--help") || is_lit(&c, "-h") {
        CliCommand::Help
    } else if is_lit(&c, "devices") {
        CliCommand::Devices(args)
    } else if is_lit(&c, "start") {
        CliCommand::Start(args)
    } else {
        CliCommand::Unknown(command)
    }
}

/// The value after the flag at `*pos`; `*pos` moves past it.
pub fn next_value(args: &Vec<String>, pos: &mut usize, flag: &str) -> (r: Result<String, CliError>)
    requires
        *old(pos) <= args@.len(),
    ensures
        *old(pos) < args@.len() ==> (r matches Ok(v) && v@ == args@[*old(pos) as int]@
            && *final(pos) == *old(pos) + 1),
        *old(pos) == args@.len() ==> (r matches Err(e) && e@ == CliFault::MissingValue(flag@)
            && *final(pos) == *old(pos)),
{
    if *pos < args.len() {
        let v = args[*pos].clone();
        *pos = *pos + 1;
        Ok(v)
    } else {
        Err(CliError::MissingValue(flag.to_string()))
    }
}

// ---------------------------------------------------------------------------
// `devices`
// ---------------------------------------------------------------------------
pub struct DevicesArgs {
    pub ffmpeg_bin: String,
}

/// Reads the options of `devices` from position `i` on, with the ffmpeg
/// binary chosen so far.
pub open spec fn devices_from(args: Seq<Seq<char>>, i: int, ffmpeg: Seq<char>) -> Result<
    Seq<char>,
    CliFault,
>
    decreases args.len() - i,
{
    if i < 0 || i >= args.len() {
        Ok(ffmpeg)
    } else if args[i] == "--ffmpeg-bin"@ {
        if i + 1 < args.len() {
            devices_from(args, i + 2, args[i + 1])
        } else {
            Err(CliFault::MissingValue("--ffmpeg-bin"@))
        }
    } else if args[i] == "--help"@ || args[i] == "-h"@ {
        Err(CliFault::HelpRequested)
    } else {
        Err(CliFault::UnexpectedDevicesArgument(args[i]))
    }
}

pub fn parse_devices_args(args: Vec<String>) -> (r: Result<DevicesArgs, CliError>)
    ensures
        match devices_from(arg_views(args@), 0, "ffmpeg"@) {
            Ok(f) => r matches Ok(d) && d.ffmpeg_bin@ == f,
            Err(e) => r matches Err(x) && x@ == e,
        },
{
    let ghost av = arg_views(args@);
    let mut ffmpeg_bin = "ffmpeg".to_string();
    let mut i: usize = 0;
    while i < args.len()
        invariant
            i <= args@.len(),
            av == arg_views(args@),
            devices_from(av, 0, "ffmpeg"@) == devices_from(av, i as int, ffmpeg_bin@),
        decreases args.len() - i,
    {
        let a = chars_of(args[i].as_str());
        assert(a@ == av[i as int]);
        if is_lit(&a, "--ffmpeg-bin") {
            i = i + 1;
            match next_value(&args, &mut i, "--ffmpeg-bin") {
                Ok(v) => {
                    ffmpeg_bin = v;
                },
                Err(e) => {
                    return Err(e);
                },
            }
        } else if is_lit(&a, "--help") || is_lit(&a, "-h") {
            return Err(CliError::HelpRequested);
        } else {
            return Err(CliError::UnexpectedDevicesArgument(args[i].clone()));
        }
    }
    Ok(DevicesArgs { ffmpeg_bin })
}

// ---------------------------------------------------------------------------
// `start`
// ---------------------------------------------------------------------------
/// Paths whose defaults depend on the environment and the file system.
pub struct PathDefaults {
    pub whisper_bin: String,
    /// Model files for the `fast`, `balanced` and `accurate` profiles.
    pub tiny_model: String,
    pub base_model: String,
    pub small_model: String,
}

/// The model label and path of a quality profile.
pub open spec fn quality_profile(quality: Seq<char>, d: PathDefaults) -> Option<(Seq<char>, Seq<char>)> {
    if quality == "fast"@ {
        Some(("tiny-q5"@, d.tiny_model@))
    } else if quality == "balanced"@ {
        Some(("base-q5"@, d.base_model@))
    } else if quality == "accurate"@ {
        Some(("small-q5"@, d.small_model@))
    } else {
        None
    }
}

pub fn quality_defaults(quality: &str, defaults: &PathDefaults) -> (r: Result<(String, String), CliError>)
    ensures
        match quality_profile(quality@, *defaults) {
            Some((label, path)) => r matches Ok((l, p)) && l@ == label && p@ == path,
            None => r matches Err(e) && e@ == CliFault::UnknownQuality(quality@),
        },
{
    let q = chars_of(quality);
    if is_lit(&q, "fast") {
        Ok(("tiny-q5".to_string(), defaults.tiny_model.clone()))
    } else if is_lit(&q, "balanced") {
        Ok(("base-q5".to_string(), defaults.base_model.clone()))
    } else if is_lit(&q, "accurate") {
        Ok(("small-q5".to_string(), defaults.small_model.clone()))
    } else {
        Err(CliError::UnknownQuality(quality.to_string()))
    }
}

/// The options of `start` read so far.
pub struct StartOptions {
    pub quality: Seq<char>,
    pub model_path: Seq<char>,
    pub language: Seq<char>,
    pub threads: nat,
    pub chunk_seconds: nat,
    pub output_root: Seq<char>,
    pub record_audio: bool,
    pub title: Option<Seq<char>>,
    pub ffmpeg_bin: Seq<char>,
    pub whisper_bin: Seq<char>,
    pub source_query: Option<Seq<char>>,
    pub eco: bool,
}

/// The options before any argument is read.
pub open spec fn initial_options(whisper_bin: Seq<char>) -> StartOptions {
    StartOptions {
        quality: "balanced"@,
        model_path: Seq::empty(),
        language: "es"@,
        threads: 2,
        chunk_seconds: 20,
        output_root: "sessions"@,
        record_audio: false,
        title: None,
        ffmpeg_bin: "ffmpeg"@,
        whisper_bin,
        source_query: None,
        eco: false,
    }
}

/// One step of reading the arguments of `start`: the argument at `i` (with
/// the value after it, for flags that take one) updates the options; returns
/// the position of the next argument.  The first two arguments that are not
/// flags are the source and, unless `--title` came first, the title.
pub open spec fn start_step(args: Seq<Seq<char>>, i: int, o: StartOptions) -> Result<
    (int, StartOptions),
    CliFault,
> {
    let a = args[i];
    let has = i + 1 < args.len();
    if a == "--language"@ || a == "-l"@ {
        if has {
            Ok((i + 2, StartOptions { language: args[i + 1], ..o }))
        } else {
            Err(CliFault::MissingValue("--language"@))
        }
    } else if a == "--quality"@ {
        if has {
            Ok((i + 2, StartOptions { quality: args[i + 1], ..o }))
        } else {
            Err(CliFault::MissingValue("--quality"@))
        }
    } else if a == "--model"@ {
        if has {
            Ok((i + 2, StartOptions { model_path: args[i + 1], ..o }))
        } else {
            Err(CliFault::MissingValue("--model"@))
        }
    } else if a == "--threads"@ || a == "-t"@ {
        if has {
            match parse_unsigned(args[i + 1], usize::MAX as nat) {
                Some(n) => Ok((i + 2, StartOptions { threads: n, ..o })),
                None => Err(CliFault::InvalidThreads(args[i + 1])),
            }
        } else {
            Err(CliFault::MissingValue("--threads"@))
        }
    } else if a == "--chunk-size"@ {
        if has {
            match parse_unsigned(args[i + 1], u64::MAX as nat) {
                Some(n) => Ok((i + 2, StartOptions { chunk_seconds: n, ..o })),
                None => Err(CliFault::InvalidChunkSize(args[i + 1])),
            }
        } else {
            Err(CliFault::MissingValue("--chunk-size"@))
        }
    } else if a == "--output"@ {
        if has {
            Ok((i + 2, StartOptions { output_root: args[i + 1], ..o }))
        } else {
            Err(CliFault::MissingValue("--output"@))
        }
    } else if a == "--record"@ {
        Ok((i + 1, StartOptions { record_audio: true, ..o }))
    } else if a == "--title"@ {
        if has {
            Ok((i + 2, StartOptions { title: Some(args[i + 1]), ..o }))
        } else {
            Err(CliFault::MissingValue("--title"@))
        }
    } else if a == "--ffmpeg-bin"@ {
        if has {
            Ok((i + 2, StartOptions { ffmpeg_bin: args[i + 1], ..o }))
        } else {
            Err(CliFault::MissingValue("--ffmpeg-bin"@))
        }
    } else if a == "--whisper-bin"@ {
        if has {
            Ok((i + 2, StartOptions { whisper_bin: args[i + 1], ..o }))
        } else {
            Err(CliFault::MissingValue("--whisper-bin"@))
        }
    } else if a == "--eco"@ {
        Ok((i + 1, StartOptions { eco: true, ..o }))
    } else if a == "--help"@ || a == "-h"@ {
        Err(CliFault::HelpRequested)
    } else if a.len() > 0 && a[0] == '-' {
        Err(CliFault::UnknownOption(a))
    } else if o.source_query is None {
        Ok((i + 1, StartOptions { source_query: Some(a), ..o }))
    } else if o.title is None {
        Ok((i + 1, StartOptions { title: Some(a), ..o }))
    } else {
        Err(CliFault::ExtraPositional(a))
    }
}

/// Reads the arguments of `start` from position `i` on.
pub open spec fn start_from(args: Seq<Seq<char>>, i: int, o: StartOptions) -> Result<
    StartOptions,
    CliFault,
>
    decreases args.len() - i,
{
    if i < 0 || i >= args.len() {
        Ok(o)
    } else {
        match start_step(args, i, o) {
            Err(e) => Err(e),
            Ok((j, o2)) => if j > i {
                start_from(args, j, o2)
            } else {
                Ok(o2)
            },
        }
    }
}

/// `--eco` pins the lightweight profile: `balanced` quality, two threads,
/// 20-second chunks and no recording.
pub open spec fn apply_eco(o: StartOptions) -> StartOptions {
    if o.eco {
        StartOptions { quality: "balanced"@, threads: 2, chunk_seconds: 20, record_audio: false, ..o }
    } else {
        o
    }
}

/// What `Path::file_stem` gives for `path` (as text).
pub uninterp spec fn file_stem_text(path: Seq<char>) -> Option<Seq<char>>;

/// `Path::file_stem` on a UTF-8 path: the result is `file_stem_text(path)`;
/// the component rules of `std::path` are not stated.
#[verifier::external_body]
fn path_file_stem(path: &str) -> (r: Option<String>)
    ensures
        match file_stem_text(path@) {
            Some(s) => r matches Some(x) && x@ == s,
            None => r is None,
        },
{
    std::path::Path::new(path).file_stem().and_then(|s| s.to_str()).map(|s| s.to_string())
}

/// A session configuration as plain values.
pub struct StartView {
    pub ffmpeg_bin: Seq<char>,
    pub whisper_bin: Seq<char>,
    pub model_path: Seq<char>,
    pub model_label: Seq<char>,
    pub language: Seq<char>,
    pub quality: Seq<char>,
    pub threads: nat,
    pub chunk_seconds: nat,
    pub output_root: Seq<char>,
    pub record_audio: bool,
    pub title: Option<Seq<char>>,
    pub source_query: Seq<char>,
}

pub open spec fn opt_str_view(o: Option<String>) -> Option<Seq<char>> {
    match o {
        Some(s) => Some(s@),
        None => None,
    }
}

pub open spec fn config_view(c: StartConfig) -> StartView {
    StartView {
        ffmpeg_bin: c.ffmpeg_bin@,
        whisper_bin: c.whisper_bin@,
        model_path: c.model_path@,
        model_label: c.model_label@,
        language: c.language@,
        quality: c.quality@,
        threads: c.threads as nat,
        chunk_seconds: c.chunk_seconds as nat,
        output_root: c.output_root@,
        record_audio: c.record_audio,
        title: opt_str_view(c.title),
        source_query: c.source_query@,
    }
}

/// The configuration that a `start` command line asks for: the options read,
/// the `--eco` profile applied, the model of the quality profile unless
/// `--model` named one (its label is then the file stem), and a source.
pub open spec fn start_config(args: Seq<Seq<char>>, d: PathDefaults) -> Result<StartView, CliFault> {
    match start_from(args, 0, initial_options(d.whisper_bin@)) {
        Err(e) => Err(e),
        Ok(o0) => {
            let o = apply_eco(o0);
            match quality_profile(o.quality, d) {
                None => Err(CliFault::UnknownQuality(o.quality)),
                Some((label, path)) => {
                    let (model_path, model_label) = if o.model_path.len() == 0 {
                        (path, label)
                    } else {
                        (
                            o.model_path,
                            match file_stem_text(o.model_path) {
                                Some(s) => s,
                                None => "custom-model"@,
                            },
                        )
                    };
                    match o.source_query {
                        None => Err(CliFault::MissingSource),
                        Some(q) => Ok(
                            StartView {
                                ffmpeg_bin: o.ffmpeg_bin,
                                whisper_bin: o.whisper_bin,
                                model_path,
                                model_label,
                                language: o.language,
                                quality: o.quality,
                                threads: o.threads,
                                chunk_seconds: o.chunk_seconds,
                                output_root: o.output_root,
                                record_audio: o.record_audio,
                                title: o.title,
                                source_query: q,
                            },
                        ),
                    }
                },
            }
        },
    }
}

pub fn parse_start_args(args: Vec<String>, defaults: &PathDefaults) -> (r: Result<StartConfig, CliError>)
    ensures
        match start_config(arg_views(args@), *defaults) {
            Ok(v) => r matches Ok(c) && config_view(c) == v,
            Err(e) => r matches Err(x) && x@ == e,
        },
{
    let ghost av = arg_views(args@);
    let mut quality = "balanced".to_string();
    let mut model_path = String::new();
    let mut language = "es".to_string();
    let mut threads: usize = 2;
    let mut chunk_seconds: u64 = 20;
    let mut output_root = "sessions".to_string();
    let mut record_audio = false;
    let mut title: Option<String> = None;
    let mut ffmpeg_bin = "ffmpeg".to_string();
    let mut whisper_bin = defaults.whisper_bin.clone();
    let mut source_query: Option<String> = None;
    let mut eco = false;
    let mut i: usize = 0;
    while i < args.len()
        invariant
            i <= args@.len(),
            av == arg_views(args@),
            start_from(av, 0, initial_options(defaults.whisper_bin@)) == start_from(
                av,
                i as int,
                StartOptions {
                    quality: quality@,
                    model_path: model_path@,
                    language: language@,
                    threads: threads as nat,
                    chunk_seconds: chunk_seconds as nat,
                    output_root: output_root@,
                    record_audio,
                    title: opt_str_view(title),
                    ffmpeg_bin: ffmpeg_bin@,
                    whisper_bin: whisper_bin@,
                    source_query: opt_str_view(source_query),
                    eco,
                },
            ),
        decreases args.len() - i,
    {
        let a = chars_of(args[i].as_str());
        assert(a@ == av[i as int]);
        let start = i;
        if is_lit(&a, "--language") || is_lit(&a, "-l") {
            i = i + 1;
            language = match next_value(&args, &mut i, "--language") {
                Ok(v) => v,
                Err(e) => {
                    return Err(e);
                },
            };
        } else if is_lit(&a, "--quality") {
            i = i + 1;
            quality = match next_value(&args, &mut i, "--quality") {
                Ok(v) => v,
                Err(e) => {
                    return Err(e);
                },
            };
        } else if is_lit(&a, "--model") {
            i = i + 1;
            model_path = match next_value(&args, &mut i, "--model") {
                Ok(v) => v,
                Err(e) => {
                    return Err(e);
                },
            };
        } else if is_lit(&a, "--threads") || is_lit(&a, "-t") {
            i = i + 1;
            let v = match next_value(&args, &mut i, "--threads") {
                Ok(v) => v,
                Err(e) => {
                    return Err(e);
                },
            };
            let vc = chars_of(v.as_str());
            match parse_unsigned_chars(vc.as_slice(), usize::MAX as u64) {
                Some(n) => {
                    threads = n as usize;
                },
                None => {
                    return Err(CliError::InvalidThreads(v));
                },
            }
        } else if is_lit(&a, "--chunk-size") {
            i = i + 1;
            let v = match next_value(&args, &mut i, "--chunk-size") {
                Ok(v) => v,
                Err(e) => {
                    return Err(e);
                },
            };
            let vc = chars_of(v.as_str());
            match parse_unsigned_chars(vc.as_slice(), u64::MAX) {
                Some(n) => {
                    chunk_seconds = n;
                },
                None => {
                    return Err(CliError::InvalidChunkSize(v));
                },
            }
        } else if is_lit(&a, "--output") {
            i = i + 1;
            output_root = match next_value(&args, &mut i, "--output") {
                Ok(v) => v,
                Err(e) => {
                    return Err(e);
                },
            };
        } else if is_lit(&a, "--record") {
            record_audio = true;
            i = i + 1;
        } else if is_lit(&a, "--title") {
            i = i + 1;
            title = match next_value(&args, &mut i, "--title") {
                Ok(v) => Some(v),
                Err(e) => {
                    return Err(e);
                },
            };
        } else if is_lit(&a, "--ffmpeg-bin") {
            i = i + 1;
            ffmpeg_bin = match next_value(&args, &mut i, "--ffmpeg-bin") {
                Ok(v) => v,
                Err(e) => {
                    return Err(e);
                },
            };
        } else if is_lit(&a, "--whisper-bin") {
            i = i + 1;
            whisper_bin = match next_value(&args, &mut i, "--whisper-bin") {
                Ok(v) => v,
                Err(e) => {
                    return Err(e);
                },
            };
        } else if is_lit(&a, "--eco") {
            eco = true;
            i = i + 1;
        } else if is_lit(&a, "--help") || is_lit(&a, "-h") {
            return Err(CliError::HelpRequested);
        } else if a.len() > 0 && a[0] == '-' {
            return Err(CliError::UnknownOption(args[i].clone()));
        } else if source_query.is_none() {
            source_query = Some(args[i].clone());
            i = i + 1;
        } else if title.is_none() {
            title = Some(args[i].clone());
            i = i + 1;
        } else {
            return Err(CliError::ExtraPositional(args[i].clone()));
        }
    }
    if eco {
        quality = "balanced".to_string();
        threads = 2;
        chunk_seconds = 20;
        record_audio = false;
    }
    let (default_label, default_model_path) = match quality_defaults(quality.as_str(), defaults) {
        Ok(p) => p,
        Err(e) => {
            return Err(e);
        },
    };
    let model_label;
    if model_path.as_str().is_empty() {
        model_path = default_model_path;
        model_label = default_label;
    } else {
        model_label = match path_file_stem(model_path.as_str()) {
            Some(s) => s,
            None => "custom-model".to_string(),
        };
    }
    let source_query = match source_query {
        Some(q) => q,
        None => {
            return Err(CliError::MissingSource);
        },
    };
    Ok(
        StartConfig {
            ffmpeg_bin,
            whisper_bin,
            model_path,
            model_label,
            language,
            quality,
            threads,
            chunk_seconds,
            output_root,
            record_audio,
            title,
            source_query,
        },
    )
}

// ---------------------------------------------------------------------------
// Where the Whisper binary and the models are looked for
// ---------------------------------------------------------------------------
/// What `Path::join` gives for `base` and `rel` (as text).
pub uninterp spec fn joined_path(base: Seq<char>, rel: Seq<char>) -> Seq<char>;

/// `Path::join` on UTF-8 paths: the result is `joined_path(base, rel)`; the
/// separator rules of `std::path` are not stated.
#[verifier::external_body]
fn path_join(base: &str, rel: &str) -> (r: String)
    ensures
        r@ == joined_path(base@, rel@),
{
    std::path::Path::new(base).join(rel).to_string_lossy().into_owned()
}

pub open spec fn opt_list(o: Option<Seq<char>>) -> Seq<Seq<char>> {
    match o {
        Some(s) => seq![s],
        None => Seq::empty(),
    }
}

pub open spec fn opt_str(o: Option<&str>) -> Option<Seq<char>> {
    match o {
        Some(s) => Some(s@),
        None => None,
    }
}

/// The places where the Whisper binary is looked for, in order: the path in
/// `LECTURE_WHISPER_BIN`, the build directories of the whisper.cpp checkout in
/// `LECTURE_WHISPER_CPP_DIR`, and whisper.cpp checkouts next to the working
/// directory.
pub open spec fn whisper_bin_candidate_list(
    env_bin: Option<Seq<char>>,
    cpp_dir: Option<Seq<char>>,
    cwd: Option<Seq<char>>,
) -> Seq<Seq<char>> {
    opt_list(env_bin) + match cpp_dir {
        Some(d) => seq![
            joined_path(d, "build/bin/whisper-cli"@),
            joined_path(d, "build/bin/Release/whisper-cli.exe"@),
        ],
        None => Seq::empty(),
    } + match cwd {
        Some(c) => seq![
            joined_path(c, "../whisper.cpp/build/bin/whisper-cli"@),
            joined_path(c, "../../whisper.cpp/build/bin/whisper-cli"@),
            joined_path(c, "../whisper.cpp/build/bin/Release/whisper-cli.exe"@),
        ],
        None => Seq::empty(),
    }
}

fn push_owned(v: &mut Vec<String>, s: String)
    ensures
        final(v)@.map_values(|x: String| x@) == old(v)@.map_values(|x: String| x@).push(s@),
{
    let ghost before = v@;
    let ghost sv = s@;
    v.push(s);
    assert(v@.map_values(|x: String| x@) =~= before.map_values(|x: String| x@).push(sv));
}

pub fn whisper_bin_candidates(env_bin: Option<&str>, cpp_dir: Option<&str>, cwd: Option<&str>) -> (r: Vec<String>)
    ensures
        r@.map_values(|x: String| x@) == whisper_bin_candidate_list(
            opt_str(env_bin),
            opt_str(cpp_dir),
            opt_str(cwd),
        ),
{
    let mut out: Vec<String> = Vec::new();
    let ghost e = Seq::<Seq<char>>::empty();
    assert(out@.map_values(|x: String| x@) =~= e);
    match env_bin {
        Some(b) => push_owned(&mut out, b.to_string()),
        None => {},
    }
    assert(out@.map_values(|x: String| x@) =~= opt_list(opt_str(env_bin)));
    let ghost a = out@.map_values(|x: String| x@);
    match cpp_dir {
        Some(d) => {
            push_owned(&mut out, path_join(d, "build/bin/whisper-cli"));
            push_owned(&mut out, path_join(d, "build/bin/Release/whisper-cli.exe"));
        },
        None => {},
    }
    let ghost b = out@.map_values(|x: String| x@);
    match cwd {
        Some(c) => {
            push_owned(&mut out, path_join(c, "../whisper.cpp/build/bin/whisper-cli"));
            push_owned(&mut out, path_join(c, "../../whisper.cpp/build/bin/whisper-cli"));
            push_owned(&mut out, path_join(c, "../whisper.cpp/build/bin/Release/whisper-cli.exe"));
        },
        None => {},
    }
    assert(out@.map_values(|x: String| x@) =~= whisper_bin_candidate_list(
        opt_str(env_bin),
        opt_str(cpp_dir),
        opt_str(cwd),
    ));
    out
}

pub open spec fn model_file(prefix: Seq<char>, size: Seq<char>) -> Seq<char> {
    prefix + "ggml-"@ + size + ".bin"@
}

pub open spec fn test_model_file(prefix: Seq<char>, size: Seq<char>) -> Seq<char> {
    prefix + "for-tests-ggml-"@ + size + ".bin"@
}

/// The places where the model of a size is looked for, in order: the path in
/// `LECTURE_WHISPER_MODEL`, the directory in `LECTURE_WHISPER_MODEL_DIR`, the
/// `models` directory of the whisper.cpp checkout in `LECTURE_WHISPER_CPP_DIR`,
/// and whisper.cpp checkouts next to the working directory; regular models
/// before the small test models.
pub open spec fn model_candidate_list(
    size: Seq<char>,
    env_model: Option<Seq<char>>,
    model_dir: Option<Seq<char>>,
    cpp_dir: Option<Seq<char>>,
) -> Seq<Seq<char>> {
    opt_list(env_model) + match model_dir {
        Some(d) => seq![
            joined_path(d, model_file(Seq::empty(), size)),
            joined_path(d, test_model_file(Seq::empty(), size)),
        ],
        None => Seq::empty(),
    } + match cpp_dir {
        Some(d) => seq![
            joined_path(joined_path(d, "models"@), model_file(Seq::empty(), size)),
            joined_path(joined_path(d, "models"@), test_model_file(Seq::empty(), size)),
        ],
        None => Seq::empty(),
    } + seq![
        model_file("../whisper.cpp/models/"@, size),
        model_file("../../whisper.cpp/models/"@, size),
        test_model_file("../whisper.cpp/models/"@, size),
        test_model_file("../../whisper.cpp/models/"@, size),
    ]
}

/// The model path used when no candidate exists.
pub open spec fn fallback_model(size: Seq<char>) -> Seq<char> {
    "models/"@ + size + "-q5.bin"@
}

fn file_name(prefix: &str, size: &str, test: bool) -> (r: String)
    ensures
        r@ == if test {
            test_model_file(prefix@, size@)
        } else {
            model_file(prefix@, size@)
        },
{
    let mut out = chars_of(prefix);
    if test {
        extend_str(&mut out, "for-tests-ggml-");
    } else {
        extend_str(&mut out, "ggml-");
    }
    extend_str(&mut out, size);
    extend_str(&mut out, ".bin");
    string_of(out.as_slice())
}

pub fn model_candidates(
    size: &str,
    env_model: Option<&str>,
    model_dir: Option<&str>,
    cpp_dir: Option<&str>,
) -> (r: Vec<String>)
    ensures
        r@.map_values(|x: String| x@) == model_candidate_list(
            size@,
            opt_str(env_model),
            opt_str(model_dir),
            opt_str(cpp_dir),
        ),
{
    let mut out: Vec<String> = Vec::new();
    match env_model {
        Some(m) => push_owned(&mut out, m.to_string()),
        None => {},
    }
    match model_dir {
        Some(d) => {
            let f = file_name("", size, false);
            push_owned(&mut out, path_join(d, f.as_str()));
            let t = file_name("", size, true);
            push_owned(&mut out, path_join(d, t.as_str()));
        },
        None => {},
    }
    match cpp_dir {
        Some(d) => {
            let models = path_join(d, "models");
            let f = file_name("", size, false);
            push_owned(&mut out, path_join(models.as_str(), f.as_str()));
            let t = file_name("", size, true);
            push_owned(&mut out, path_join(models.as_str(), t.as_str()));
        },
        None => {},
    }
    push_owned(&mut out, file_name("../whisper.cpp/models/", size, false));
    push_owned(&mut out, file_name("../../whisper.cpp/models/", size, false));
    push_owned(&mut out, file_name("../whisper.cpp/models/", size, true));
    push_owned(&mut out, file_name("../../whisper.cpp/models/", size, true));
    proof {
        reveal_strlit("");
    }
    assert(out@.map_values(|x: String| x@) =~= model_candidate_list(
        size@,
        opt_str(env_model),
        opt_str(model_dir),
        opt_str(cpp_dir),
    ));
    out
}

pub fn fallback_model_path(size: &str) -> (r: String)
    ensures
        r@ == fallback_model(size@),
{
    let mut out = chars_of("models/");
    extend_str(&mut out, size);
    extend_str(&mut out, "-q5.bin");
    string_of(out.as_slice())
}

/// The first candidate that exists, or the fallback when none does.
pub open spec fn first_existing_of(candidates: Seq<Seq<char>>, exists: Seq<bool>, fallback: Seq<char>) -> Seq<char>
    decreases candidates.len(),
{
    if candidates.len() == 0 || exists.len() == 0 {
        fallback
    } else if exists[0] {
        candidates[0]
    } else {
        first_existing_of(candidates.drop_first(), exists.drop_first(), fallback)
    }
}

pub fn first_existing(candidates: Vec<String>, exists: &[bool], fallback: String) -> (r: String)
    requires
        exists@.len() == candidates@.len(),
    ensures
        r@ == first_existing_of(candidates@.map_values(|x: String| x@), exists@, fallback@),
{
    let ghost cv = candidates@.map_values(|x: String| x@);
    let mut rest = candidates;
    let mut i: usize = 0;
    assert(cv.skip(0) =~= cv);
    assert(exists@.skip(0) =~= exists@);
    while i < exists.len()
        invariant
            i <= exists@.len(),
            exists@.len() == cv.len(),
            rest@.map_values(|x: String| x@) == cv.skip(i as int),
            cv == candidates@.map_values(|x: String| x@),
            first_existing_of(cv, exists@, fallback@) == first_existing_of(
                cv.skip(i as int),
                exists@.skip(i as int),
                fallback@,
            ),
        decreases exists.len() - i,
    {
        let c = rest.remove(0);
        proof {
            assert(cv.skip(i as int).drop_first() =~= cv.skip(i + 1));
            assert(exists@.skip(i as int).drop_first() =~= exists@.skip(i + 1));
            assert(c@ == cv.skip(i as int)[0]);
            assert(rest@.map_values(|x: String| x@) =~= cv.skip(i + 1));
            assert(exists@.skip(i as int)[0] == exists@[i as int]);
            assert(cv.skip(i as int).len() > 0);
        }
        if exists[i] {
            assert(first_existing_of(cv.skip(i as int), exists@.skip(i as int), fallback@)
                == cv.skip(i as int)[0]);
            return c;
        }
        i += 1;
    }
    fallback
}

// ---------------------------------------------------------------------------
// Properties of `start`
// ---------------------------------------------------------------------------
pub open spec fn is_flag_like(a: Seq<char>) -> bool {
    a.len() > 0 && a[0] == '-'
}

/// `lecture start <source> <title>` runs with the defaults: Spanish, the
/// `balanced` profile and its base model, two threads, 20-second chunks,
/// `sessions` as output directory, no recording.
pub proof fn lemma_start_defaults(source: Seq<char>, title: Seq<char>, d: PathDefaults)
    requires
        !is_flag_like(source),
        !is_flag_like(title),
    ensures
        start_config(seq![source, title], d) == Ok::<StartView, CliFault>(
            StartView {
                ffmpeg_bin: "ffmpeg"@,
                whisper_bin: d.whisper_bin@,
                model_path: d.base_model@,
                model_label: "base-q5"@,
                language: "es"@,
                quality: "balanced"@,
                threads: 2,
                chunk_seconds: 20,
                output_root: "sessions"@,
                record_audio: false,
                title: Some(title),
                source_query: source,
            },
        ),
{
    reveal_strlit("--language");
    reveal_strlit("-l");
    reveal_strlit("--quality");
    reveal_strlit("--model");
    reveal_strlit("--threads");
    reveal_strlit("-t");
    reveal_strlit("--chunk-size");
    reveal_strlit("--output");
    reveal_strlit("--record");
    reveal_strlit("--title");
    reveal_strlit("--ffmpeg-bin");
    reveal_strlit("--whisper-bin");
    reveal_strlit("--eco");
    reveal_strlit("--help");
    reveal_strlit("-h");
    reveal_strlit("fast");
    reveal_strlit("balanced");
    let args = seq![source, title];
    let o0 = initial_options(d.whisper_bin@);
    let o1 = StartOptions { source_query: Some(source), ..o0 };
    let o2 = StartOptions { title: Some(title), ..o1 };
    assert(args[0] == source);
    assert(args[1] == title);
    assert(start_step(args, 0, o0) == Ok::<(int, StartOptions), CliFault>((1, o1)));
    assert(start_step(args, 1, o1) == Ok::<(int, StartOptions), CliFault>((2, o2)));
    assert(start_from(args, 2, o2) == Ok::<StartOptions, CliFault>(o2));
    assert(start_from(args, 1, o1) == Ok::<StartOptions, CliFault>(o2));
    assert(start_from(args, 0, o0) == Ok::<StartOptions, CliFault>(o2));
    assert(("balanced"@).len() != ("fast"@).len());
    reveal_strlit("");
    assert(o2.model_path.len() == 0);
}

/// The defaults of `start`, with the source, the title, the language and the
/// thread count given.
pub open spec fn start_view_with(
    source: Seq<char>,
    title: Seq<char>,
    language: Seq<char>,
    threads: nat,
    d: PathDefaults,
) -> StartView {
    StartView {
        ffmpeg_bin: "ffmpeg"@,
        whisper_bin: d.whisper_bin@,
        model_path: d.base_model@,
        model_label: "base-q5"@,
        language,
        quality: "balanced"@,
        threads,
        chunk_seconds: 20,
        output_root: "sessions"@,
        record_audio: false,
        title: Some(title),
        source_query: source,
    }
}

/// `lecture start <source> <title> --threads <n>` runs with `n` threads, and
/// `--threads` means the same as `-t`.
pub proof fn lemma_threads_flag(source: Seq<char>, title: Seq<char>, n: Seq<char>, d: PathDefaults)
    requires
        !is_flag_like(source),
        !is_flag_like(title),
        parse_unsigned(n, usize::MAX as nat) is Some,
    ensures
        start_config(seq![source, title, "--threads"@, n], d) == Ok::<StartView, CliFault>(
            start_view_with(source, title, "es"@, parse_unsigned(n, usize::MAX as nat)->0, d),
        ),
        start_config(seq![source, title, "--threads"@, n], d) == start_config(
            seq![source, title, "-t"@, n],
            d,
        ),
{
    reveal_strlit("--language");
    reveal_strlit("-l");
    reveal_strlit("--quality");
    reveal_strlit("--model");
    reveal_strlit("--threads");
    reveal_strlit("-t");
    reveal_strlit("--chunk-size");
    reveal_strlit("--output");
    reveal_strlit("--record");
    reveal_strlit("--title");
    reveal_strlit("--ffmpeg-bin");
    reveal_strlit("--whisper-bin");
    reveal_strlit("--eco");
    reveal_strlit("--help");
    reveal_strlit("-h");
    reveal_strlit("fast");
    reveal_strlit("balanced");
    reveal_strlit("");
    let v = parse_unsigned(n, usize::MAX as nat)->0;
    let o0 = initial_options(d.whisper_bin@);
    let o1 = StartOptions { source_query: Some(source), ..o0 };
    let o2 = StartOptions { title: Some(title), ..o1 };
    let o3 = StartOptions { threads: v, ..o2 };
    let long = seq![source, title, "--threads"@, n];
    let short = seq![source, title, "-t"@, n];
    assert(long[2] == "--threads"@);
    assert(short[2] == "-t"@);
    assert(("--language"@).len() == 10 && ("-l"@).len() == 2 && ("--quality"@).len() == 9);
    assert(("--model"@).len() == 7 && ("--threads"@).len() == 9 && ("-t"@).len() == 2);
    assert(("--threads"@)[2] == 't' && ("--quality"@)[2] == 'q');
    assert(("-t"@)[1] == 't' && ("-l"@)[1] == 'l');
    assert(start_step(long, 0, o0) == Ok::<(int, StartOptions), CliFault>((1, o1)));
    assert(start_step(long, 1, o1) == Ok::<(int, StartOptions), CliFault>((2, o2)));
    assert(start_step(long, 2, o2) == Ok::<(int, StartOptions), CliFault>((4, o3)));
    assert(start_from(long, 4, o3) == Ok::<StartOptions, CliFault>(o3));
    assert(start_from(long, 2, o2) == Ok::<StartOptions, CliFault>(o3));
    assert(start_from(long, 1, o1) == Ok::<StartOptions, CliFault>(o3));
    assert(start_from(long, 0, o0) == Ok::<StartOptions, CliFault>(o3));
    assert(start_step(short, 0, o0) == Ok::<(int, StartOptions), CliFault>((1, o1)));
    assert(start_step(short, 1, o1) == Ok::<(int, StartOptions), CliFault>((2, o2)));
    assert(start_step(short, 2, o2) == Ok::<(int, StartOptions), CliFault>((4, o3)));
    assert(start_from(short, 4, o3) == Ok::<StartOptions, CliFault>(o3));
    assert(start_from(short, 2, o2) == Ok::<StartOptions, CliFault>(o3));
    assert(start_from(short, 1, o1) == Ok::<StartOptions, CliFault>(o3));
    assert(start_from(short, 0, o0) == Ok::<StartOptions, CliFault>(o3));
    assert(("balanced"@).len() != ("fast"@).len());
}

/// `lecture start <source> <title> --language <l>` runs in language `l`, and
/// `--language` means the same as `-l`.
pub proof fn lemma_language_flag(source: Seq<char>, title: Seq<char>, language: Seq<char>, d: PathDefaults)
    requires
        !is_flag_like(source),
        !is_flag_like(title),
    ensures
        start_config(seq![source, title, "--language"@, language], d) == Ok::<StartView, CliFault>(
            start_view_with(source, title, language, 2, d),
        ),
        start_config(seq![source, title, "--language"@, language], d) == start_config(
            seq![source, title, "-l"@, language],
            d,
        ),
{
    reveal_strlit("--language");
    reveal_strlit("-l");
    reveal_strlit("--quality");
    reveal_strlit("--model");
    reveal_strlit("--threads");
    reveal_strlit("-t");
    reveal_strlit("--chunk-size");
    reveal_strlit("--output");
    reveal_strlit("--record");
    reveal_strlit("--title");
    reveal_strlit("--ffmpeg-bin");
    reveal_strlit("--whisper-bin");
    reveal_strlit("--eco");
    reveal_strlit("--help");
    reveal_strlit("-h");
    reveal_strlit("fast");
    reveal_strlit("balanced");
    reveal_strlit("");
    let o0 = initial_options(d.whisper_bin@);
    let o1 = StartOptions { source_query: Some(source), ..o0 };
    let o2 = StartOptions { title: Some(title), ..o1 };
    let o3 = StartOptions { language, ..o2 };
    let long = seq![source, title, "--language"@, language];
    let short = seq![source, title, "-l"@, language];
    assert(long[2] == "--language"@);
    assert(short[2] == "-l"@);
    assert(("--language"@).len() == 10 && ("-l"@).len() == 2 && ("--quality"@).len() == 9);
    assert(("--model"@).len() == 7 && ("--threads"@).len() == 9 && ("-t"@).len() == 2);
    assert(("--threads"@)[2] == 't' && ("--quality"@)[2] == 'q');
    assert(("-t"@)[1] == 't' && ("-l"@)[1] == 'l');
    assert(start_step(long, 0, o0) == Ok::<(int, StartOptions), CliFault>((1, o1)));
    assert(start_step(long, 1, o1) == Ok::<(int, StartOptions), CliFault>((2, o2)));
    assert(start_step(long, 2, o2) == Ok::<(int, StartOptions), CliFault>((4, o3)));
    assert(start_from(long, 4, o3) == Ok::<StartOptions, CliFault>(o3));
    assert(start_from(long, 2, o2) == Ok::<StartOptions, CliFault>(o3));
    assert(start_from(long, 1, o1) == Ok::<StartOptions, CliFault>(o3));
    assert(start_from(long, 0, o0) == Ok::<StartOptions, CliFault>(o3));
    assert(start_step(short, 0, o0) == Ok::<(int, StartOptions), CliFault>((1, o1)));
    assert(start_step(short, 1, o1) == Ok::<(int, StartOptions), CliFault>((2, o2)));
    assert(start_step(short, 2, o2) == Ok::<(int, StartOptions), CliFault>((4, o3)));
    assert(start_from(short, 4, o3) == Ok::<StartOptions, CliFault>(o3));
    assert(start_from(short, 2, o2) == Ok::<StartOptions, CliFault>(o3));
    assert(start_from(short, 1, o1) == Ok::<StartOptions, CliFault>(o3));
    assert(start_from(short, 0, o0) == Ok::<StartOptions, CliFault>(o3));
    assert(("balanced"@).len() != ("fast"@).len());
}

/// The example of the documentation, `lecture start <source> <title>
/// --language <l> --quality balanced --threads <n>`, runs with that source,
/// title, language and thread count and the `balanced` defaults otherwise.
pub proof fn lemma_documented_start(
    source: Seq<char>,
    title: Seq<char>,
    language: Seq<char>,
    n: Seq<char>,
    d: PathDefaults,
)
    requires
        !is_flag_like(source),
        !is_flag_like(title),
        parse_unsigned(n, usize::MAX as nat) is Some,
    ensures
        start_config(
            seq![source, title, "--language"@, language, "--quality"@, "balanced"@, "--threads"@, n],
            d,
        ) == Ok::<StartView, CliFault>(
            start_view_with(source, title, language, parse_unsigned(n, usize::MAX as nat)->0, d),
        ),
{
    reveal_strlit("--language");
    reveal_strlit("-l");
    reveal_strlit("--quality");
    reveal_strlit("--model");
    reveal_strlit("--threads");
    reveal_strlit("-t");
    reveal_strlit("--chunk-size");
    reveal_strlit("--output");
    reveal_strlit("--record");
    reveal_strlit("--title");
    reveal_strlit("--ffmpeg-bin");
    reveal_strlit("--whisper-bin");
    reveal_strlit("--eco");
    reveal_strlit("--help");
    reveal_strlit("-h");
    reveal_strlit("fast");
    reveal_strlit("balanced");
    reveal_strlit("");
    let v = parse_unsigned(n, usize::MAX as nat)->0;
    let args = seq![source, title, "--language"@, language, "--quality"@, "balanced"@, "--threads"@, n];
    let o0 = initial_options(d.whisper_bin@);
    let o1 = StartOptions { source_query: Some(source), ..o0 };
    let o2 = StartOptions { title: Some(title), ..o1 };
    let o3 = StartOptions { language, ..o2 };
    let o4 = StartOptions { quality: "balanced"@, ..o3 };
    let o5 = StartOptions { threads: v, ..o4 };
    assert(args[2] == "--language"@);
    assert(args[3] == language);
    assert(args[4] == "--quality"@);
    assert(args[5] == "balanced"@);
    assert(args[6] == "--threads"@);
    assert(args[7] == n);
    assert(("--language"@).len() == 10 && ("-l"@).len() == 2 && ("--quality"@).len() == 9);
    assert(("--model"@).len() == 7 && ("--threads"@).len() == 9 && ("-t"@).len() == 2);
    assert(("--threads"@)[2] == 't' && ("--quality"@)[2] == 'q');
    assert(("-t"@)[1] == 't' && ("-l"@)[1] == 'l');
    assert(start_step(args, 0, o0) == Ok::<(int, StartOptions), CliFault>((1, o1)));
    assert(start_step(args, 1, o1) == Ok::<(int, StartOptions), CliFault>((2, o2)));
    assert(start_step(args, 2, o2) == Ok::<(int, StartOptions), CliFault>((4, o3)));
    assert(start_step(args, 4, o3) == Ok::<(int, StartOptions), CliFault>((6, o4)));
    assert(args[6int + 1] == n);
    assert(start_step(args, 6, o4) == Ok::<(int, StartOptions), CliFault>((8, o5)));
    assert(start_from(args, 8, o5) == Ok::<StartOptions, CliFault>(o5));
    assert(start_from(args, 6, o4) == Ok::<StartOptions, CliFault>(o5));
    assert(start_from(args, 4, o3) == Ok::<StartOptions, CliFault>(o5));
    assert(start_from(args, 2, o2) == Ok::<StartOptions, CliFault>(o5));
    assert(start_from(args, 1, o1) == Ok::<StartOptions, CliFault>(o5));
    assert(start_from(args, 0, o0) == Ok::<StartOptions, CliFault>(o5));
    assert(("balanced"@).len() != ("fast"@).len());
}

/// `--eco` forces the lightweight profile whatever else the command line says.
pub proof fn lemma_eco_profile(args: Seq<Seq<char>>, d: PathDefaults)
    ensures
        (start_from(args, 0, initial_options(d.whisper_bin@)) matches Ok(o) && o.eco) ==> (
        start_config(args, d) matches Ok(v) ==> {
            &&& v.quality == "balanced"@
            &&& v.threads == 2
            &&& v.chunk_seconds == 20
            &&& !v.record_audio
        }),
{
}

proof fn lemma_record_from(args: Seq<Seq<char>>, i: int, o: StartOptions)
    ensures
        (start_from(args, i, o) matches Ok(r) && r.record_audio) ==> (o.record_audio || exists|
            j: int,
        | i <= j < args.len() && args[j] == "--record"@),
    decreases args.len() - i,
{
    if 0 <= i < args.len() {
        match start_step(args, i, o) {
            Err(_) => {},
            Ok((j, o2)) => {
                if j > i {
                    lemma_record_from(args, j, o2);
                    if o2.record_audio && !o.record_audio {
                        assert(args[i] == "--record"@);
                    }
                }
            },
        }
    }
}

/// Audio is kept only when `--record` is on the command line.
pub proof fn lemma_recording_needs_flag(args: Seq<Seq<char>>, d: PathDefaults)
    ensures
        start_config(args, d) matches Ok(v) && v.record_audio ==> exists|j: int|
            0 <= j < args.len() && args[j] == "--record"@,
{
    lemma_record_from(args, 0, initial_options(d.whisper_bin@));
}

} // verus!
