//! The decisions around one run of the Whisper binary: its arguments, the
//! name of its output file, the text taken from it, and what a failure reports.
use vstd::prelude::*;

use crate::platform::{decode_lossy, utf8_lossy};
use crate::text::{chars_of, dec, extend_str, push_dec, string_of, trim, trim_chars};
use crate::util::{normalize_whitespace, normalized};

verus! {

broadcast use vstd::string::group_string_axioms;

/// The arguments of one Whisper run: model, input, output base, plain-text
/// output without progress or timestamps, language, threads and the
/// no-speech threshold.
pub open spec fn whisper_arg_list(
    model_path: Seq<char>,
    wav_path: Seq<char>,
    output_base: Seq<char>,
    language: Seq<char>,
    threads: nat,
    no_speech_threshold: Seq<char>,
) -> Seq<Seq<char>> {
    seq![
        "-m"@,
        model_path,
        "-f"@,
        wav_path,
        "-of"@,
        output_base,
        "-otxt"@,
        "-np"@,
        "-nt"@,
        "-l"@,
        language,
        "-t"@,
        dec(threads),
        "-nth"@,
        no_speech_threshold,
    ]
}

fn push_arg(args: &mut Vec<String>, a: &str)
    ensures
        final(args)@.map_values(|s: String| s@) == old(args)@.map_values(|s: String| s@).push(a@),
{
    let ghost before = args@;
    args.push(a.to_string());
    assert(args@.map_values(|s: String| s@) =~= before.map_values(|s: String| s@).push(a@));
}

pub fn whisper_args(
    model_path: &str,
    wav_path: &str,
    output_base: &str,
    language: &str,
    threads: usize,
    no_speech_threshold: &str,
) -> (r: Vec<String>)
    ensures
        r@.map_values(|s: String| s@) == whisper_arg_list(
            model_path@,
            wav_path@,
            output_base@,
            language@,
            threads as nat,
            no_speech_threshold@,
        ),
{
    let mut args: Vec<String> = Vec::new();
    push_arg(&mut args, "-m");
    push_arg(&mut args, model_path);
    push_arg(&mut args, "-f");
    push_arg(&mut args, wav_path);
    push_arg(&mut args, "-of");
    push_arg(&mut args, output_base);
    push_arg(&mut args, "-otxt");
    push_arg(&mut args, "-np");
    push_arg(&mut args, "-nt");
    push_arg(&mut args, "-l");
    push_arg(&mut args, language);
    push_arg(&mut args, "-t");
    let mut t: Vec<char> = Vec::new();
    push_dec(&mut t, threads as u64);
    let ts = string_of(t.as_slice());
    push_arg(&mut args, ts.as_str());
    push_arg(&mut args, "-nth");
    push_arg(&mut args, no_speech_threshold);
    assert(t@ =~= dec(threads as nat));
    assert(args@.map_values(|s: String| s@) =~= whisper_arg_list(
        model_path@,
        wav_path@,
        output_base@,
        language@,
        threads as nat,
        no_speech_threshold@,
    ));
    args
}

/// `whisper-<process>-<run>`: the base name of one run's output files.
pub fn whisper_output_stem(process_id: u32, run: usize) -> (r: String)
    ensures
        r@ == "whisper-"@ + dec(process_id as nat) + seq!['-'] + dec(run as nat),
{
    let mut out = chars_of("whisper-");
    push_dec(&mut out, process_id as u64);
    out.push('-');
    push_dec(&mut out, run as u64);
    string_of(out.as_slice())
}

/// What a failed run reports: its standard error, or its standard output
/// when standard error is empty, trimmed.
pub open spec fn failure_details_text(stderr: Seq<u8>, stdout: Seq<u8>) -> Seq<char> {
    if utf8_lossy(stderr).len() == 0 {
        trim(utf8_lossy(stdout))
    } else {
        trim(utf8_lossy(stderr))
    }
}

pub fn failure_details(stderr: &[u8], stdout: &[u8]) -> (r: String)
    ensures
        r@ == failure_details_text(stderr@, stdout@),
{
    let mut details = decode_lossy(stderr);
    if details.as_str().is_empty() {
        details = decode_lossy(stdout);
    }
    let t = trim_chars(chars_of(details.as_str()).as_slice());
    string_of(t.as_slice())
}

/// The transcript of a successful run: the text file Whisper wrote when it
/// exists, its standard output otherwise, with whitespace normalized.
pub open spec fn transcript_text_of(file_text: Option<Seq<char>>, stdout: Seq<u8>) -> Seq<char> {
    match file_text {
        Some(t) => normalized(t),
        None => normalized(utf8_lossy(stdout)),
    }
}

pub fn transcript_text(file_text: Option<String>, stdout: &[u8]) -> (r: String)
    ensures
        r@ == transcript_text_of(
            match file_text {
                Some(t) => Some(t@),
                None => None,
            },
            stdout@,
        ),
{
    match file_text {
        Some(t) => normalize_whitespace(t.as_str()),
        None => {
            let s = decode_lossy(stdout);
            normalize_whitespace(s.as_str())
        },
    }
}

} // verus!
