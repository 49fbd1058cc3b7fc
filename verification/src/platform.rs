//! Audio sources: reading the listings of `pactl` and of ffmpeg's WASAPI
//! probe, numbering the sources, finding the one a user asked for, and the
//! ffmpeg arguments that capture it.
use vstd::prelude::*;

use crate::text::{
    chars_eq_ignore_ascii_case, chars_of, contains, contains_chars, dec, eq_ignore_ascii_case,
    extend_chars, extend_str, lines, parse_unsigned, parse_unsigned_chars, push_char, push_dec,
    split, split_lines, split_on, string_of, sub_chars, trim, trim_chars,
};
use vstd::utf8::{decode_utf8, valid_utf8};

verus! {

broadcast use vstd::string::group_string_axioms;

#[derive(Clone, Debug)]
pub struct AudioSource {
    pub id: usize,
    pub application: String,
    pub stream: String,
    pub capture_spec: String,
    pub backend: String,
}

/// An audio source as plain values.
pub struct SourceView {
    pub id: nat,
    pub application: Seq<char>,
    pub stream: Seq<char>,
    pub capture_spec: Seq<char>,
    pub backend: Seq<char>,
}

impl View for AudioSource {
    type V = SourceView;

    open spec fn view(&self) -> SourceView {
        SourceView {
            id: self.id as nat,
            application: self.application@,
            stream: self.stream@,
            capture_spec: self.capture_spec@,
            backend: self.backend@,
        }
    }
}

/// `application/stream`.
pub open spec fn display_name_of(s: SourceView) -> Seq<char> {
    s.application + seq!['/'] + s.stream
}

impl AudioSource {
    pub fn display_name(&self) -> (r: String)
        ensures
            r@ == display_name_of(self@),
    {
        let mut out = chars_of(self.application.as_str());
        out.push('/');
        extend_str(&mut out, self.stream.as_str());
        string_of(out.as_slice())
    }
}

#[derive(Debug)]
pub enum SourceError {
    /// No source carries the number that was asked for.
    IdNotFound(usize),
    /// No source matches the name that was asked for.
    NameNotFound(String),
    /// ffmpeg failed and listed no WASAPI device; its output is attached.
    WasapiListFailed(String),
}

// ---------------------------------------------------------------------------
// Outside helpers from std
// ---------------------------------------------------------------------------
/// What `String::from_utf8_lossy` makes of `bytes`.
pub uninterp spec fn utf8_lossy(bytes: Seq<u8>) -> Seq<char>;

/// `String::from_utf8_lossy`: the text is `utf8_lossy(bytes)`, and for valid
/// UTF-8 it is the decoded text (invalid sequences become U+FFFD, which is
/// left unstated).
#[verifier::external_body]
pub(crate) fn decode_lossy(bytes: &[u8]) -> (s: String)
    ensures
        s@ == utf8_lossy(bytes@),
        valid_utf8(bytes@) ==> s@ == decode_utf8(bytes@),
{
    String::from_utf8_lossy(bytes).into_owned()
}

/// What `str::to_lowercase` makes of `s`.
pub uninterp spec fn lowercase(s: Seq<char>) -> Seq<char>;

/// `str::to_lowercase`: the result is `lowercase(s)`; the Unicode case
/// mappings behind it are not stated.
#[verifier::external_body]
fn to_lowercase(s: &str) -> (r: String)
    ensures
        r@ == lowercase(s@),
{
    s.to_lowercase()
}

// ---------------------------------------------------------------------------
// Numbering
// ---------------------------------------------------------------------------
/// The source used when discovery finds nothing.
pub open spec fn fallback_source(windows: bool) -> SourceView {
    SourceView {
        id: 1,
        application: if windows {
            "WASAPI"@
        } else {
            "PipeWire"@
        },
        stream: "default"@,
        capture_spec: "default"@,
        backend: if windows {
            "wasapi"@
        } else {
            "pulse"@
        },
    }
}

/// The discovered sources, numbered from 1 in order; when none was found, the
/// platform's default source alone.
pub fn discover_audio_sources(found: Vec<AudioSource>, windows: bool) -> (r: Vec<AudioSource>)
    requires
        found@.len() < usize::MAX,
    ensures
        found@.len() == 0 ==> r@.len() == 1 && r@[0]@ == fallback_source(windows),
        found@.len() > 0 ==> r@.len() == found@.len(),
        found@.len() > 0 ==> forall|i: int|
            0 <= i < r@.len() ==> #[trigger] r@[i] == (AudioSource { id: (i + 1) as usize, ..found@[i] }),
{
    let mut found = found;
    if found.len() == 0 {
        let s = AudioSource {
            id: 1,
            application: if windows {
                "WASAPI".to_string()
            } else {
                "PipeWire".to_string()
            },
            stream: "default".to_string(),
            capture_spec: "default".to_string(),
            backend: if windows {
                "wasapi".to_string()
            } else {
                "pulse".to_string()
            },
        };
        let mut r: Vec<AudioSource> = Vec::new();
        r.push(s);
        return r;
    }
    let ghost orig = found@;
    let n = found.len();
    let mut r: Vec<AudioSource> = Vec::new();
    let mut i: usize = 0;
    while i < n
        invariant
            n == orig.len(),
            n < usize::MAX,
            i <= n,
            found@ == orig.skip(i as int),
            r@.len() == i,
            forall|k: int|
                0 <= k < i ==> #[trigger] r@[k] == (AudioSource { id: (k + 1) as usize, ..orig[k] }),
        decreases n - i,
    {
        let s = found.remove(0);
        assert(s == orig[i as int]);
        assert(found@ =~= orig.skip(i + 1));
        r.push(AudioSource { id: i + 1, ..s });
        i += 1;
    }
    r
}

// ---------------------------------------------------------------------------
// Choosing a source
// ---------------------------------------------------------------------------
/// A source answers a name query when its stream equals the query up to
/// ASCII case, or when the lower-cased query occurs in its lower-cased
/// display name or capture spec.
pub open spec fn name_matches(s: SourceView, query: Seq<char>) -> bool {
    ||| eq_ignore_ascii_case(s.stream, query)
    ||| contains(lowercase(display_name_of(s)), lowercase(query))
    ||| contains(lowercase(s.capture_spec), lowercase(query))
}

/// Whether source `s` is the one `query` asks for: by number when the query
/// parses as one, else by name.
pub open spec fn query_matches(s: SourceView, query: Seq<char>) -> bool {
    match parse_unsigned(query, usize::MAX as nat) {
        Some(n) => s.id == n,
        None => name_matches(s, query),
    }
}

/// The first source that `query` asks for.
pub fn resolve_audio_source<'a>(sources: &'a [AudioSource], query: &str) -> (r: Result<
    &'a AudioSource,
    SourceError,
>)
    ensures
        r matches Ok(s) ==> exists|i: int|
            0 <= i < sources@.len() && *s == sources@[i] && query_matches(sources@[i]@, query@)
                && forall|j: int| 0 <= j < i ==> !query_matches(#[trigger] sources@[j]@, query@),
        r is Err ==> forall|i: int|
            0 <= i < sources@.len() ==> !query_matches(#[trigger] sources@[i]@, query@),
        r matches Err(e) ==> match parse_unsigned(query@, usize::MAX as nat) {
            Some(n) => e matches SourceError::IdNotFound(m) && m == n,
            None => e matches SourceError::NameNotFound(q) && q@ == query@,
        },
{
    let q = chars_of(query);
    let parsed = parse_unsigned_chars(q.as_slice(), usize::MAX as u64);
    match parsed {
        Some(v) => {
            let index = v as usize;
            let mut i: usize = 0;
            while i < sources.len()
                invariant
                    i <= sources@.len(),
                    index as nat == v as nat,
                    parse_unsigned(query@, usize::MAX as nat) == Some(v as nat),
                    forall|j: int| 0 <= j < i ==> !query_matches(#[trigger] sources@[j]@, query@),
                decreases sources.len() - i,
            {
                if sources[i].id == index {
                    return Ok(&sources[i]);
                }
                i += 1;
            }
            Err(SourceError::IdNotFound(index))
        },
        None => {
            let query_lower = chars_of(to_lowercase(query).as_str());
            let mut i: usize = 0;
            while i < sources.len()
                invariant
                    i <= sources@.len(),
                    q@ == query@,
                    query_lower@ == lowercase(query@),
                    parse_unsigned(query@, usize::MAX as nat) is None,
                    forall|j: int| 0 <= j < i ==> !query_matches(#[trigger] sources@[j]@, query@),
                decreases sources.len() - i,
            {
                let s = &sources[i];
                let stream = chars_of(s.stream.as_str());
                let name = to_lowercase(s.display_name().as_str());
                let name_chars = chars_of(name.as_str());
                let spec_lower = to_lowercase(s.capture_spec.as_str());
                let spec_chars = chars_of(spec_lower.as_str());
                if chars_eq_ignore_ascii_case(stream.as_slice(), q.as_slice()) || contains_chars(
                    name_chars.as_slice(),
                    query_lower.as_slice(),
                ) || contains_chars(spec_chars.as_slice(), query_lower.as_slice()) {
                    return Ok(s);
                }
                i += 1;
            }
            Err(SourceError::NameNotFound(query.to_string()))
        },
    }
}

// ---------------------------------------------------------------------------
// Listings
// ---------------------------------------------------------------------------
/// `s` followed by spaces up to `width` characters (`format!("{:<width$}")`).
pub open spec fn pad_right(s: Seq<char>, width: nat) -> Seq<char> {
    if s.len() >= width {
        s
    } else {
        s + Seq::new((width - s.len()) as nat, |i: int| ' ')
    }
}

fn push_padded(out: &mut Vec<char>, s: &[char], width: usize)
    ensures
        final(out)@ == old(out)@ + pad_right(s@, width as nat),
{
    extend_chars(out, s);
    if s.len() >= width {
        return;
    }
    let mut k = s.len();
    assert(Seq::new(0, |i: int| ' ') =~= Seq::<char>::empty());
    assert(out@ =~= old(out)@ + s@ + Seq::new(0, |i: int| ' '));
    while k < width
        invariant
            s@.len() <= k <= width,
            out@ == old(out)@ + s@ + Seq::new((k - s@.len()) as nat, |i: int| ' '),
        decreases width - k,
    {
        out.push(' ');
        k += 1;
        assert(Seq::new((k - s@.len()) as nat, |i: int| ' ') =~= Seq::new(
            (k - 1 - s@.len()) as nat,
            |i: int| ' ',
        ).push(' '));
    }
    assert(out@ =~= old(out)@ + pad_right(s@, width as nat));
}

pub open spec fn rule_line(n: nat) -> Seq<char> {
    Seq::new(n, |i: int| '─')
}

/// One row of the sources table.
pub open spec fn table_row(s: SourceView) -> Seq<char> {
    pad_right(dec(s.id), 4) + seq![' '] + pad_right(s.application, 16) + seq![' '] + s.stream
        + seq!['\n']
}

pub open spec fn table_rows(sources: Seq<SourceView>) -> Seq<char>
    decreases sources.len(),
{
    if sources.len() == 0 {
        Seq::empty()
    } else {
        table_rows(sources.drop_last()) + table_row(sources.last())
    }
}

/// The table of sources that `lecture devices` prints.
pub open spec fn sources_table_text(sources: Seq<SourceView>) -> Seq<char> {
    "Available audio sources\n\n"@ + pad_right("ID"@, 4) + seq![' '] + pad_right(
        "APPLICATION"@,
        16,
    ) + " STREAM\n"@ + rule_line(56) + seq!['\n'] + table_rows(sources)
}

pub fn sources_table(sources: &[AudioSource]) -> (r: String)
    ensures
        r@ == sources_table_text(sources@.map_values(|s: AudioSource| s@)),
{
    let mut out = chars_of("Available audio sources\n\n");
    let id = chars_of("ID");
    push_padded(&mut out, id.as_slice(), 4);
    out.push(' ');
    let app = chars_of("APPLICATION");
    push_padded(&mut out, app.as_slice(), 16);
    extend_str(&mut out, " STREAM\n");
    let mut k: usize = 0;
    while k < 56
        invariant
            k <= 56,
            out@ == "Available audio sources\n\n"@ + pad_right("ID"@, 4) + seq![' '] + pad_right(
                "APPLICATION"@,
                16,
            ) + " STREAM\n"@ + rule_line(k as nat),
        decreases 56 - k,
    {
        out.push('─');
        k += 1;
        assert(rule_line(k as nat) =~= rule_line((k - 1) as nat).push('─'));
    }
    out.push('\n');
    let ghost head = out@;
    let ghost views = sources@.map_values(|s: AudioSource| s@);
    let mut i: usize = 0;
    while i < sources.len()
        invariant
            i <= sources@.len(),
            views == sources@.map_values(|s: AudioSource| s@),
            out@ == head + table_rows(views.take(i as int)),
        decreases sources.len() - i,
    {
        let s = &sources[i];
        let mut idc: Vec<char> = Vec::new();
        push_dec(&mut idc, s.id as u64);
        push_padded(&mut out, idc.as_slice(), 4);
        out.push(' ');
        let appc = chars_of(s.application.as_str());
        push_padded(&mut out, appc.as_slice(), 16);
        out.push(' ');
        extend_str(&mut out, s.stream.as_str());
        out.push('\n');
        proof {
            assert(views.take(i + 1).drop_last() =~= views.take(i as int));
            assert(views.take(i + 1).last() == s@);
            assert(idc@ =~= dec(s.id as nat));
        }
        i += 1;
    }
    assert(views.take(sources.len() as int) =~= views);
    string_of(out.as_slice())
}

/// The ffmpeg arguments that capture `source` as raw 16-bit little-endian
/// PCM on standard output.
pub open spec fn capture_args(
    source: SourceView,
    sample_rate: u32,
    channels: u16,
    windows: bool,
) -> Seq<Seq<char>> {
    let input = if windows {
        seq!["-f"@, "wasapi"@, "-loopback"@, "1"@, "-i"@, source.capture_spec]
    } else {
        seq!["-f"@, "pulse"@, "-i"@, source.capture_spec]
    };
    seq!["-hide_banner"@, "-loglevel"@, "error"@, "-nostdin"@] + input + seq![
        "-ac"@,
        dec(channels as nat),
        "-ar"@,
        dec(sample_rate as nat),
        "-f"@,
        "s16le"@,
        "pipe:1"@,
    ]
}

fn push_arg(args: &mut Vec<String>, a: &str)
    ensures
        final(args)@.map_values(|s: String| s@) == old(args)@.map_values(|s: String| s@).push(a@),
{
    let ghost before = args@;
    args.push(a.to_string());
    assert(args@.map_values(|s: String| s@) =~= before.map_values(|s: String| s@).push(a@));
}

fn push_arg_string(args: &mut Vec<String>, a: String)
    ensures
        final(args)@.map_values(|s: String| s@) == old(args)@.map_values(|s: String| s@).push(a@),
{
    let ghost before = args@;
    let ghost av = a@;
    args.push(a);
    assert(args@.map_values(|s: String| s@) =~= before.map_values(|s: String| s@).push(av));
}

pub fn ffmpeg_capture_args(
    source: &AudioSource,
    sample_rate: u32,
    channels: u16,
    windows: bool,
) -> (r: Vec<String>)
    ensures
        r@.map_values(|s: String| s@) == capture_args(source@, sample_rate, channels, windows),
{
    let mut args: Vec<String> = Vec::new();
    push_arg(&mut args, "-hide_banner");
    push_arg(&mut args, "-loglevel");
    push_arg(&mut args, "error");
    push_arg(&mut args, "-nostdin");
    if windows {
        push_arg(&mut args, "-f");
        push_arg(&mut args, "wasapi");
        push_arg(&mut args, "-loopback");
        push_arg(&mut args, "1");
        push_arg(&mut args, "-i");
        push_arg(&mut args, source.capture_spec.as_str());
    } else {
        push_arg(&mut args, "-f");
        push_arg(&mut args, "pulse");
        push_arg(&mut args, "-i");
        push_arg(&mut args, source.capture_spec.as_str());
    }
    push_arg(&mut args, "-ac");
    let mut ch: Vec<char> = Vec::new();
    push_dec(&mut ch, channels as u64);
    push_arg_string(&mut args, string_of(ch.as_slice()));
    push_arg(&mut args, "-ar");
    let mut sr: Vec<char> = Vec::new();
    push_dec(&mut sr, sample_rate as u64);
    push_arg_string(&mut args, string_of(sr.as_slice()));
    push_arg(&mut args, "-f");
    push_arg(&mut args, "s16le");
    push_arg(&mut args, "pipe:1");
    assert(ch@ =~= dec(channels as nat));
    assert(sr@ =~= dec(sample_rate as nat));
    assert(args@.map_values(|s: String| s@) =~= capture_args(
        source@,
        sample_rate,
        channels,
        windows,
    ));
    args
}

// ---------------------------------------------------------------------------
// Reading the platform listings
// ---------------------------------------------------------------------------
/// The source name on one line of `pactl list short sources`: the second
/// tab-separated column of a non-blank line, trimmed.
pub open spec fn pactl_name(line: Seq<char>) -> Option<Seq<char>> {
    let t = trim(line);
    if t.len() == 0 {
        None
    } else {
        let cols = split(t, '\t');
        if cols.len() < 2 {
            None
        } else {
            Some(trim(cols[1]))
        }
    }
}

/// The source that `pactl` lists under `name`; monitors of outputs are told
/// apart from inputs by `.monitor` in the name.
pub open spec fn pactl_source(name: Seq<char>) -> SourceView {
    SourceView {
        id: 0,
        application: if contains(name, ".monitor"@) {
            "PipeWire monitor"@
        } else {
            "PipeWire source"@
        },
        stream: name,
        capture_spec: name,
        backend: "pulse"@,
    }
}

pub open spec fn pactl_names(text: Seq<char>) -> Seq<Seq<char>> {
    lines(text).filter_map(|l: Seq<char>| pactl_name(l))
}

/// The sources in the output of `pactl list short sources`.
pub fn parse_pactl_sources(stdout: &[u8]) -> (r: Result<Vec<AudioSource>, SourceError>)
    ensures
        r matches Ok(v) && v@.len() == pactl_names(utf8_lossy(stdout@)).len() && forall|i: int|
            0 <= i < v@.len() ==> (#[trigger] v@[i])@ == pactl_source(
                pactl_names(utf8_lossy(stdout@))[i],
            ),
{
    let text = decode_lossy(stdout);
    let tc = chars_of(text.as_str());
    let ls = split_lines(tc.as_slice());
    let ghost lv = ls@.map_values(|l: Vec<char>| l@);
    assert(lv =~= lines(tc@));
    let ghost f = |l: Seq<char>| pactl_name(l);
    let monitor = chars_of(".monitor");
    let mut sources: Vec<AudioSource> = Vec::new();
    let mut i: usize = 0;
    while i < ls.len()
        invariant
            i <= ls@.len(),
            lv == ls@.map_values(|l: Vec<char>| l@),
            f == (|l: Seq<char>| pactl_name(l)),
            monitor@ == ".monitor"@,
            sources@.len() == lv.take(i as int).filter_map(f).len(),
            forall|k: int|
                0 <= k < sources@.len() ==> (#[trigger] sources@[k])@ == pactl_source(
                    lv.take(i as int).filter_map(f)[k],
                ),
        decreases ls.len() - i,
    {
        proof {
            lv.lemma_filter_map_take_succ(f, i as int);
        }
        let trimmed = trim_chars(ls[i].as_slice());
        if trimmed.len() > 0 {
            let cols = split_on(trimmed.as_slice(), '\t');
            if cols.len() >= 2 {
                let name = trim_chars(cols[1].as_slice());
                let application = if contains_chars(name.as_slice(), monitor.as_slice()) {
                    "PipeWire monitor".to_string()
                } else {
                    "PipeWire source".to_string()
                };
                let ghost before = sources@;
                sources.push(
                    AudioSource {
                        id: 0,
                        application,
                        stream: string_of(name.as_slice()),
                        capture_spec: string_of(name.as_slice()),
                        backend: "pulse".to_string(),
                    },
                );
                proof {
                    assert(f(lv[i as int]) == Some(name@));
                    assert forall|k: int| 0 <= k < sources@.len() implies (
                    #[trigger] sources@[k])@ == pactl_source(lv.take(i + 1).filter_map(f)[k]) by {
                        if k < before.len() {
                            assert(sources@[k] == before[k]);
                        }
                    }
                }
            } else {
                assert(f(lv[i as int]) is None);
            }
        } else {
            assert(f(lv[i as int]) is None);
        }
        i += 1;
    }
    assert(lv.take(ls.len() as int) =~= lv);
    Ok(sources)
}

/// The position of the first `c` in `s`.
pub open spec fn find_char(s: Seq<char>, c: char) -> Option<int>
    decreases s.len(),
{
    if s.len() == 0 {
        None
    } else if s[0] == c {
        Some(0)
    } else {
        match find_char(s.drop_first(), c) {
            Some(i) => Some(i + 1),
            None => None,
        }
    }
}

proof fn lemma_find_char(s: Seq<char>, c: char, i: int)
    requires
        0 <= i <= s.len(),
        forall|j: int| 0 <= j < i ==> s[j] != c,
    ensures
        i < s.len() && s[i] == c ==> find_char(s, c) == Some(i),
        i == s.len() ==> find_char(s, c) is None,
    decreases i,
{
    if i > 0 {
        assert(s[0] != c);
        assert forall|j: int| 0 <= j < i - 1 implies s.drop_first()[j] != c by {
            assert(s.drop_first()[j] == s[j + 1]);
        }
        lemma_find_char(s.drop_first(), c, i - 1);
        if i < s.len() {
            assert(s.drop_first()[i - 1] == s[i]);
        }
    }
}

fn find_char_from(v: &[char], from: usize, c: char) -> (r: Option<usize>)
    requires
        from <= v.len(),
    ensures
        r matches Some(k) ==> find_char(v@.skip(from as int), c) == Some(k - from),
        r is None ==> find_char(v@.skip(from as int), c) is None,
        r matches Some(k) ==> from <= k < v@.len(),
{
    let ghost t = v@.skip(from as int);
    let mut i: usize = from;
    while i < v.len()
        invariant
            from <= i <= v.len(),
            t == v@.skip(from as int),
            forall|j: int| 0 <= j < i - from ==> t[j] != c,
        decreases v.len() - i,
    {
        if v[i] == c {
            proof {
                lemma_find_char(t, c, (i - from) as int);
            }
            return Some(i);
        }
        i += 1;
    }
    proof {
        lemma_find_char(t, c, (i - from) as int);
    }
    None
}

/// The device name on one line of ffmpeg's WASAPI listing: the trimmed text
/// between the first two double quotes, unless it is empty or `default`.
pub open spec fn wasapi_name(line: Seq<char>) -> Option<Seq<char>> {
    match find_char(line, '"') {
        None => None,
        Some(a) => {
            let after = line.skip(a + 1);
            match find_char(after, '"') {
                None => None,
                Some(b) => {
                    let name = trim(after.take(b));
                    if name.len() == 0 || eq_ignore_ascii_case(name, "default"@) {
                        None
                    } else {
                        Some(name)
                    }
                },
            }
        },
    }
}

pub open spec fn wasapi_source(name: Seq<char>) -> SourceView {
    SourceView {
        id: 0,
        application: "WASAPI loopback"@,
        stream: name,
        capture_spec: name,
        backend: "wasapi"@,
    }
}

/// The text ffmpeg printed: standard output, a newline, standard error.
pub open spec fn wasapi_text(stdout: Seq<u8>, stderr: Seq<u8>) -> Seq<char> {
    utf8_lossy(stdout) + seq!['\n'] + utf8_lossy(stderr)
}

pub open spec fn wasapi_names(text: Seq<char>) -> Seq<Seq<char>> {
    lines(text).filter_map(|l: Seq<char>| wasapi_name(l))
}

/// The devices in ffmpeg's WASAPI listing; a failed ffmpeg run that listed
/// nothing is an error carrying its output.
pub fn parse_wasapi_listing(stdout: &[u8], stderr: &[u8], success: bool) -> (r: Result<
    Vec<AudioSource>,
    SourceError,
>)
    ensures
        ({
            let names = wasapi_names(wasapi_text(stdout@, stderr@));
            &&& r is Err <==> (!success && names.len() == 0)
            &&& r matches Err(e) ==> e matches SourceError::WasapiListFailed(t) && t@ == wasapi_text(
                stdout@,
                stderr@,
            )
            &&& r matches Ok(v) ==> v@.len() == names.len() && forall|i: int|
                0 <= i < v@.len() ==> (#[trigger] v@[i])@ == wasapi_source(names[i])
        }),
{
    let out_text = decode_lossy(stdout);
    let err_text = decode_lossy(stderr);
    let mut tc = chars_of(out_text.as_str());
    tc.push('\n');
    extend_str(&mut tc, err_text.as_str());
    let ls = split_lines(tc.as_slice());
    let ghost lv = ls@.map_values(|l: Vec<char>| l@);
    assert(lv =~= lines(tc@));
    let ghost f = |l: Seq<char>| wasapi_name(l);
    let dflt = chars_of("default");
    let mut sources: Vec<AudioSource> = Vec::new();
    let mut i: usize = 0;
    while i < ls.len()
        invariant
            i <= ls@.len(),
            lv == ls@.map_values(|l: Vec<char>| l@),
            f == (|l: Seq<char>| wasapi_name(l)),
            dflt@ == "default"@,
            sources@.len() == lv.take(i as int).filter_map(f).len(),
            forall|k: int|
                0 <= k < sources@.len() ==> (#[trigger] sources@[k])@ == wasapi_source(
                    lv.take(i as int).filter_map(f)[k],
                ),
        decreases ls.len() - i,
    {
        proof {
            lv.lemma_filter_map_take_succ(f, i as int);
        }
        let line = &ls[i];
        let ghost lc = lv[i as int];
        assert(line@ == lc);
        assert(line@.skip(0) =~= lc);
        match find_char_from(line.as_slice(), 0, '"') {
            None => {
                assert(f(lc) is None);
            },
            Some(start) => {
                assert(find_char(lc, '"') == Some(start as int));
                assert(lc.skip(start + 1) =~= line@.skip((start + 1) as int));
                assert(f(lc) == wasapi_name(lc));
                match find_char_from(line.as_slice(), start + 1, '"') {
                    None => {
                        assert(find_char(lc.skip(start + 1), '"') is None);
                        assert(f(lc) is None);
                    },
                    Some(end) => {
                        assert(find_char(lc.skip(start + 1), '"') == Some(end - (start + 1)));
                        let raw = sub_chars(line.as_slice(), start + 1, end);
                        assert(raw@ =~= lc.skip(start + 1).take(end - (start + 1)));
                        let name = trim_chars(raw.as_slice());
                        if name.len() == 0 || chars_eq_ignore_ascii_case(
                            name.as_slice(),
                            dflt.as_slice(),
                        ) {
                            assert(f(lc) is None);
                        } else {
                            let ghost before = sources@;
                            sources.push(
                                AudioSource {
                                    id: 0,
                                    application: "WASAPI loopback".to_string(),
                                    stream: string_of(name.as_slice()),
                                    capture_spec: string_of(name.as_slice()),
                                    backend: "wasapi".to_string(),
                                },
                            );
                            proof {
                                assert(f(lc) == Some(name@));
                                assert forall|k: int| 0 <= k < sources@.len() implies (
                                #[trigger] sources@[k])@ == wasapi_source(
                                    lv.take(i + 1).filter_map(f)[k],
                                ) by {
                                    if k < before.len() {
                                        assert(sources@[k] == before[k]);
                                    }
                                }
                            }
                        }
                    },
                }
            },
        }
        i += 1;
    }
    assert(lv.take(ls.len() as int) =~= lv);
    assert(tc@ =~= wasapi_text(stdout@, stderr@));
    if !success && sources.len() == 0 {
        return Err(SourceError::WasapiListFailed(string_of(tc.as_slice())));
    }
    Ok(sources)
}

} // verus!
