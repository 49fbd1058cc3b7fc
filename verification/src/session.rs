//! The files of a session: the Markdown transcript (header, one block per
//! transcribed segment, summary) and the metadata record.
use vstd::prelude::*;

use crate::platform::{display_name_of, AudioSource};
use crate::text::{chars_of, dec, extend_chars, extend_str, push_dec, split_words, string_of, trim, trim_chars, words};
use crate::util::{clock, format_duration, slug, slugify};

verus! {

broadcast use vstd::string::group_string_axioms;

#[derive(Clone, Debug)]
pub struct AudioSourceMetadata {
    pub application: String,
    pub name: String,
}

#[derive(Clone, Debug)]
pub struct SessionMetadata {
    pub version: u32,
    pub title: String,
    pub started_at: String,
    pub duration_seconds: u64,
    pub speech_seconds: u64,
    pub words: usize,
    pub language: String,
    pub model: String,
    pub threads: usize,
    pub quality: String,
    pub chunk_seconds: u64,
    pub record_audio: bool,
    pub backend: String,
    pub audio_source: AudioSourceMetadata,
    pub transcript_path: String,
    pub session_directory: String,
    pub dropped_segments: usize,
}

/// The title given on the command line, trimmed, unless it is blank; the
/// source's stream name otherwise.
pub open spec fn session_title(source_stream: Seq<char>, explicit: Option<Seq<char>>) -> Seq<char> {
    match explicit {
        Some(e) => if trim(e).len() > 0 {
            trim(e)
        } else {
            source_stream
        },
        None => source_stream,
    }
}

pub fn create_session_title(source: &AudioSource, explicit: Option<&str>) -> (r: String)
    ensures
        r@ == session_title(
            source.stream@,
            match explicit {
                Some(e) => Some(e@),
                None => None,
            },
        ),
{
    match explicit {
        Some(e) => {
            let t = trim_chars(chars_of(e).as_slice());
            if t.len() > 0 {
                return string_of(t.as_slice());
            }
            source.stream.clone()
        },
        None => source.stream.clone(),
    }
}

/// The backend label of the metadata: the platform, with `+record` when the
/// audio is kept.
pub fn metadata_backend_name(platform: &str, record_audio: bool) -> (r: String)
    ensures
        r@ == platform@ + (if record_audio {
            "+record"@
        } else {
            Seq::<char>::empty()
        }),
{
    let mut out = chars_of(platform);
    if record_audio {
        extend_str(&mut out, "+record");
    }
    assert(record_audio || out@ =~= platform@ + Seq::<char>::empty());
    string_of(out.as_slice())
}

/// The name of a session's directory: its date, a dash, and the slug of its title.
pub open spec fn session_dir_name_text(date: Seq<char>, title: Seq<char>) -> Seq<char> {
    date + seq!['-'] + slug(title)
}

pub fn session_dir_name(date: &str, title: &str) -> (r: String)
    ensures
        r@ == session_dir_name_text(date@, title@),
{
    let mut out = chars_of(date);
    out.push('-');
    let s = slugify(title);
    extend_str(&mut out, s.as_str());
    string_of(out.as_slice())
}

pub open spec fn on_off(b: bool) -> Seq<char> {
    if b {
        "enabled"@
    } else {
        "disabled"@
    }
}

/// The opening lines of a transcript.
pub open spec fn header_text(
    title: Seq<char>,
    date: Seq<char>,
    time: Seq<char>,
    language: Seq<char>,
    model: Seq<char>,
    threads: nat,
    quality: Seq<char>,
    source_name: Seq<char>,
    record_audio: bool,
) -> Seq<char> {
    "# "@ + title + "\n\nDate: "@ + date + "\nStart: "@ + time + "\nLanguage: "@ + language
        + "\nModel: "@ + model + "\nThreads: "@ + dec(threads) + "\nQuality: "@ + quality
        + "\nSource: "@ + source_name + "\nRecording: "@ + on_off(record_audio)
        + "\n\n---\n\n"@
}

pub fn transcript_header(
    title: &str,
    date: &str,
    time: &str,
    language: &str,
    model: &str,
    threads: usize,
    quality: &str,
    source: &AudioSource,
    record_audio: bool,
) -> (r: String)
    ensures
        r@ == header_text(
            title@,
            date@,
            time@,
            language@,
            model@,
            threads as nat,
            quality@,
            display_name_of(source@),
            record_audio,
        ),
{
    let mut out = chars_of("# ");
    extend_str(&mut out, title);
    extend_str(&mut out, "\n\nDate: ");
    extend_str(&mut out, date);
    extend_str(&mut out, "\nStart: ");
    extend_str(&mut out, time);
    extend_str(&mut out, "\nLanguage: ");
    extend_str(&mut out, language);
    extend_str(&mut out, "\nModel: ");
    extend_str(&mut out, model);
    extend_str(&mut out, "\nThreads: ");
    push_dec(&mut out, threads as u64);
    extend_str(&mut out, "\nQuality: ");
    extend_str(&mut out, quality);
    extend_str(&mut out, "\nSource: ");
    let name = source.display_name();
    extend_str(&mut out, name.as_str());
    extend_str(&mut out, "\nRecording: ");
    if record_audio {
        extend_str(&mut out, "enabled");
    } else {
        extend_str(&mut out, "disabled");
    }
    extend_str(&mut out, "\n\n---\n\n");
    assert(out@ =~= header_text(
        title@,
        date@,
        time@,
        language@,
        model@,
        threads as nat,
        quality@,
        display_name_of(source@),
        record_audio,
    ));
    string_of(out.as_slice())
}

/// The transcript block of one segment: its start time as a heading, then the
/// trimmed text.
pub open spec fn segment_block(start_ms: u64, text: Seq<char>) -> Seq<char> {
    "## "@ + clock((start_ms / 1000) as nat) + "\n\n"@ + trim(text) + "\n\n"@
}

/// The closing lines of a transcript.
pub open spec fn summary_text(
    duration_seconds: u64,
    speech_seconds: u64,
    words: nat,
    dropped_segments: nat,
    transcript_path: Seq<char>,
    session_path: Seq<char>,
) -> Seq<char> {
    "---\n\n## Session Summary\n\nDuration: "@ + clock(duration_seconds as nat) + "\nSpeech: "@
        + clock(speech_seconds as nat) + "\nWords: "@ + dec(words) + "\nDropped segments: "@
        + dec(dropped_segments) + "\nSaved:\n"@ + transcript_path + "\n"@ + session_path + "\n"@
}

/// A log after the text of a segment is recorded.
pub open spec fn append_log(log: SessionLog, text: Seq<char>) -> SessionLog {
    SessionLog { words: (log.words + segment_words(text)) as usize, ..log }
}

/// A log after the texts are recorded one after the other.
pub open spec fn log_after(log: SessionLog, texts: Seq<Seq<char>>) -> SessionLog
    decreases texts.len(),
{
    if texts.len() == 0 {
        log
    } else {
        log_after(append_log(log, texts[0]), texts.drop_first())
    }
}

/// The metadata record of a closed session.
pub open spec fn session_metadata(
    log: SessionLog,
    duration_seconds: u64,
    speech_seconds: u64,
    dropped_segments: usize,
) -> SessionMetadata {
    SessionMetadata {
        version: 1,
        title: log.title,
        started_at: log.started_at,
        duration_seconds,
        speech_seconds,
        words: log.words,
        language: log.language,
        model: log.model,
        threads: log.threads,
        quality: log.quality,
        chunk_seconds: log.chunk_seconds,
        record_audio: log.record_audio,
        backend: log.backend,
        audio_source: log.source,
        transcript_path: log.transcript_path,
        session_directory: log.session_dir,
        dropped_segments,
    }
}

/// Everything a session's files record besides the transcript text itself.
pub struct SessionLog {
    pub title: String,
    pub started_at: String,
    pub language: String,
    pub model: String,
    pub threads: usize,
    pub quality: String,
    pub chunk_seconds: u64,
    pub record_audio: bool,
    pub backend: String,
    pub source: AudioSourceMetadata,
    pub transcript_path: String,
    pub session_path: String,
    pub session_dir: String,
    /// Words written to the transcript so far.
    pub words: usize,
}

pub open spec fn count_words(text: Seq<char>) -> nat {
    words(text).len()
}

/// The words a segment adds to the session: none for blank text, its words
/// otherwise.
pub open spec fn segment_words(text: Seq<char>) -> nat {
    if trim(text).len() == 0 {
        0
    } else {
        count_words(text)
    }
}

/// The word count after the texts are appended one after the other, from `start`.
pub open spec fn appended_words(start: nat, texts: Seq<Seq<char>>) -> nat
    decreases texts.len(),
{
    if texts.len() == 0 {
        start
    } else {
        appended_words(start + segment_words(texts[0]), texts.drop_first())
    }
}

/// The sum of the counts that appending the texts returns.
pub open spec fn word_sum(texts: Seq<Seq<char>>) -> nat
    decreases texts.len(),
{
    if texts.len() == 0 {
        0
    } else {
        word_sum(texts.drop_last()) + segment_words(texts.last())
    }
}

impl SessionLog {
    /// A fresh log: the settings as given, no words yet.
    pub fn new(
        title: String,
        started_at: String,
        language: String,
        model: String,
        threads: usize,
        quality: String,
        chunk_seconds: u64,
        record_audio: bool,
        backend: String,
        source: AudioSourceMetadata,
        transcript_path: String,
        session_path: String,
        session_dir: String,
    ) -> (r: Self)
        ensures
            r == (SessionLog {
                title,
                started_at,
                language,
                model,
                threads,
                quality,
                chunk_seconds,
                record_audio,
                backend,
                source,
                transcript_path,
                session_path,
                session_dir,
                words: 0,
            }),
    {
        SessionLog {
            title,
            started_at,
            language,
            model,
            threads,
            quality,
            chunk_seconds,
            record_audio,
            backend,
            source,
            transcript_path,
            session_path,
            session_dir,
            words: 0,
        }
    }

    /// Records a transcribed segment.  Blank text is skipped (`None`, no
    /// words); otherwise the word count grows by the words of the text and the
    /// transcript block to write is returned with that count.
    pub fn append_segment(&mut self, start_ms: u64, text: &str) -> (r: (usize, Option<String>))
        requires
            old(self).words + text@.len() <= usize::MAX,
        ensures
            r.0 as nat == segment_words(text@),
            final(self).words == old(self).words + r.0,
            *final(self) == append_log(*old(self), text@),
            trim(text@).len() == 0 ==> r.0 == 0 && r.1 is None && *final(self) == *old(self),
            trim(text@).len() > 0 ==> ({
                &&& r.0 as nat == count_words(text@)
                &&& r.1 matches Some(b) && b@ == segment_block(start_ms, text@)
                &&& final(self).words == old(self).words + count_words(text@)
                &&& *final(self) == (SessionLog { words: final(self).words, ..*old(self) })
            }),
    {
        let cs = chars_of(text);
        let t = trim_chars(cs.as_slice());
        if t.len() == 0 {
            return (0, None);
        }
        let ws = split_words(cs.as_slice());
        proof {
            crate::text::lemma_words_shape(cs@);
            crate::text::lemma_words_len(cs@);
        }
        let count = ws.len();
        self.words = self.words + count;
        let mut out = chars_of("## ");
        let clock_text = format_duration(start_ms / 1000);
        extend_str(&mut out, clock_text.as_str());
        extend_str(&mut out, "\n\n");
        extend_chars(&mut out, t.as_slice());
        extend_str(&mut out, "\n\n");
        assert(out@ =~= segment_block(start_ms, text@));
        (count, Some(string_of(out.as_slice())))
    }

    /// Closes the session: the summary lines to append to the transcript and
    /// the metadata record.
    pub fn finish(self, duration_seconds: u64, speech_seconds: u64, dropped_segments: usize) -> (r: (
        String,
        SessionMetadata,
    ))
        ensures
            r.0@ == summary_text(
                duration_seconds,
                speech_seconds,
                self.words as nat,
                dropped_segments as nat,
                self.transcript_path@,
                self.session_path@,
            ),
            r.1 == session_metadata(self, duration_seconds, speech_seconds, dropped_segments),
            r.1.version == 1,
            r.1.title == self.title,
            r.1.started_at == self.started_at,
            r.1.duration_seconds == duration_seconds,
            r.1.speech_seconds == speech_seconds,
            r.1.words == self.words,
            r.1.language == self.language,
            r.1.model == self.model,
            r.1.threads == self.threads,
            r.1.quality == self.quality,
            r.1.chunk_seconds == self.chunk_seconds,
            r.1.record_audio == self.record_audio,
            r.1.backend == self.backend,
            r.1.audio_source == self.source,
            r.1.transcript_path == self.transcript_path,
            r.1.session_directory == self.session_dir,
            r.1.dropped_segments == dropped_segments,
    {
        let mut out = chars_of("---\n\n## Session Summary\n\nDuration: ");
        let d = format_duration(duration_seconds);
        extend_str(&mut out, d.as_str());
        extend_str(&mut out, "\nSpeech: ");
        let sp = format_duration(speech_seconds);
        extend_str(&mut out, sp.as_str());
        extend_str(&mut out, "\nWords: ");
        push_dec(&mut out, self.words as u64);
        extend_str(&mut out, "\nDropped segments: ");
        push_dec(&mut out, dropped_segments as u64);
        extend_str(&mut out, "\nSaved:\n");
        extend_str(&mut out, self.transcript_path.as_str());
        extend_str(&mut out, "\n");
        extend_str(&mut out, self.session_path.as_str());
        extend_str(&mut out, "\n");
        assert(out@ =~= summary_text(
            duration_seconds,
            speech_seconds,
            self.words as nat,
            dropped_segments as nat,
            self.transcript_path@,
            self.session_path@,
        ));
        let summary = string_of(out.as_slice());
        let metadata = SessionMetadata {
            version: 1,
            title: self.title,
            started_at: self.started_at,
            duration_seconds,
            speech_seconds,
            words: self.words,
            language: self.language,
            model: self.model,
            threads: self.threads,
            quality: self.quality,
            chunk_seconds: self.chunk_seconds,
            record_audio: self.record_audio,
            backend: self.backend,
            audio_source: self.source,
            transcript_path: self.transcript_path,
            session_directory: self.session_dir,
            dropped_segments,
        };
        (summary, metadata)
    }
}

proof fn lemma_word_sum_first(texts: Seq<Seq<char>>)
    requires
        texts.len() > 0,
    ensures
        word_sum(texts) == segment_words(texts[0]) + word_sum(texts.drop_first()),
    decreases texts.len(),
{
    if texts.len() > 1 {
        let d = texts.drop_last();
        lemma_word_sum_first(d);
        let f = texts.drop_first();
        assert(d.drop_first() =~= f.drop_last());
        assert(f.last() == texts.last());
        assert(d[0] == texts[0]);
        assert(word_sum(f) == word_sum(f.drop_last()) + segment_words(f.last()));
        assert(word_sum(texts) == word_sum(d) + segment_words(texts.last()));
    } else {
        assert(texts.drop_last().len() == 0);
        assert(texts.drop_first().len() == 0);
        assert(word_sum(texts.drop_first()) == 0);
        assert(word_sum(texts.drop_last()) == 0);
        assert(texts.last() == texts[0]);
    }
}

/// Appending texts one after the other adds up their counts: a session that
/// starts with `start` words ends with `start` plus the sum of the counts
/// that each append returned.  A fresh log starts at zero, and `finish`
/// records the final count.
pub proof fn lemma_words_add_up(start: nat, texts: Seq<Seq<char>>)
    ensures
        appended_words(start, texts) == start + word_sum(texts),
    decreases texts.len(),
{
    if texts.len() > 0 {
        lemma_words_add_up(start + segment_words(texts[0]), texts.drop_first());
        lemma_word_sum_first(texts);
    }
}

proof fn lemma_log_after(log: SessionLog, texts: Seq<Seq<char>>)
    requires
        log.words + word_sum(texts) <= usize::MAX,
    ensures
        log_after(log, texts) == (SessionLog { words: (log.words + word_sum(texts)) as usize, ..log }),
    decreases texts.len(),
{
    if texts.len() > 0 {
        lemma_word_sum_first(texts);
        let next = append_log(log, texts[0]);
        lemma_log_after(next, texts.drop_first());
    }
}

/// A fresh log that records the texts one after the other and is then
/// closed reports, in its metadata, the sum of the word counts that the
/// appends returned, with every other field as the log was made and as
/// `finish` was called.
pub proof fn lemma_finish_reports_word_sum(
    fresh: SessionLog,
    texts: Seq<Seq<char>>,
    duration_seconds: u64,
    speech_seconds: u64,
    dropped_segments: usize,
)
    requires
        fresh.words == 0,
        word_sum(texts) <= usize::MAX,
    ensures
        session_metadata(log_after(fresh, texts), duration_seconds, speech_seconds, dropped_segments)
            == session_metadata(
            (SessionLog { words: word_sum(texts) as usize, ..fresh }),
            duration_seconds,
            speech_seconds,
            dropped_segments,
        ),
        session_metadata(
            log_after(fresh, texts),
            duration_seconds,
            speech_seconds,
            dropped_segments,
        ).words == word_sum(texts),
{
    lemma_log_after(fresh, texts);
}

/// The transcript header ends with its `Recording` line, `enabled` when the
/// audio is kept and `disabled` when it is not, then the rule that opens the
/// transcript; so the headers of a recorded and an unrecorded session differ.
pub proof fn lemma_header_recording_line(
    title: Seq<char>,
    date: Seq<char>,
    time: Seq<char>,
    language: Seq<char>,
    model: Seq<char>,
    threads: nat,
    quality: Seq<char>,
    source_name: Seq<char>,
)
    ensures
        ({
            let h = header_text(title, date, time, language, model, threads, quality, source_name, false);
            let tail = "\nRecording: disabled\n\n---\n\n"@;
            h.len() >= tail.len() && h.subrange(h.len() - tail.len(), h.len() as int) == tail
        }),
        ({
            let h = header_text(title, date, time, language, model, threads, quality, source_name, true);
            let tail = "\nRecording: enabled\n\n---\n\n"@;
            h.len() >= tail.len() && h.subrange(h.len() - tail.len(), h.len() as int) == tail
        }),
        header_text(title, date, time, language, model, threads, quality, source_name, false)
            != header_text(title, date, time, language, model, threads, quality, source_name, true),
{
    reveal_strlit("\nRecording: disabled\n\n---\n\n");
    reveal_strlit("\nRecording: enabled\n\n---\n\n");
    reveal_strlit("\nRecording: ");
    reveal_strlit("enabled");
    reveal_strlit("disabled");
    reveal_strlit("\n\n---\n\n");
    let a = "# "@ + title + "\n\nDate: "@ + date + "\nStart: "@ + time + "\nLanguage: "@ + language
        + "\nModel: "@ + model + "\nThreads: "@ + dec(threads) + "\nQuality: "@ + quality
        + "\nSource: "@ + source_name;
    let off = "\nRecording: disabled\n\n---\n\n"@;
    let on = "\nRecording: enabled\n\n---\n\n"@;
    assert(off =~= "\nRecording: "@ + "disabled"@ + "\n\n---\n\n"@);
    assert(on =~= "\nRecording: "@ + "enabled"@ + "\n\n---\n\n"@);
    let hf = header_text(title, date, time, language, model, threads, quality, source_name, false);
    let ht = header_text(title, date, time, language, model, threads, quality, source_name, true);
    assert(hf =~= a + off);
    assert(ht =~= a + on);
    assert(hf.subrange(hf.len() - off.len(), hf.len() as int) =~= off);
    assert(ht.subrange(ht.len() - on.len(), ht.len() as int) =~= on);
    assert(hf.len() != ht.len());
}

/// `finish` records every setting of the log as it is.
pub proof fn lemma_metadata_keeps_settings(
    log: SessionLog,
    duration_seconds: u64,
    speech_seconds: u64,
    dropped_segments: usize,
)
    ensures
        ({
            let m = session_metadata(log, duration_seconds, speech_seconds, dropped_segments);
            &&& m.title == log.title
            &&& m.started_at == log.started_at
            &&& m.language == log.language
            &&& m.model == log.model
            &&& m.threads == log.threads
            &&& m.quality == log.quality
            &&& m.chunk_seconds == log.chunk_seconds
            &&& m.record_audio == log.record_audio
            &&& m.backend == log.backend
            &&& m.audio_source == log.source
            &&& m.transcript_path == log.transcript_path
            &&& m.session_directory == log.session_dir
            &&& m.words == log.words
        }),
{
}

} // verus!
