# lecture

A local-first command-line tool that captures class audio, cuts it into
speech segments, transcribes them with whisper.cpp and keeps a Markdown
transcript and a JSON metadata record of each session.

## Layout

- `src/` is the library, written in Verus and verified.  Each public
  function states what it returns in `requires`/`ensures`, over spec
  functions and views:
  - `vad.rs`: the speech detector, as a step model (`push_step`,
    `flush_step`) that the executable detector follows exactly.
  - `app.rs`: cutting the captured byte stream into frames (`CaptureFeed`),
    the bounded hand-off queue (`SegmentQueue`, with `queue_step`), the step
    function of the transcription side (`worker_step`) and the console texts.
  - `platform.rs`: reading the `pactl` and WASAPI listings, numbering and
    choosing audio sources, the ffmpeg capture arguments.
  - `cli.rs`: the command line, and where the model and Whisper binary are
    looked for.
  - `session.rs`, `transcribe.rs`, `wav.rs`, `util.rs`, `text.rs`: the
    transcript and metadata texts, the Whisper arguments, WAV encoding,
    slugs, clock texts, the session's date, time and RFC 3339 stamp (from a
    `LocalStamp` of plain fields) and the text model beneath them.
- Properties that relate several calls are public proof functions, for
  example `lemma_feed_chunking` and `lemma_segments_are_captured_audio`
  (app.rs), `lemma_closed_queue_drains`, `lemma_slug_idempotent` (util.rs),
  `lemma_flush_closes` (vad.rs), `lemma_finish_reports_word_sum` (session.rs) and
  `lemma_start_defaults` (cli.rs).
- `app/` is ordinary Rust around the library: `main`, child processes
  (ffmpeg, pactl, whisper.cpp), files, threads, the Ctrl+C handler, reading the
  local clock (chrono, converted to a `LocalStamp`) and the JSON record (serde).  It hands the library plain
  values and carries out what the library decides.
- `tests/` runs the library on concrete inputs.
