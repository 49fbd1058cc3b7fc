//! Streaming voice activity detection over 16-bit little-endian PCM frames.
//!
//! Frames are classified as speech when their mean absolute amplitude reaches
//! a threshold.  A run of speech frames opens a segment (with a few frames of
//! pre-roll), a run of silence or a size limit closes it, and segments that
//! are too short are discarded.
use vstd::prelude::*;
use std::collections::VecDeque;

verus! {

#[derive(Clone, Copy, Debug)]
pub struct VadConfig {
    pub frame_ms: u32,
    pub start_ms: u32,
    pub stop_ms: u32,
    pub preroll_ms: u32,
    pub max_segment_ms: u32,
    pub min_segment_ms: u32,
    pub silence_threshold: i16,
}

pub open spec fn default_vad_config() -> VadConfig {
    VadConfig {
        frame_ms: 20,
        start_ms: 160,
        stop_ms: 700,
        preroll_ms: 200,
        max_segment_ms: 25_000,
        min_segment_ms: 500,
        silence_threshold: 500,
    }
}

impl Default for VadConfig {
    fn default() -> (r: Self)
        ensures
            r == default_vad_config(),
    {
        VadConfig {
            frame_ms: 20,
            start_ms: 160,
            stop_ms: 700,
            preroll_ms: 200,
            max_segment_ms: 25_000,
            min_segment_ms: 500,
            silence_threshold: 500,
        }
    }
}

#[derive(Clone, Debug)]
pub struct SpeechSegment {
    pub start_ms: u64,
    pub end_ms: u64,
    pub speech_ms: u64,
    pub pcm: Vec<u8>,
}

/// A speech segment as plain values.
pub struct SegmentView {
    pub start_ms: u64,
    pub end_ms: u64,
    pub speech_ms: u64,
    pub pcm: Seq<u8>,
}

impl View for SpeechSegment {
    type V = SegmentView;

    open spec fn view(&self) -> SegmentView {
        SegmentView {
            start_ms: self.start_ms,
            end_ms: self.end_ms,
            speech_ms: self.speech_ms,
            pcm: self.pcm@,
        }
    }
}

/// An optional segment as plain values.
pub open spec fn opt_view(o: Option<SpeechSegment>) -> Option<SegmentView> {
    match o {
        Some(s) => Some(s@),
        None => None,
    }
}

/// The state of a detector as plain values.
pub struct VadView {
    pub cfg: VadConfig,
    pub frame_bytes: nat,
    pub max_segment_bytes: nat,
    pub min_segment_bytes: nat,
    pub preroll_frames: nat,
    /// The most recent frames, oldest first, kept for pre-roll.
    pub ring: Seq<Seq<u8>>,
    pub active: bool,
    pub speech_run: u32,
    pub silence_run: u32,
    pub segment_start_ms: u64,
    pub current_pcm: Seq<u8>,
    pub current_speech_ms: u64,
}

pub struct StreamingVad {
    cfg: VadConfig,
    frame_bytes: usize,
    max_segment_bytes: usize,
    min_segment_bytes: usize,
    preroll_frames: usize,
    ring: VecDeque<Vec<u8>>,
    active: bool,
    speech_run_frames: u32,
    silence_run_frames: u32,
    segment_start_ms: u64,
    current_pcm: Vec<u8>,
    current_speech_ms: u64,
}

impl View for StreamingVad {
    type V = VadView;

    closed spec fn view(&self) -> VadView {
        VadView {
            cfg: self.cfg,
            frame_bytes: self.frame_bytes as nat,
            max_segment_bytes: self.max_segment_bytes as nat,
            min_segment_bytes: self.min_segment_bytes as nat,
            preroll_frames: self.preroll_frames as nat,
            ring: self.ring@.map_values(|f: Vec<u8>| f@),
            active: self.active,
            speech_run: self.speech_run_frames,
            silence_run: self.silence_run_frames,
            segment_start_ms: self.segment_start_ms,
            current_pcm: self.current_pcm@,
            current_speech_ms: self.current_speech_ms,
        }
    }
}

// ---------------------------------------------------------------------------
// The model
// ---------------------------------------------------------------------------
pub open spec fn sat_add_u32(a: u32, b: u32) -> u32 {
    if a + b > u32::MAX {
        u32::MAX
    } else {
        (a + b) as u32
    }
}

pub open spec fn sat_mul_u32(a: u32, b: u32) -> u32 {
    if a * b > u32::MAX {
        u32::MAX
    } else {
        (a * b) as u32
    }
}

pub open spec fn sat_add_u64(a: u64, b: u64) -> u64 {
    if a + b > u64::MAX {
        u64::MAX
    } else {
        (a + b) as u64
    }
}

pub open spec fn sat_sub_u64(a: u64, b: u64) -> u64 {
    if a < b {
        0
    } else {
        (a - b) as u64
    }
}

/// Sample `i` of a little-endian 16-bit PCM frame.
pub open spec fn sample(frame: Seq<u8>, i: int) -> int {
    let v = frame[2 * i] + 256 * frame[2 * i + 1];
    if v >= 32768 {
        v - 65536
    } else {
        v
    }
}

pub open spec fn abs(x: int) -> nat {
    if x < 0 {
        (-x) as nat
    } else {
        x as nat
    }
}

/// Sum of the magnitudes of the first `n` samples.
pub open spec fn abs_sum(frame: Seq<u8>, n: int) -> nat
    decreases n,
{
    if n <= 0 {
        0
    } else {
        abs_sum(frame, n - 1) + abs(sample(frame, n - 1))
    }
}

/// A frame is speech when the mean magnitude of its samples (the sum
/// saturating at `u64::MAX`) reaches the threshold.  A trailing odd byte is
/// ignored; a frame without samples is never speech.
pub open spec fn is_speech(frame: Seq<u8>, threshold: i16) -> bool {
    let n = frame.len() / 2;
    let total = if abs_sum(frame, n as int) > u64::MAX {
        u64::MAX as nat
    } else {
        abs_sum(frame, n as int)
    };
    n > 0 && (total / n) as int >= threshold as int
}

/// The pre-roll buffer after `frame` arrives: the last `keep` frames.
pub open spec fn ring_push(ring: Seq<Seq<u8>>, frame: Seq<u8>, keep: nat) -> Seq<Seq<u8>> {
    let r = ring.push(frame);
    if r.len() > keep {
        r.skip(r.len() - keep)
    } else {
        r
    }
}

/// Closing the current segment at `end_ms`: the detector goes back to idle
/// and the audio collected so far is reported when it is long enough.
pub open spec fn finish_step(v: VadView, end_ms: u64) -> (VadView, Option<SegmentView>) {
    let next = VadView {
        active: false,
        speech_run: 0,
        silence_run: 0,
        current_speech_ms: 0,
        current_pcm: Seq::empty(),
        ..v
    };
    let seg = if v.current_pcm.len() >= v.min_segment_bytes {
        Some(
            SegmentView {
                start_ms: v.segment_start_ms,
                end_ms,
                speech_ms: v.current_speech_ms,
                pcm: v.current_pcm,
            },
        )
    } else {
        None
    };
    (next, seg)
}

/// One frame starting at `t` ms: the next state and the segment it closes.
pub open spec fn push_step(v: VadView, frame: Seq<u8>, t: u64) -> (VadView, Option<SegmentView>) {
    let ring = ring_push(v.ring, frame, v.preroll_frames);
    let speech = is_speech(frame, v.cfg.silence_threshold);
    if !v.active {
        let run: u32 = if speech {
            sat_add_u32(v.speech_run, 1)
        } else {
            0
        };
        if sat_mul_u32(run, v.cfg.frame_ms) >= v.cfg.start_ms {
            (
                VadView {
                    ring,
                    active: true,
                    speech_run: run,
                    segment_start_ms: sat_sub_u64(t, v.cfg.preroll_ms as u64),
                    current_pcm: ring.flatten(),
                    current_speech_ms: (run * v.cfg.frame_ms) as u64,
                    silence_run: 0,
                    ..v
                },
                None,
            )
        } else {
            (VadView { ring, speech_run: run, ..v }, None)
        }
    } else {
        let pcm = v.current_pcm + frame;
        let speech_ms = if speech {
            sat_add_u64(v.current_speech_ms, v.cfg.frame_ms as u64)
        } else {
            v.current_speech_ms
        };
        let silence: u32 = if speech {
            0
        } else {
            sat_add_u32(v.silence_run, 1)
        };
        let v2 = VadView {
            ring,
            current_pcm: pcm,
            current_speech_ms: speech_ms,
            silence_run: silence,
            ..v
        };
        if pcm.len() >= v.max_segment_bytes {
            finish_step(v2, (t + v.cfg.frame_ms) as u64)
        } else if sat_mul_u32(silence, v.cfg.frame_ms) >= v.cfg.stop_ms {
            finish_step(v2, (t + v.cfg.frame_ms) as u64)
        } else {
            (v2, None)
        }
    }
}

/// `flush` at `end_ms`: an open segment is closed, an idle detector stays idle.
pub open spec fn flush_step(v: VadView, end_ms: u64) -> (VadView, Option<SegmentView>) {
    if v.active {
        finish_step(v, end_ms)
    } else {
        (v, None)
    }
}

/// The sizes that `StreamingVad::new` derives from the sample format and the
/// configuration.
pub open spec fn frame_bytes_for(sample_rate: u32, channels: u16, cfg: VadConfig) -> nat {
    ((sample_rate * cfg.frame_ms) / 1000) as nat * channels as nat * 2
}

pub open spec fn span_bytes_for(sample_rate: u32, channels: u16, ms: u32) -> nat {
    ((sample_rate * channels * 2 * ms) / 1000) as nat
}

pub open spec fn preroll_frames_for(cfg: VadConfig) -> nat {
    if cfg.preroll_ms / cfg.frame_ms >= 1 {
        (cfg.preroll_ms / cfg.frame_ms) as nat
    } else {
        1
    }
}

/// The inputs on which `StreamingVad::new` computes its sizes without
/// overflow (segment sizes above `usize::MAX` are truncated, as `as usize` does).
pub open spec fn vad_sizes_fit(sample_rate: u32, channels: u16, cfg: VadConfig) -> bool {
    &&& cfg.frame_ms > 0
    &&& frame_bytes_for(sample_rate, channels, cfg) <= usize::MAX
    &&& sample_rate * channels * 2 * cfg.max_segment_ms <= u64::MAX
    &&& sample_rate * channels * 2 * cfg.min_segment_ms <= u64::MAX
}

impl VadView {
    /// The state invariant of a detector.
    pub open spec fn wf(self) -> bool {
        &&& self.cfg.frame_ms > 0
        &&& self.preroll_frames >= 1
        &&& self.ring.len() <= self.preroll_frames
        &&& forall|i: int| 0 <= i < self.ring.len() ==> (#[trigger] self.ring[i]).len()
            == self.frame_bytes
    }
}

proof fn lemma_ring_push(ring: Seq<Seq<u8>>, frame: Seq<u8>, keep: nat, len: nat)
    requires
        keep >= 1,
        ring.len() <= keep,
        frame.len() == len,
        forall|i: int| 0 <= i < ring.len() ==> (#[trigger] ring[i]).len() == len,
    ensures
        ring_push(ring, frame, keep).len() <= keep,
        forall|i: int|
            0 <= i < ring_push(ring, frame, keep).len() ==> (#[trigger] ring_push(
                ring,
                frame,
                keep,
            )[i]).len() == len,
{
    let r = ring.push(frame);
    assert forall|i: int| 0 <= i < r.len() implies (#[trigger] r[i]).len() == len by {
        if i < ring.len() {
            assert(r[i] == ring[i]);
        }
    }
    if r.len() > keep {
        let q = r.skip(r.len() - keep);
        assert forall|i: int| 0 <= i < q.len() implies (#[trigger] q[i]).len() == len by {
            assert(q[i] == r[i + r.len() - keep]);
        }
    }
}

/// Appends bytes to a byte buffer.
pub fn extend_bytes(out: &mut Vec<u8>, more: &[u8])
    ensures
        final(out)@ == old(out)@ + more@,
{
    let mut i: usize = 0;
    while i < more.len()
        invariant
            i <= more.len(),
            out@ == old(out)@ + more@.take(i as int),
        decreases more.len() - i,
    {
        out.push(more[i]);
        i += 1;
        assert(more@.take(i as int) =~= more@.take((i - 1) as int).push(more@[i - 1]));
    }
    assert(more@.take(more.len() as int) =~= more@);
}

fn sat_mul(a: u32, b: u32) -> (r: u32)
    ensures
        r == sat_mul_u32(a, b),
{
    assert((a as u64) * (b as u64) <= u64::MAX) by (nonlinear_arith)
        requires
            a <= u32::MAX,
            b <= u32::MAX,
    ;
    let p: u64 = a as u64 * b as u64;
    if p > u32::MAX as u64 {
        u32::MAX
    } else {
        p as u32
    }
}

proof fn lemma_abs_sum_bound(frame: Seq<u8>, n: int)
    requires
        0 <= n,
        2 * n <= frame.len(),
    ensures
        abs_sum(frame, n) <= 32768 * n,
    decreases n,
{
    if n > 0 {
        lemma_abs_sum_bound(frame, n - 1);
        assert(abs(sample(frame, n - 1)) <= 32768);
    }
}

// ---------------------------------------------------------------------------
// What makes a frame speech
// ---------------------------------------------------------------------------
/// The magnitude of the sample stored as the bytes `lo`, `hi`: a 16-bit
/// little-endian two's-complement value (the `s16le` format that ffmpeg is
/// asked for).
pub open spec fn s16le_magnitude(lo: u8, hi: u8) -> nat {
    let v = lo as nat + 256 * (hi as nat);
    if v >= 32768 {
        (65536 - v) as nat
    } else {
        v
    }
}

proof fn lemma_sample_magnitude(frame: Seq<u8>, i: int)
    requires
        0 <= i,
        2 * i + 1 < frame.len(),
    ensures
        abs(sample(frame, i)) == s16le_magnitude(frame[2 * i], frame[2 * i + 1]),
{
}

proof fn lemma_abs_sum_between(frame: Seq<u8>, n: int, low: nat, high: nat)
    requires
        0 <= n,
        2 * n <= frame.len(),
        forall|i: int|
            0 <= i < n ==> low <= #[trigger] s16le_magnitude(frame[2 * i], frame[2 * i + 1]) <= high,
    ensures
        n * low <= abs_sum(frame, n) <= n * high,
    decreases n,
{
    if n > 0 {
        lemma_abs_sum_between(frame, n - 1, low, high);
        lemma_sample_magnitude(frame, n - 1);
        assert(low <= s16le_magnitude(frame[2 * (n - 1)], frame[2 * (n - 1) + 1]) <= high);
        assert(n * low == (n - 1) * low + low) by (nonlinear_arith);
        assert(n * high == (n - 1) * high + high) by (nonlinear_arith);
    }
}

/// A frame whose every sample (read as little-endian 16-bit) is quieter than
/// the threshold is never speech.
pub proof fn lemma_quiet_frame_is_silence(frame: Seq<u8>, threshold: i16)
    requires
        threshold > 0,
        forall|i: int|
            0 <= i < frame.len() / 2 ==> #[trigger] s16le_magnitude(frame[2 * i], frame[2 * i + 1])
                < threshold,
    ensures
        !is_speech(frame, threshold),
{
    let n = frame.len() / 2;
    let high = (threshold - 1) as nat;
    lemma_abs_sum_between(frame, n as int, 0, high);
    let total = if abs_sum(frame, n as int) > u64::MAX {
        u64::MAX as nat
    } else {
        abs_sum(frame, n as int)
    };
    if n > 0 {
        assert(total <= n * high);
        assert(total / n <= high) by (nonlinear_arith)
            requires
                total <= n * high,
                n > 0,
        ;
    }
}

/// A frame (of any sensible length) whose every sample (read as
/// little-endian 16-bit) is at least as loud as the threshold is speech.
pub proof fn lemma_loud_frame_is_speech(frame: Seq<u8>, threshold: i16)
    requires
        2 <= frame.len() <= 1_000_000_000_000,
        forall|i: int|
            0 <= i < frame.len() / 2 ==> threshold <= #[trigger] s16le_magnitude(
                frame[2 * i],
                frame[2 * i + 1],
            ),
    ensures
        is_speech(frame, threshold),
{
    let n = frame.len() / 2;
    if threshold > 0 {
        let low = threshold as nat;
        lemma_abs_sum_between(frame, n as int, low, 32768);
        let a = abs_sum(frame, n as int);
        assert(a <= n * 32768);
        assert(n * 32768 <= u64::MAX) by (nonlinear_arith)
            requires
                n <= 500_000_000_000,
        ;
        assert(a / n >= low) by (nonlinear_arith)
            requires
                a >= n * low,
                n > 0,
        ;
    }
}

/// A frame made of one sample repeated is speech exactly when that sample's
/// magnitude (read as little-endian 16-bit) reaches the threshold.
pub proof fn lemma_steady_frame(frame: Seq<u8>, lo: u8, hi: u8, threshold: i16)
    requires
        2 <= frame.len() <= 1_000_000_000_000,
        frame.len() % 2 == 0,
        forall|i: int| 0 <= i < frame.len() / 2 ==> #[trigger] frame[2 * i] == lo && frame[2 * i + 1] == hi,
        threshold > 0,
    ensures
        is_speech(frame, threshold) <==> s16le_magnitude(lo, hi) >= threshold,
{
    if s16le_magnitude(lo, hi) >= threshold {
        assert forall|i: int| 0 <= i < frame.len() / 2 implies threshold <= #[trigger] s16le_magnitude(
            frame[2 * i],
            frame[2 * i + 1],
        ) by {
            assert(frame[2 * i] == lo && frame[2 * i + 1] == hi);
        }
        lemma_loud_frame_is_speech(frame, threshold);
    } else {
        assert forall|i: int| 0 <= i < frame.len() / 2 implies #[trigger] s16le_magnitude(
            frame[2 * i],
            frame[2 * i + 1],
        ) < threshold by {
            assert(frame[2 * i] == lo && frame[2 * i + 1] == hi);
        }
        lemma_quiet_frame_is_silence(frame, threshold);
    }
}

/// An idle detector stays idle on a frame that is not speech (when opening
/// needs any speech at all), and reports nothing.
pub proof fn lemma_silence_keeps_idle(v: VadView, frame: Seq<u8>, t: u64)
    requires
        !v.active,
        v.cfg.start_ms > 0,
        !is_speech(frame, v.cfg.silence_threshold),
    ensures
        !push_step(v, frame, t).0.active,
        push_step(v, frame, t).0.speech_run == 0,
        push_step(v, frame, t).1 is None,
{
}

/// Whether a PCM frame carries speech.
fn is_speech_frame(frame: &[u8], threshold: i16) -> (b: bool)
    ensures
        b == is_speech(frame@, threshold),
{
    let n = frame.len() / 2;
    let mut sum: u64 = 0;
    let mut samples: u64 = 0;
    let mut i: usize = 0;
    while i < n
        invariant
            n == frame.len() / 2,
            i <= n,
            samples == i,
            sum as nat == (if abs_sum(frame@, i as int) > u64::MAX {
                u64::MAX as nat
            } else {
                abs_sum(frame@, i as int)
            }),
        decreases n - i,
    {
        let lo = frame[2 * i] as u32;
        let hi = frame[2 * i + 1] as u32;
        let v: u32 = lo + 256 * hi;
        let mag: u64 = if v >= 32768 {
            (65536 - v) as u64
        } else {
            v as u64
        };
        assert(mag as nat == abs(sample(frame@, i as int)));
        sum = sum.saturating_add(mag);
        samples += 1;
        i += 1;
    }
    if samples == 0 {
        return false;
    }
    proof {
        lemma_abs_sum_bound(frame@, n as int);
        assert(sum as nat <= 32768 * n);
        assert(sum / samples <= 32768) by (nonlinear_arith)
            requires
                sum <= 32768 * samples,
                samples > 0,
        ;
    }
    let avg: u64 = sum / samples;
    (avg as i64) >= (threshold as i64)
}

impl StreamingVad {
    pub fn new(sample_rate: u32, channels: u16, cfg: VadConfig) -> (r: Self)
        requires
            vad_sizes_fit(sample_rate, channels, cfg),
        ensures
            r@.wf(),
            r@.cfg == cfg,
            r@.frame_bytes == frame_bytes_for(sample_rate, channels, cfg),
            r@.max_segment_bytes == (span_bytes_for(sample_rate, channels, cfg.max_segment_ms)
                as usize) as nat,
            r@.min_segment_bytes == (span_bytes_for(sample_rate, channels, cfg.min_segment_ms)
                as usize) as nat,
            r@.preroll_frames == preroll_frames_for(cfg),
            r@.ring.len() == 0,
            !r@.active,
            r@.speech_run == 0,
            r@.silence_run == 0,
            r@.segment_start_ms == 0,
            r@.current_pcm.len() == 0,
            r@.current_speech_ms == 0,
    {
        assert((sample_rate as u64) * (cfg.frame_ms as u64) <= u64::MAX) by (nonlinear_arith)
            requires
                sample_rate <= u32::MAX,
                cfg.frame_ms <= u32::MAX,
        ;
        let frame_samples: u64 = sample_rate as u64 * cfg.frame_ms as u64 / 1000;
        let frame_bytes = (frame_samples * channels as u64 * 2) as usize;
        assert((sample_rate as u64) * (channels as u64) * 2 <= 0x2_0000_0000_0000) by (nonlinear_arith)
            requires
                sample_rate <= u32::MAX,
                channels <= u16::MAX,
        ;
        let max_segment_bytes = (sample_rate as u64 * channels as u64 * 2 * cfg.max_segment_ms as u64
            / 1000) as usize;
        let min_segment_bytes = (sample_rate as u64 * channels as u64 * 2 * cfg.min_segment_ms as u64
            / 1000) as usize;
        let q = cfg.preroll_ms / cfg.frame_ms;
        let preroll_frames: usize = if q >= 1 {
            q as usize
        } else {
            1
        };
        let r = StreamingVad {
            cfg,
            frame_bytes,
            max_segment_bytes,
            min_segment_bytes,
            preroll_frames,
            ring: VecDeque::new(),
            active: false,
            speech_run_frames: 0,
            silence_run_frames: 0,
            segment_start_ms: 0,
            current_pcm: Vec::new(),
            current_speech_ms: 0,
        };
        assert(r@.ring =~= Seq::<Seq<u8>>::empty());
        r
    }

    pub fn config(&self) -> (r: VadConfig)
        ensures
            r == self@.cfg,
    {
        self.cfg
    }

    pub fn frame_bytes(&self) -> (r: usize)
        ensures
            r as nat == self@.frame_bytes,
    {
        self.frame_bytes
    }

    /// Feeds one frame that starts at `frame_start_ms`; returns the segment
    /// this frame closes, if any.
    pub fn push_frame(&mut self, frame: &[u8], frame_start_ms: u64) -> (r: Option<SpeechSegment>)
        requires
            old(self)@.wf(),
            frame@.len() == old(self)@.frame_bytes,
            old(self)@.active ==> frame_start_ms + old(self)@.cfg.frame_ms <= u64::MAX,
        ensures
            final(self)@.wf(),
            (final(self)@, opt_view(r)) == push_step(
                old(self)@,
                frame@,
                frame_start_ms,
            ),
    {
        let ghost old_v = self@;
        let mut copy: Vec<u8> = Vec::new();
        extend_bytes(&mut copy, frame);
        assert(copy@ =~= frame@);
        let mut ring: VecDeque<Vec<u8>> = VecDeque::new();
        std::mem::swap(&mut ring, &mut self.ring);
        ring.push_back(copy);
        let ghost pushed = ring@;
        let keep = self.preroll_frames;
        while ring.len() > keep
            invariant
                ring@.len() < pushed.len() ==> ring@.len() >= keep,
                ring@.len() <= pushed.len(),
                keep >= 1,
                pushed.len() > 0,
                ring@ == pushed.skip(pushed.len() - ring@.len()),
            decreases ring@.len(),
        {
            ring.pop_front();
            assert(ring@ =~= pushed.skip(pushed.len() - ring@.len()));
        }
        self.ring = ring;
        proof {
            let keep = self.preroll_frames as nat;
            assert(pushed.map_values(|f: Vec<u8>| f@) =~= old_v.ring.push(frame@));
            if self.ring@.len() == pushed.len() {
                assert(self.ring@ =~= pushed);
            }
            assert(self@.ring =~= ring_push(old_v.ring, frame@, keep));
            lemma_ring_push(old_v.ring, frame@, keep, old_v.frame_bytes);
        }
        let ghost ring_now = self@.ring;
        let speech = is_speech_frame(frame, self.cfg.silence_threshold);
        if !self.active {
            if speech {
                self.speech_run_frames = self.speech_run_frames.saturating_add(1);
            } else {
                self.speech_run_frames = 0;
            }
            if sat_mul(self.speech_run_frames, self.cfg.frame_ms) >= self.cfg.start_ms {
                self.active = true;
                self.segment_start_ms = frame_start_ms.saturating_sub(self.cfg.preroll_ms as u64);
                let mut pcm: Vec<u8> = Vec::new();
                let mut k: usize = 0;
                while k < self.ring.len()
                    invariant
                        k <= self.ring@.len(),
                        self@.ring == ring_now,
                        pcm@ == ring_now.take(k as int).flatten(),
                    decreases self.ring@.len() - k,
                {
                    proof {
                        assert(ring_now.take(k + 1) =~= ring_now.take(k as int).push(
                            ring_now[k as int],
                        ));
                        Seq::lemma_flatten_push(ring_now.take(k as int), ring_now[k as int]);
                    }
                    extend_bytes(&mut pcm, self.ring[k].as_slice());
                    k += 1;
                }
                assert(ring_now.take(self.ring@.len() as int) =~= ring_now);
                self.current_pcm = pcm;
                assert((self.speech_run_frames as u64) * (self.cfg.frame_ms as u64) <= u64::MAX)
                    by (nonlinear_arith)
                    requires
                        self.speech_run_frames <= u32::MAX,
                        self.cfg.frame_ms <= u32::MAX,
                ;
                self.current_speech_ms = self.speech_run_frames as u64 * self.cfg.frame_ms as u64;
                self.silence_run_frames = 0;
            }
            return None;
        }
        extend_bytes(&mut self.current_pcm, frame);
        if speech {
            self.current_speech_ms = self.current_speech_ms.saturating_add(self.cfg.frame_ms as u64);
            self.silence_run_frames = 0;
        } else {
            self.silence_run_frames = self.silence_run_frames.saturating_add(1);
        }
        if self.current_pcm.len() >= self.max_segment_bytes {
            return self.finish_segment(frame_start_ms + self.cfg.frame_ms as u64);
        }
        if sat_mul(self.silence_run_frames, self.cfg.frame_ms) >= self.cfg.stop_ms {
            return self.finish_segment(frame_start_ms + self.cfg.frame_ms as u64);
        }
        None
    }

    /// Closes an open segment at `end_ms` (end of input).
    pub fn flush(&mut self, end_ms: u64) -> (r: Option<SpeechSegment>)
        requires
            old(self)@.wf(),
        ensures
            final(self)@.wf(),
            (final(self)@, opt_view(r)) == flush_step(old(self)@, end_ms),
    {
        if self.active {
            return self.finish_segment(end_ms);
        }
        None
    }

    fn finish_segment(&mut self, end_ms: u64) -> (r: Option<SpeechSegment>)
        requires
            old(self)@.wf(),
        ensures
            final(self)@.wf(),
            (final(self)@, opt_view(r)) == finish_step(old(self)@, end_ms),
    {
        let mut pcm: Vec<u8> = Vec::new();
        std::mem::swap(&mut pcm, &mut self.current_pcm);
        let start_ms = self.segment_start_ms;
        let speech_ms = self.current_speech_ms;
        self.active = false;
        self.speech_run_frames = 0;
        self.silence_run_frames = 0;
        self.current_speech_ms = 0;
        if pcm.len() >= self.min_segment_bytes {
            Some(SpeechSegment { start_ms, end_ms, speech_ms, pcm })
        } else {
            None
        }
    }
}

// ---------------------------------------------------------------------------
// Properties of the detector
// ---------------------------------------------------------------------------
/// `x` ends `y`.
pub open spec fn ends_with(y: Seq<u8>, x: Seq<u8>) -> bool {
    x.len() <= y.len() && x == y.skip(y.len() - x.len())
}

/// What the detector holds is audio it was given last: the pre-roll frames
/// end the audio consumed so far, and so does an open segment.
pub open spec fn holds_recent_audio(v: VadView, consumed: Seq<u8>) -> bool {
    &&& ends_with(consumed, v.ring.flatten())
    &&& v.active ==> ends_with(consumed, v.current_pcm)
}

proof fn lemma_ends_with_append(y: Seq<u8>, x: Seq<u8>, f: Seq<u8>)
    requires
        ends_with(y, x),
    ensures
        ends_with(y + f, x + f),
{
    assert((y + f).skip((y + f).len() - (x + f).len()) =~= y.skip(y.len() - x.len()) + f);
}

proof fn lemma_ends_with_trans(z: Seq<u8>, y: Seq<u8>, x: Seq<u8>)
    requires
        ends_with(z, y),
        ends_with(y, x),
    ensures
        ends_with(z, x),
{
    assert(z.skip(z.len() - x.len()) =~= z.skip(z.len() - y.len()).skip(y.len() - x.len()));
}

proof fn lemma_flatten_skip_ends(r: Seq<Seq<u8>>, k: int)
    requires
        0 <= k <= r.len(),
    ensures
        ends_with(r.flatten(), r.skip(k).flatten()),
{
    assert(r =~= r.take(k) + r.skip(k));
    vstd::seq_lib::lemma_flatten_concat(r.take(k), r.skip(k));
    let a = r.take(k).flatten();
    let b = r.skip(k).flatten();
    assert((a + b).skip((a + b).len() - b.len()) =~= b);
}

/// One frame keeps the detector holding recent audio; a segment it closes is
/// the end of the audio consumed so far and has at least the minimum size.
pub proof fn lemma_push_step_recent(v: VadView, consumed: Seq<u8>, frame: Seq<u8>, t: u64)
    requires
        holds_recent_audio(v, consumed),
    ensures
        holds_recent_audio(push_step(v, frame, t).0, consumed + frame),
        push_step(v, frame, t).1 matches Some(s) ==> ends_with(consumed + frame, s.pcm)
            && s.pcm.len() >= v.min_segment_bytes,
        push_step(v, frame, t).0.min_segment_bytes == v.min_segment_bytes,
        push_step(v, frame, t).0.frame_bytes == v.frame_bytes,
{
    let pushed = v.ring.push(frame);
    Seq::lemma_flatten_push(v.ring, frame);
    lemma_ends_with_append(consumed, v.ring.flatten(), frame);
    let ring = ring_push(v.ring, frame, v.preroll_frames);
    if pushed.len() > v.preroll_frames {
        lemma_flatten_skip_ends(pushed, pushed.len() - v.preroll_frames);
        lemma_ends_with_trans(consumed + frame, pushed.flatten(), ring.flatten());
    }
    if v.active {
        lemma_ends_with_append(consumed, v.current_pcm, frame);
    }
}

/// `flush` leaves no segment open, so a second flush reports nothing.  The
/// first reports the open audio, closed at `end_ms`, exactly when a segment
/// is open and its audio reaches the minimum segment size; shorter audio is
/// discarded.
pub proof fn lemma_flush_closes(v: VadView, end_ms: u64, later_ms: u64)
    ensures
        !flush_step(v, end_ms).0.active,
        flush_step(v, end_ms).0.current_pcm.len() == 0 || !v.active,
        flush_step(flush_step(v, end_ms).0, later_ms) == (flush_step(v, end_ms).0, None::<SegmentView>),
        flush_step(v, end_ms).1 is Some <==> (v.active && v.current_pcm.len() >= v.min_segment_bytes),
        flush_step(v, end_ms).1 matches Some(seg) ==> seg == (SegmentView {
            start_ms: v.segment_start_ms,
            end_ms,
            speech_ms: v.current_speech_ms,
            pcm: v.current_pcm,
        }),
{
}

/// Flushing reports the end of the consumed audio, of at least the minimum size.
pub proof fn lemma_flush_step_recent(v: VadView, consumed: Seq<u8>, end_ms: u64)
    requires
        holds_recent_audio(v, consumed),
    ensures
        holds_recent_audio(flush_step(v, end_ms).0, consumed),
        flush_step(v, end_ms).1 matches Some(s) ==> ends_with(consumed, s.pcm) && s.pcm.len()
            >= v.min_segment_bytes,
{
}

/// A new detector holds no audio.
pub proof fn lemma_fresh_holds_recent(v: VadView)
    requires
        v.ring.len() == 0,
        !v.active,
    ensures
        holds_recent_audio(v, Seq::empty()),
{
    assert(v.ring.flatten() =~= Seq::<u8>::empty());
    assert(Seq::<u8>::empty().skip(0) =~= Seq::<u8>::empty());
}

} // verus!
