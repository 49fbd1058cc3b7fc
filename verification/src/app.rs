//! The decisions of a transcription session: cutting the captured byte
//! stream into frames for the detector, the bounded hand-off queue between
//! capture and transcription, and the texts shown around a session.
use vstd::prelude::*;
use std::collections::VecDeque;


use crate::platform::{display_name_of, AudioSource};
use crate::text::{chars_of, dec, extend_chars, extend_str, push_dec, string_of, trim, trim_chars};
use crate::util::{clock, format_duration, format_duration_ms};
use crate::vad::{
    default_vad_config, flush_step, holds_recent_audio, lemma_flush_step_recent,
    lemma_fresh_holds_recent, lemma_push_step_recent, frame_bytes_for, opt_view, push_step, sat_add_u64,
    SegmentView, SpeechSegment, StreamingVad, VadConfig, VadView,
};

verus! {

broadcast use vstd::string::group_string_axioms;

/// What a session needs to start.
#[derive(Clone, Debug)]
pub struct StartConfig {
    pub ffmpeg_bin: String,
    pub whisper_bin: String,
    pub model_path: String,
    pub model_label: String,
    pub language: String,
    pub quality: String,
    pub threads: usize,
    pub chunk_seconds: u64,
    pub output_root: String,
    pub record_audio: bool,
    pub title: Option<String>,
    pub source_query: String,
}

// ---------------------------------------------------------------------------
// Cutting the capture stream into frames
// ---------------------------------------------------------------------------
pub open spec fn opt_seq(o: Option<SegmentView>) -> Seq<SegmentView> {
    match o {
        Some(s) => seq![s],
        None => Seq::empty(),
    }
}

/// Feeds every whole frame at the front of `rest` to the detector; frame
/// number `idx` starts at `idx * frame_ms`.  Returns the detector state, the
/// next frame number, the bytes left over (less than one frame) and the
/// segments closed on the way.
pub open spec fn feed(v: VadView, idx: nat, frame_ms: u64, rest: Seq<u8>) -> (
    VadView,
    nat,
    Seq<u8>,
    Seq<SegmentView>,
)
    decreases rest.len(),
{
    let fb = v.frame_bytes;
    if fb == 0 || rest.len() < fb {
        (v, idx, rest, Seq::empty())
    } else {
        let (v1, o) = push_step(v, rest.take(fb as int), (idx * frame_ms) as u64);
        let (v2, i2, r2, segs) = feed(v1, idx + 1, frame_ms, rest.skip(fb as int));
        (v2, i2, r2, opt_seq(o) + segs)
    }
}

/// The capture stream as plain values.
pub struct FeedView {
    pub vad: VadView,
    pub frame_index: nat,
    pub frame_ms: u64,
    /// Captured bytes not yet part of a whole frame.
    pub rest: Seq<u8>,
}

/// The frames that the bytes now waiting plus `extra` more will make, and the
/// arithmetic they need, stay within `u64`.
pub open spec fn feed_fits(f: FeedView, extra: nat) -> bool {
    let frames = (f.rest.len() + extra) / f.vad.frame_bytes;
    &&& f.frame_index + frames <= u64::MAX
    &&& (f.frame_index + frames) * f.frame_ms + f.vad.cfg.frame_ms <= u64::MAX
}

/// Turns the raw capture stream into frames for the detector, whatever the
/// sizes of the reads it comes in.
pub struct CaptureFeed {
    vad: StreamingVad,
    pending: Vec<u8>,
    offset: usize,
    frame_index: u64,
    frame_ms: u64,
}

impl View for CaptureFeed {
    type V = FeedView;

    closed spec fn view(&self) -> FeedView {
        FeedView {
            vad: self.vad@,
            frame_index: self.frame_index as nat,
            frame_ms: self.frame_ms,
            rest: self.pending@.skip(self.offset as int),
        }
    }
}

impl CaptureFeed {
    pub closed spec fn wf(&self) -> bool {
        &&& self.vad@.wf()
        &&& self.offset <= self.pending@.len()
        &&& self.vad@.frame_bytes > 0
        &&& self.vad@.frame_bytes * 32 <= usize::MAX
        &&& self.frame_index * self.frame_ms <= u64::MAX
    }

    pub fn new(vad: StreamingVad, frame_ms: u64) -> (r: Self)
        requires
            vad@.wf(),
            vad@.frame_bytes > 0,
            vad@.frame_bytes * 32 <= usize::MAX,
        ensures
            r.wf(),
            r@ == (FeedView { vad: vad@, frame_index: 0, frame_ms, rest: Seq::empty() }),
    {
        let r = CaptureFeed { vad, pending: Vec::new(), offset: 0, frame_index: 0, frame_ms };
        assert(r@.rest =~= Seq::<u8>::empty());
        r
    }

    pub fn frame_bytes(&self) -> (r: usize)
        ensures
            r as nat == self@.vad.frame_bytes,
    {
        self.vad.frame_bytes()
    }

    /// Number of whole frames fed so far.
    pub fn frame_index(&self) -> (r: u64)
        ensures
            r as nat == self@.frame_index,
    {
        self.frame_index
    }

    /// Adds captured bytes; every whole frame goes to the detector in order,
    /// and the segments it closes come back in order.
    pub fn push_bytes(&mut self, bytes: &[u8]) -> (r: Vec<SpeechSegment>)
        requires
            old(self).wf(),
            feed_fits(old(self)@, bytes@.len()),
        ensures
            final(self).wf(),
            ({
                let (v, i, rest, segs) = feed(
                    old(self)@.vad,
                    old(self)@.frame_index,
                    old(self)@.frame_ms,
                    old(self)@.rest + bytes@,
                );
                &&& final(self)@.vad == v
                &&& final(self)@.frame_index == i
                &&& final(self)@.rest == rest
                &&& final(self)@.frame_ms == old(self)@.frame_ms
                &&& r@.map_values(|s: SpeechSegment| s@) == segs
            }),
    {
        let ghost start = self@;
        extend_bytes_vec(&mut self.pending, bytes);
        assert(self.pending@.skip(self.offset as int) =~= start.rest + bytes@);
        let fb = self.vad.frame_bytes();
        let mut out: Vec<SpeechSegment> = Vec::new();
        let ghost total = feed(start.vad, start.frame_index, start.frame_ms, start.rest + bytes@);
        let ghost total_frames = ((start.rest.len() + bytes@.len()) / (fb as nat)) as nat;
        proof {
            lemma_feed_frames(start.vad, start.frame_index, start.frame_ms, start.rest + bytes@);
        }
        while self.pending.len() - self.offset >= fb
            invariant
                self.wf(),
                fb as nat == self.vad@.frame_bytes,
                fb > 0,
                self.frame_ms == start.frame_ms,
                self.vad@.cfg == start.vad.cfg,
                self.frame_index <= start.frame_index + total_frames,
                self.frame_index as nat + (self@.rest.len() / (fb as nat)) == start.frame_index
                    + total_frames,
                (start.frame_index + total_frames) * start.frame_ms + start.vad.cfg.frame_ms
                    <= u64::MAX,
                start.frame_index + total_frames <= u64::MAX,
                ({
                    let (v, i, rest, segs) = feed(
                        self@.vad,
                        self@.frame_index,
                        self@.frame_ms,
                        self@.rest,
                    );
                    &&& v == total.0
                    &&& i == total.1
                    &&& rest == total.2
                    &&& out@.map_values(|s: SpeechSegment| s@) + segs == total.3
                }),
            decreases self.pending@.len() - self.offset,
        {
            let ghost before = self@;
            let ghost before_out = out@.map_values(|s: SpeechSegment| s@);
            proof {
                lemma_feed_frames(before.vad, before.frame_index, before.frame_ms, before.rest);
                assert(before.rest.len() >= fb);
                assert((before.rest.len() - fb) / (fb as int) + 1 == (before.rest.len() as int) / (fb as int))
                    by (nonlinear_arith)
                    requires
                        before.rest.len() >= fb,
                        fb > 0,
                ;
                assert(self.frame_index + 1 <= start.frame_index + total_frames);
                assert((self.frame_index + 1) * start.frame_ms <= u64::MAX) by (nonlinear_arith)
                    requires
                        (start.frame_index + total_frames) * start.frame_ms
                            + start.vad.cfg.frame_ms <= u64::MAX,
                        self.frame_index + 1 <= start.frame_index + total_frames,
                ;
                assert((self.frame_index as nat) * start.frame_ms + start.vad.cfg.frame_ms
                    <= u64::MAX) by (nonlinear_arith)
                    requires
                        (start.frame_index + total_frames) * start.frame_ms
                            + start.vad.cfg.frame_ms <= u64::MAX,
                        self.frame_index + 1 <= start.frame_index + total_frames,
                ;
            }
            let start_ms = self.frame_index * self.frame_ms;
            let frame = &self.pending.as_slice()[self.offset..self.offset + fb];
            assert(frame@ =~= before.rest.take(fb as int));
            let seg = self.vad.push_frame(frame, start_ms);
            match seg {
                Some(s) => {
                    out.push(s);
                },
                None => {},
            }
            proof {
                let nm = out@.map_values(|s: SpeechSegment| s@);
                assert(nm =~= before_out + opt_seq(opt_view(seg)));
            }
            self.offset = self.offset + fb;
            self.frame_index = self.frame_index + 1;
            proof {
                assert(self@.rest =~= before.rest.skip(fb as int));
                let (v1, o) = push_step(before.vad, before.rest.take(fb as int), start_ms);
                let (v2, i2, r2, segs) = feed(
                    v1,
                    before.frame_index + 1,
                    before.frame_ms,
                    before.rest.skip(fb as int),
                );
                assert(feed(before.vad, before.frame_index, before.frame_ms, before.rest) == (
                    v2,
                    i2,
                    r2,
                    opt_seq(o) + segs,
                ));
                assert(before_out + (opt_seq(o) + segs) =~= (before_out + opt_seq(o)) + segs);
            }
        }
        if self.offset > fb * 32 {
            let ghost before = self@;
            let mut kept: Vec<u8> = Vec::new();
            extend_bytes_vec(&mut kept, &self.pending.as_slice()[self.offset..self.pending.len()]);
            self.pending = kept;
            self.offset = 0;
            assert(self@.rest =~= before.rest);
        }
        proof {
            let (v, i, rest, segs) = feed(self@.vad, self@.frame_index, self@.frame_ms, self@.rest);
            assert(segs =~= Seq::<SegmentView>::empty());
            assert(out@.map_values(|s: SpeechSegment| s@) + segs =~= out@.map_values(
                |s: SpeechSegment| s@,
            ));
        }
        out
    }

    /// End of capture: closes an open segment at the end of the last whole frame.
    pub fn finish(&mut self) -> (r: Option<SpeechSegment>)
        requires
            old(self).wf(),
        ensures
            final(self).wf(),
            final(self)@.frame_index == old(self)@.frame_index,
            final(self)@.rest == old(self)@.rest,
            (final(self)@.vad, opt_view(r)) == flush_step(
                old(self)@.vad,
                (old(self)@.frame_index * old(self)@.frame_ms) as u64,
            ),
    {
        let end_ms = self.frame_index * self.frame_ms;
        self.vad.flush(end_ms)
    }
}

/// Appends bytes to a byte buffer.
fn extend_bytes_vec(out: &mut Vec<u8>, more: &[u8])
    ensures
        final(out)@ == old(out)@ + more@,
{
    crate::vad::extend_bytes(out, more);
}

proof fn lemma_feed_frames(v: VadView, idx: nat, frame_ms: u64, rest: Seq<u8>)
    requires
        v.frame_bytes > 0,
    ensures
        feed(v, idx, frame_ms, rest).1 == idx + rest.len() / v.frame_bytes,
        feed(v, idx, frame_ms, rest).2.len() < v.frame_bytes,
        feed(v, idx, frame_ms, rest).0.frame_bytes == v.frame_bytes,
        feed(v, idx, frame_ms, rest).0.cfg == v.cfg,
        rest.len() < v.frame_bytes ==> feed(v, idx, frame_ms, rest).3.len() == 0,
    decreases rest.len(),
{
    let fb = v.frame_bytes;
    if rest.len() >= fb {
        let (v1, o) = push_step(v, rest.take(fb as int), (idx * frame_ms) as u64);
        lemma_feed_frames(v1, idx + 1, frame_ms, rest.skip(fb as int));
        assert((rest.len() - fb) / (fb as int) + 1 == (rest.len() as int) / (fb as int)) by (nonlinear_arith)
            requires
                rest.len() >= fb,
                fb > 0,
        ;
    } else {
        assert(rest.len() / fb == 0) by (nonlinear_arith)
            requires
                rest.len() < fb,
        ;
    }
}

/// Reading the capture stream in pieces gives the same frames, the same
/// detector state and the same segments as reading it in one piece.
pub proof fn lemma_feed_chunking(v: VadView, idx: nat, frame_ms: u64, a: Seq<u8>, b: Seq<u8>)
    ensures
        ({
            let (v1, i1, r1, s1) = feed(v, idx, frame_ms, a);
            let (v2, i2, r2, s2) = feed(v1, i1, frame_ms, r1 + b);
            feed(v, idx, frame_ms, a + b) == (v2, i2, r2, s1 + s2)
        }),
    decreases a.len(),
{
    let fb = v.frame_bytes;
    if fb == 0 || a.len() < fb {
        let (v1, i1, r1, s1) = feed(v, idx, frame_ms, a);
        assert(s1 =~= Seq::<SegmentView>::empty());
        let (v2, i2, r2, s2) = feed(v1, i1, frame_ms, r1 + b);
        assert(s1 + s2 =~= s2);
    } else {
        let (w, o) = push_step(v, a.take(fb as int), (idx * frame_ms) as u64);
        lemma_feed_chunking(w, idx + 1, frame_ms, a.skip(fb as int), b);
        assert((a + b).take(fb as int) =~= a.take(fb as int));
        assert((a + b).skip(fb as int) =~= a.skip(fb as int) + b);
        let (x1, j1, q1, t1) = feed(w, idx + 1, frame_ms, a.skip(fb as int));
        let (x2, j2, q2, t2) = feed(x1, j1, frame_ms, q1 + b);
        assert(opt_seq(o) + (t1 + t2) =~= (opt_seq(o) + t1) + t2);
    }
}

// ---------------------------------------------------------------------------
// The hand-off queue between capture and transcription
// ---------------------------------------------------------------------------
pub enum QueueItem {
    Segment(SpeechSegment),
    Finish { duration_seconds: u64, dropped_segments: usize },
}

/// What a consumer finds when it looks at the queue.
pub enum QueuePop {
    /// The oldest item, now removed.
    Item(QueueItem),
    /// The queue is empty and closed: nothing more will come.
    Closed,
    /// The queue is empty but open: the consumer waits for the producer.
    Wait,
}

/// The queue as plain values.
pub struct QueueView {
    pub items: Seq<QueueItem>,
    pub closed: bool,
    pub dropped_segments: nat,
    pub capacity: nat,
}

/// Making room before a segment is added: while the queue holds `capacity`
/// items or more, the oldest item is removed; a removed segment is counted
/// as dropped, while a removed `Finish` item ends the eviction.  Returns what
/// stays and the number of segments dropped.
pub open spec fn evict(items: Seq<QueueItem>, capacity: nat) -> (Seq<QueueItem>, nat)
    decreases items.len(),
{
    if items.len() >= capacity && items.len() > 0 {
        match items[0] {
            QueueItem::Segment(_) => {
                let (kept, n) = evict(items.drop_first(), capacity);
                (kept, n + 1)
            },
            QueueItem::Finish { .. } => (items.drop_first(), 0),
        }
    } else {
        (items, 0)
    }
}

/// A bounded queue that drops its oldest segments when it is full, so that
/// capture never waits for transcription.
pub struct SegmentQueue {
    items: VecDeque<QueueItem>,
    closed: bool,
    dropped_segments: usize,
    capacity: usize,
}

impl View for SegmentQueue {
    type V = QueueView;

    closed spec fn view(&self) -> QueueView {
        QueueView {
            items: self.items@,
            closed: self.closed,
            dropped_segments: self.dropped_segments as nat,
            capacity: self.capacity as nat,
        }
    }
}

proof fn lemma_evict_count(items: Seq<QueueItem>, capacity: nat)
    ensures
        evict(items, capacity).1 <= items.len(),
        evict(items, capacity).0.len() <= items.len(),
    decreases items.len(),
{
    if items.len() >= capacity && items.len() > 0 {
        if let QueueItem::Segment(_) = items[0] {
            lemma_evict_count(items.drop_first(), capacity);
        }
    }
}

impl SegmentQueue {
    pub fn new(capacity: usize) -> (r: Self)
        ensures
            r@.items.len() == 0,
            !r@.closed,
            r@.dropped_segments == 0,
            r@.capacity == capacity,
    {
        SegmentQueue { items: VecDeque::new(), closed: false, dropped_segments: 0, capacity }
    }

    /// Adds a segment, first evicting old items to make room.  Returns whether
    /// a segment was dropped.  A closed queue ignores the segment.
    pub fn push_segment(&mut self, segment: SpeechSegment) -> (dropped: bool)
        requires
            old(self)@.dropped_segments + old(self)@.items.len() <= usize::MAX,
        ensures
            (final(self)@, QueueReply::Pushed { dropped }) == queue_step(
                old(self)@,
                QueueOp::PushSegment(segment),
            ),
            old(self)@.closed ==> final(self)@ == old(self)@ && !dropped,
            !old(self)@.closed ==> ({
                let (kept, n) = evict(old(self)@.items, old(self)@.capacity);
                &&& final(self)@.items == kept.push(QueueItem::Segment(segment))
                &&& final(self)@.dropped_segments == old(self)@.dropped_segments + n
                &&& dropped == (n > 0)
                &&& final(self)@.closed == old(self)@.closed
                &&& final(self)@.capacity == old(self)@.capacity
            }),
    {
        if self.closed {
            return false;
        }
        let ghost start = self@;
        proof {
            lemma_evict_count(start.items, start.capacity);
        }
        let mut dropped = false;
        let mut go = true;
        let ghost mut count: nat = 0;
        while go && self.items.len() >= self.capacity
            invariant
                self.capacity == start.capacity,
                self.closed == start.closed,
                self.dropped_segments == start.dropped_segments + count,
                start.dropped_segments + start.items.len() <= usize::MAX,
                dropped == (count > 0),
                count <= start.items.len(),
                go ==> ({
                    let (k, m) = evict(self.items@, start.capacity);
                    &&& evict(start.items, start.capacity) == (k, m + count)
                    &&& count + self.items@.len() <= start.items.len()
                }),
                !go ==> evict(start.items, start.capacity) == (self.items@, count),
            decreases self.items@.len() + (if go { 1int } else { 0int }),
        {
            let ghost before = self.items@;
            let front = self.items.pop_front();
            match front {
                Some(QueueItem::Segment(_)) => {
                    proof {
                        assert(self.items@ =~= before.drop_first());
                        lemma_evict_count(self.items@, start.capacity);
                        count = count + 1;
                    }
                    self.dropped_segments += 1;
                    dropped = true;
                },
                _ => {
                    proof {
                        if before.len() > 0 {
                            assert(self.items@ =~= before.drop_first());
                        }
                    }
                    go = false;
                },
            }
        }
        self.items.push_back(QueueItem::Segment(segment));
        dropped
    }

    /// Adds the end-of-session marker (also to a full or closed queue).
    pub fn push_finish(&mut self, duration_seconds: u64, dropped_segments: usize)
        ensures
            final(self)@ == queue_step(
                old(self)@,
                QueueOp::PushFinish { duration_seconds, dropped_segments },
            ).0,
            final(self)@.items == old(self)@.items.push(
                QueueItem::Finish { duration_seconds, dropped_segments },
            ),
            final(self)@.closed == old(self)@.closed,
            final(self)@.dropped_segments == old(self)@.dropped_segments,
            final(self)@.capacity == old(self)@.capacity,
    {
        self.items.push_back(QueueItem::Finish { duration_seconds, dropped_segments });
    }

    /// Takes the oldest item; says `Closed` or `Wait` when there is none.
    pub fn pop(&mut self) -> (r: QueuePop)
        ensures
            (final(self)@, QueueReply::Popped(r)) == queue_step(old(self)@, QueueOp::Pop),
            old(self)@.items.len() > 0 ==> (r matches QueuePop::Item(item) && item == old(
                self,
            )@.items[0] && final(self)@.items == old(self)@.items.drop_first()),
            old(self)@.items.len() == 0 ==> final(self)@.items == old(self)@.items && (if old(
                self,
            )@.closed {
                r is Closed
            } else {
                r is Wait
            }),
            final(self)@.closed == old(self)@.closed,
            final(self)@.dropped_segments == old(self)@.dropped_segments,
            final(self)@.capacity == old(self)@.capacity,
    {
        let ghost before = self.items@;
        match self.items.pop_front() {
            Some(item) => {
                assert(self.items@ =~= before.drop_first());
                QueuePop::Item(item)
            },
            None => {
                if self.closed {
                    QueuePop::Closed
                } else {
                    QueuePop::Wait
                }
            },
        }
    }

    /// No more segments will be accepted.
    pub fn close(&mut self)
        ensures
            final(self)@ == queue_step(old(self)@, QueueOp::Close).0,
            final(self)@.closed,
            final(self)@.items == old(self)@.items,
            final(self)@.dropped_segments == old(self)@.dropped_segments,
            final(self)@.capacity == old(self)@.capacity,
    {
        self.closed = true;
    }

    pub fn dropped_segments(&self) -> (r: usize)
        ensures
            r as nat == self@.dropped_segments,
    {
        self.dropped_segments
    }

    pub fn len(&self) -> (r: usize)
        ensures
            r as nat == self@.items.len(),
    {
        self.items.len()
    }
}

/// Eviction removes a prefix made of the dropped segments, possibly followed
/// by one `Finish` item, and keeps the rest in order.
pub proof fn lemma_evict_removes_prefix(items: Seq<QueueItem>, capacity: nat)
    ensures
        ({
            let (kept, n) = evict(items, capacity);
            let removed = items.len() - kept.len();
            &&& n <= removed <= n + 1
            &&& kept == items.skip(removed)
            &&& forall|i: int| 0 <= i < n ==> (#[trigger] items[i]) is Segment
            &&& removed == n + 1 ==> items[n as int] is Finish
        }),
    decreases items.len(),
{
    if items.len() >= capacity && items.len() > 0 {
        match items[0] {
            QueueItem::Segment(_) => {
                let rest = items.drop_first();
                lemma_evict_removes_prefix(rest, capacity);
                let (kept, n) = evict(rest, capacity);
                let removed = rest.len() - kept.len();
                assert(items.skip(removed + 1) =~= rest.skip(removed));
                assert forall|i: int| 0 <= i < n + 1 implies (#[trigger] items[i]) is Segment by {
                    if i > 0 {
                        assert(items[i] == rest[i - 1]);
                    }
                }
                if removed == n + 1 {
                    assert(items[(n + 1) as int] == rest[n as int]);
                }
            },
            QueueItem::Finish { .. } => {
                assert(items.drop_first() =~= items.skip(1));
            },
        }
    } else {
        assert(items.skip(0) =~= items);
    }
}

/// A queue of segments only, with room for at least one item, never holds
/// more than its capacity after a segment is added.
pub proof fn lemma_push_keeps_bound(items: Seq<QueueItem>, capacity: nat, segment: SpeechSegment)
    requires
        capacity > 0,
        forall|i: int| 0 <= i < items.len() ==> (#[trigger] items[i]) is Segment,
    ensures
        evict(items, capacity).0.push(QueueItem::Segment(segment)).len() <= capacity,
    decreases items.len(),
{
    if items.len() >= capacity && items.len() > 0 {
        let rest = items.drop_first();
        assert(items[0] is Segment);
        assert forall|i: int| 0 <= i < rest.len() implies (#[trigger] rest[i]) is Segment by {
            assert(rest[i] == items[i + 1]);
        }
        lemma_push_keeps_bound(rest, capacity, segment);
    }
}

/// A call on the queue, as plain values.
pub enum QueueOp {
    PushSegment(SpeechSegment),
    PushFinish { duration_seconds: u64, dropped_segments: usize },
    Pop,
    Close,
}

/// What a call on the queue answers.
pub enum QueueReply {
    Pushed { dropped: bool },
    Popped(QueuePop),
    Done,
}

/// One call on the queue: the queue afterwards and the answer.
pub open spec fn queue_step(q: QueueView, op: QueueOp) -> (QueueView, QueueReply) {
    match op {
        QueueOp::PushSegment(segment) => if q.closed {
            (q, QueueReply::Pushed { dropped: false })
        } else {
            let (kept, n) = evict(q.items, q.capacity);
            (
                QueueView {
                    items: kept.push(QueueItem::Segment(segment)),
                    dropped_segments: q.dropped_segments + n,
                    ..q
                },
                QueueReply::Pushed { dropped: n > 0 },
            )
        },
        QueueOp::PushFinish { duration_seconds, dropped_segments } => (
            QueueView {
                items: q.items.push(QueueItem::Finish { duration_seconds, dropped_segments }),
                ..q
            },
            QueueReply::Done,
        ),
        QueueOp::Pop => if q.items.len() > 0 {
            (
                QueueView { items: q.items.drop_first(), ..q },
                QueueReply::Popped(QueuePop::Item(q.items[0])),
            )
        } else if q.closed {
            (q, QueueReply::Popped(QueuePop::Closed))
        } else {
            (q, QueueReply::Popped(QueuePop::Wait))
        },
        QueueOp::Close => (QueueView { closed: true, ..q }, QueueReply::Done),
    }
}

/// A series of calls: the queue afterwards and the answers, in order.
pub open spec fn run_queue(q: QueueView, ops: Seq<QueueOp>) -> (QueueView, Seq<QueueReply>)
    decreases ops.len(),
{
    if ops.len() == 0 {
        (q, Seq::empty())
    } else {
        let (q1, r) = queue_step(q, ops[0]);
        let (q2, rs) = run_queue(q1, ops.drop_first());
        (q2, seq![r] + rs)
    }
}

/// Number of `Pop` calls in `ops`.
pub open spec fn pops_in(ops: Seq<QueueOp>) -> nat
    decreases ops.len(),
{
    if ops.len() == 0 {
        0
    } else {
        (if ops[0] is Pop {
            1nat
        } else {
            0nat
        }) + pops_in(ops.drop_first())
    }
}

/// `items` after the first `k` have been taken.
pub open spec fn drained(items: Seq<QueueItem>, k: nat) -> Seq<QueueItem> {
    if k >= items.len() {
        Seq::empty()
    } else {
        items.skip(k as int)
    }
}

/// What call `i` of `ops` answers on a closed queue that held `items`: a push
/// is refused without dropping anything; the pops hand the items out in
/// order and then say `Closed`.
pub open spec fn closed_reply(items: Seq<QueueItem>, ops: Seq<QueueOp>, i: int) -> QueueReply {
    match ops[i] {
        QueueOp::Pop => {
            let p = pops_in(ops.take(i));
            if p < items.len() {
                QueueReply::Popped(QueuePop::Item(items[p as int]))
            } else {
                QueueReply::Popped(QueuePop::Closed)
            }
        },
        _ => QueueReply::Pushed { dropped: false },
    }
}

/// Once closed, a queue stays closed whatever is called on it.
pub proof fn lemma_closed_stays_closed(q: QueueView, ops: Seq<QueueOp>)
    requires
        q.closed,
    ensures
        run_queue(q, ops).0.closed,
    decreases ops.len(),
{
    if ops.len() > 0 {
        lemma_closed_stays_closed(queue_step(q, ops[0]).0, ops.drop_first());
    }
}

/// A closed queue, popped and pushed in any order, hands out the items it
/// held, oldest first, and then says `Closed` without waiting; every segment
/// pushed is refused and adds nothing; its drop count stays as it was.
pub proof fn lemma_closed_queue_drains(q: QueueView, ops: Seq<QueueOp>)
    requires
        q.closed,
        forall|i: int| 0 <= i < ops.len() ==> (#[trigger] ops[i]) is Pop || ops[i] is PushSegment,
    ensures
        run_queue(q, ops).0 == (QueueView { items: drained(q.items, pops_in(ops)), ..q }),
        run_queue(q, ops).1.len() == ops.len(),
        forall|i: int|
            0 <= i < ops.len() ==> #[trigger] run_queue(q, ops).1[i] == closed_reply(q.items, ops, i),
    decreases ops.len(),
{
    if ops.len() == 0 {
        if q.items.len() == 0 {
            assert(drained(q.items, 0) =~= q.items);
        } else {
            assert(q.items.skip(0) =~= q.items);
        }
    } else {
        let op = ops[0];
        let rest = ops.drop_first();
        assert forall|i: int| 0 <= i < rest.len() implies (#[trigger] rest[i]) is Pop || rest[i] is PushSegment by {
            assert(rest[i] == ops[i + 1]);
        }
        let (q1, r) = queue_step(q, op);
        let k: nat = if op is Pop && q.items.len() > 0 { 1 } else { 0 };
        assert(q1 == (QueueView { items: drained(q.items, k), ..q })) by {
            if k == 1 {
                assert(q.items.drop_first() =~= q.items.skip(1));
                if q.items.len() == 1 {
                    assert(q.items.skip(1) =~= Seq::<QueueItem>::empty());
                }
            } else {
                assert(q.items.skip(0) =~= q.items);
                if q.items.len() == 0 {
                    assert(drained(q.items, 0) =~= q.items);
                }
            }
        }
        lemma_closed_queue_drains(q1, rest);
        let (q2, rs) = run_queue(q1, rest);
        // positions in `q1.items` are positions in `q.items` shifted by `k`
        assert forall|j: int| 0 <= j < q1.items.len() implies #[trigger] q1.items[j] == q.items[j + k] by {
        }
        assert(pops_in(ops) == (if op is Pop { 1nat } else { 0nat }) + pops_in(rest));
        assert(drained(q1.items, pops_in(rest)) =~= drained(q.items, pops_in(ops))) by {
            if op is Pop && q.items.len() == 0 {
                assert(drained(q.items, pops_in(ops)) =~= Seq::<QueueItem>::empty());
            }
        }
        let replies = seq![r] + rs;
        assert forall|i: int| 0 <= i < ops.len() implies #[trigger] replies[i] == closed_reply(
            q.items,
            ops,
            i,
        ) by {
            if i == 0 {
                assert(ops.take(0) =~= Seq::<QueueOp>::empty());
                assert(pops_in(ops.take(0)) == 0);
            } else {
                assert(replies[i] == rs[i - 1]);
                assert(rs[i - 1] == closed_reply(q1.items, rest, i - 1));
                assert(rest[i - 1] == ops[i]);
                let t = ops.take(i);
                assert(t[0] == op);
                assert(t.drop_first() =~= rest.take(i - 1));
                assert(pops_in(t) == (if op is Pop { 1nat } else { 0nat }) + pops_in(rest.take(i - 1)));
            }
        }
    }
}

// ---------------------------------------------------------------------------
// The session's audio pipeline
// ---------------------------------------------------------------------------
/// The detector settings of a session: the defaults, with segments capped at
/// the chunk length (`chunk_seconds * 1000` ms, saturating, then cut to 32 bits).
pub open spec fn session_vad_config_of(chunk_seconds: u64) -> VadConfig {
    VadConfig {
        max_segment_ms: (if chunk_seconds * 1000 > u64::MAX {
            u64::MAX
        } else {
            (chunk_seconds * 1000) as u64
        }) as u32,
        ..default_vad_config()
    }
}

pub fn session_vad_config(chunk_seconds: u64) -> (r: VadConfig)
    ensures
        r == session_vad_config_of(chunk_seconds),
{
    let ms: u64 = if chunk_seconds > u64::MAX / 1000 {
        u64::MAX
    } else {
        chunk_seconds * 1000
    };
    VadConfig { max_segment_ms: ms as u32, ..VadConfig::default() }
}

/// The capture stream of a session: 16 kHz mono audio in 20 ms frames.
pub fn session_capture_feed(chunk_seconds: u64) -> (r: CaptureFeed)
    ensures
        r.wf(),
        r@.frame_index == 0,
        r@.frame_ms == 20,
        r@.rest.len() == 0,
        r@.vad.cfg == session_vad_config_of(chunk_seconds),
        r@.vad.frame_bytes == 640,
        r@.vad.ring.len() == 0,
        !r@.vad.active,
{
    let cfg = session_vad_config(chunk_seconds);
    assert(16000u32 * 1u16 * 2 * cfg.max_segment_ms <= u64::MAX) by (nonlinear_arith)
        requires
            cfg.max_segment_ms <= u32::MAX,
    ;
    assert(frame_bytes_for(16000, 1, cfg) == 640);
    let vad = StreamingVad::new(16000, 1, cfg);
    CaptureFeed::new(vad, 20)
}

impl CaptureFeed {
    /// Whether `n` more bytes can be taken without overflowing the frame
    /// clock (the condition of `push_bytes`).
    pub fn can_take(&self, n: usize) -> (b: bool)
        requires
            self.wf(),
        ensures
            b == feed_fits(self@, n as nat),
    {
        let rest: u128 = (self.pending.len() - self.offset) as u128;
        let fb = self.vad.frame_bytes() as u128;
        let frames: u128 = (rest + n as u128) / fb;
        let idx = self.frame_index as u128 + frames;
        proof {
            assert(self@.rest.len() == self.pending@.len() - self.offset);
            assert(frames <= rest + n) by (nonlinear_arith)
                requires
                    frames == (rest + n) / (fb as int),
                    fb >= 1,
            ;
        }
        if idx > u64::MAX as u128 {
            return false;
        }
        assert(idx * (self.frame_ms as u128) <= u64::MAX * u64::MAX) by (nonlinear_arith)
            requires
                idx <= u64::MAX,
                self.frame_ms <= u64::MAX,
        ;
        let total: u128 = idx * self.frame_ms as u128 + self.vad.config().frame_ms as u128;
        total <= u64::MAX as u128
    }
}

/// Adds up the speech time of the transcribed segments.
pub struct SpeechTally {
    pub total_ms: u64,
}

impl SpeechTally {
    pub fn new() -> (r: Self)
        ensures
            r.total_ms == 0,
    {
        SpeechTally { total_ms: 0 }
    }

    /// Adds a segment's speech time (saturating).
    pub fn add(&mut self, speech_ms: u64)
        ensures
            final(self).total_ms == sat_add_u64(old(self).total_ms, speech_ms),
    {
        self.total_ms = self.total_ms.saturating_add(speech_ms);
    }

    /// Whole seconds of speech.
    pub fn speech_seconds(&self) -> (r: u64)
        ensures
            r == self.total_ms / 1000,
    {
        self.total_ms / 1000
    }
}

/// `segment-<start>-<end>.wav`: the scratch file of a segment.
pub open spec fn segment_wav_text(start_ms: u64, end_ms: u64) -> Seq<char> {
    "segment-"@ + dec(start_ms as nat) + seq!['-'] + dec(end_ms as nat) + ".wav"@
}

pub fn segment_wav_name(start_ms: u64, end_ms: u64) -> (r: String)
    ensures
        r@ == segment_wav_text(start_ms, end_ms),
{
    let mut out = chars_of("segment-");
    push_dec(&mut out, start_ms);
    out.push('-');
    push_dec(&mut out, end_ms);
    extend_str(&mut out, ".wav");
    string_of(out.as_slice())
}

// ---------------------------------------------------------------------------
// What the console shows
// ---------------------------------------------------------------------------
/// The language names the console spells out.
pub open spec fn language_name(language: Seq<char>) -> Seq<char> {
    if language == "es"@ {
        "Spanish"@
    } else if language == "en"@ {
        "English"@
    } else {
        language
    }
}

pub fn human_language_name(language: &str) -> (r: String)
    ensures
        r@ == language_name(language@),
{
    let l = chars_of(language);
    let es = chars_of("es");
    let en = chars_of("en");
    if crate::text::chars_eq(l.as_slice(), es.as_slice()) {
        "Spanish".to_string()
    } else if crate::text::chars_eq(l.as_slice(), en.as_slice()) {
        "English".to_string()
    } else {
        language.to_string()
    }
}

/// The capture and transcription stack of the platform.
pub fn backend_name(windows: bool) -> (r: String)
    ensures
        r@ == if windows {
            "windows-wasapi+ffmpeg+whisper.cpp"@
        } else {
            "linux-pipewire+pulse+ffmpeg+whisper.cpp"@
        },
{
    if windows {
        "windows-wasapi+ffmpeg+whisper.cpp".to_string()
    } else {
        "linux-pipewire+pulse+ffmpeg+whisper.cpp".to_string()
    }
}

pub open spec fn banner_text(
    source_name: Seq<char>,
    model_label: Seq<char>,
    language: Seq<char>,
    threads: nat,
    record_audio: bool,
) -> Seq<char> {
    "Lecture\n"@ + Seq::new(32, |i: int| '─') + "\n\nSource      "@ + source_name
        + "\nModel       "@ + model_label + "\nLanguage    "@ + language_name(language)
        + "\nThreads     "@ + dec(threads) + "\nAudio       16 kHz mono\nRecording   "@ + (if record_audio {
        "enabled"@
    } else {
        "disabled"@
    }) + "\n\n● Listening\n\n"@
}

/// What the console shows when a session starts.
pub fn session_banner(
    source: &AudioSource,
    model_label: &str,
    language: &str,
    threads: usize,
    record_audio: bool,
) -> (r: String)
    ensures
        r@ == banner_text(
            display_name_of(source@),
            model_label@,
            language@,
            threads as nat,
            record_audio,
        ),
{
    let mut out = chars_of("Lecture\n");
    let mut k: usize = 0;
    let ghost head = out@;
    while k < 32
        invariant
            k <= 32,
            out@ == head + Seq::new(k as nat, |i: int| '─'),
        decreases 32 - k,
    {
        out.push('─');
        k += 1;
        assert(Seq::new(k as nat, |i: int| '─') =~= Seq::new((k - 1) as nat, |i: int| '─').push(
            '─',
        ));
    }
    extend_str(&mut out, "\n\nSource      ");
    let name = source.display_name();
    extend_str(&mut out, name.as_str());
    extend_str(&mut out, "\nModel       ");
    extend_str(&mut out, model_label);
    extend_str(&mut out, "\nLanguage    ");
    let human = human_language_name(language);
    extend_str(&mut out, human.as_str());
    extend_str(&mut out, "\nThreads     ");
    push_dec(&mut out, threads as u64);
    extend_str(&mut out, "\nAudio       16 kHz mono\nRecording   ");
    if record_audio {
        extend_str(&mut out, "enabled");
    } else {
        extend_str(&mut out, "disabled");
    }
    extend_str(&mut out, "\n\n● Listening\n\n");
    assert(out@ =~= banner_text(
        display_name_of(source@),
        model_label@,
        language@,
        threads as nat,
        record_audio,
    ));
    string_of(out.as_slice())
}

/// What the console shows for a transcribed segment: its start time in
/// brackets, then the trimmed text and a blank line.
pub open spec fn console_text(start_ms: u64, text: Seq<char>) -> Seq<char> {
    seq!['['] + clock((start_ms / 1000) as nat) + "]\n"@ + trim(text) + "\n\n"@
}

pub fn segment_console_text(start_ms: u64, text: &str) -> (r: String)
    ensures
        r@ == console_text(start_ms, text@),
{
    let mut out: Vec<char> = Vec::new();
    out.push('[');
    let c = format_duration_ms(start_ms);
    extend_str(&mut out, c.as_str());
    extend_str(&mut out, "]\n");
    let t = trim_chars(chars_of(text).as_slice());
    extend_chars(&mut out, t.as_slice());
    extend_str(&mut out, "\n\n");
    string_of(out.as_slice())
}

/// What the console shows when a session ends.
pub fn finished_text(duration_seconds: u64, transcript_path: &str, session_path: &str) -> (r: String)
    ensures
        r@ == "Session finished.\n\nDuration        "@ + clock(duration_seconds as nat)
            + "\nSaved:\n"@ + transcript_path@ + seq!['\n'] + session_path@ + seq!['\n'],
{
    let mut out = chars_of("Session finished.\n\nDuration        ");
    let c = format_duration(duration_seconds);
    extend_str(&mut out, c.as_str());
    extend_str(&mut out, "\nSaved:\n");
    extend_str(&mut out, transcript_path);
    out.push('\n');
    extend_str(&mut out, session_path);
    out.push('\n');
    string_of(out.as_slice())
}

// ---------------------------------------------------------------------------
// The transcription side of a session
// ---------------------------------------------------------------------------
/// What the transcription side of a session learns, one thing at a time.
pub enum WorkerEvent {
    /// A segment was taken from the queue.
    Segment { start_ms: u64, end_ms: u64, speech_ms: u64 },
    /// Whisper gave `text` for the segment that starts at `start_ms`.
    Transcribed { start_ms: u64, text: String },
    /// Whisper failed on the segment that starts at `start_ms`.
    Failed { start_ms: u64 },
    /// The end-of-session marker came out of the queue.
    Finish { duration_seconds: u64, dropped_segments: usize },
    /// The queue closed before the end-of-session marker.
    QueueClosed,
}

/// What the transcription side does next.
pub enum WorkerAction {
    /// Write the segment to this scratch file and transcribe it.
    Transcribe { wav_name: String },
    /// Show this text and append the transcript to the session's files.
    Record { console: String },
    /// The transcript is blank: nothing is shown or kept.
    Skip,
    /// Warn that the segment starting at this clock time was not transcribed.
    Warn { at: String },
    /// Close the session's files with these totals.
    Finish { duration_seconds: u64, speech_seconds: u64, dropped_segments: usize },
    /// The session ended without its marker: an error.
    Fail,
}

/// One step of the transcription side: the speech tally is the state.
pub fn worker_step(tally: &mut SpeechTally, event: WorkerEvent) -> (r: WorkerAction)
    ensures
        match event {
            WorkerEvent::Segment { start_ms, end_ms, speech_ms } => {
                &&& final(tally).total_ms == sat_add_u64(old(tally).total_ms, speech_ms)
                &&& r matches WorkerAction::Transcribe { wav_name } && wav_name@
                    == segment_wav_text(start_ms, end_ms)
            },
            WorkerEvent::Transcribed { start_ms, text } => {
                &&& final(tally).total_ms == old(tally).total_ms
                &&& if trim(text@).len() == 0 {
                    r is Skip
                } else {
                    r matches WorkerAction::Record { console } && console@ == console_text(
                        start_ms,
                        text@,
                    )
                }
            },
            WorkerEvent::Failed { start_ms } => {
                &&& final(tally).total_ms == old(tally).total_ms
                &&& r matches WorkerAction::Warn { at } && at@ == clock((start_ms / 1000) as nat)
            },
            WorkerEvent::Finish { duration_seconds, dropped_segments } => {
                &&& final(tally).total_ms == old(tally).total_ms
                &&& r == (WorkerAction::Finish {
                    duration_seconds,
                    speech_seconds: old(tally).total_ms / 1000,
                    dropped_segments,
                })
            },
            WorkerEvent::QueueClosed => {
                &&& final(tally).total_ms == old(tally).total_ms
                &&& r is Fail
            },
        },
{
    match event {
        WorkerEvent::Segment { start_ms, end_ms, speech_ms } => {
            tally.add(speech_ms);
            WorkerAction::Transcribe { wav_name: segment_wav_name(start_ms, end_ms) }
        },
        WorkerEvent::Transcribed { start_ms, text } => {
            let t = trim_chars(chars_of(text.as_str()).as_slice());
            if t.len() == 0 {
                WorkerAction::Skip
            } else {
                WorkerAction::Record { console: segment_console_text(start_ms, text.as_str()) }
            }
        },
        WorkerEvent::Failed { start_ms } => WorkerAction::Warn { at: format_duration_ms(start_ms) },
        WorkerEvent::Finish { duration_seconds, dropped_segments } => WorkerAction::Finish {
            duration_seconds,
            speech_seconds: tally.speech_seconds(),
            dropped_segments,
        },
        WorkerEvent::QueueClosed => WorkerAction::Fail,
    }
}

/// `x` is a stretch of consecutive bytes of `y`.
pub open spec fn is_stretch_of(y: Seq<u8>, x: Seq<u8>) -> bool {
    exists|a: int, b: int| 0 <= a <= b <= y.len() && x == y.subrange(a, b)
}

proof fn lemma_feed_segments_from(
    v: VadView,
    consumed: Seq<u8>,
    idx: nat,
    frame_ms: u64,
    rest: Seq<u8>,
)
    requires
        holds_recent_audio(v, consumed),
    ensures
        forall|k: int|
            0 <= k < feed(v, idx, frame_ms, rest).3.len() ==> is_stretch_of(
                consumed + rest,
                #[trigger] feed(v, idx, frame_ms, rest).3[k].pcm,
            ) && feed(v, idx, frame_ms, rest).3[k].pcm.len() >= v.min_segment_bytes,
        holds_recent_audio(
            feed(v, idx, frame_ms, rest).0,
            consumed + rest.take(rest.len() - feed(v, idx, frame_ms, rest).2.len()),
        ),
        feed(v, idx, frame_ms, rest).2 == rest.skip(rest.len() - feed(v, idx, frame_ms, rest).2.len()),
        feed(v, idx, frame_ms, rest).2.len() <= rest.len(),
    decreases rest.len(),
{
    let fb = v.frame_bytes;
    if fb == 0 || rest.len() < fb {
        assert(rest.take(0) =~= Seq::<u8>::empty());
        assert(consumed + rest.take(0) =~= consumed);
        assert(rest.skip(0) =~= rest);
    } else {
        let frame = rest.take(fb as int);
        let t = (idx * frame_ms) as u64;
        let (v1, o) = push_step(v, frame, t);
        lemma_push_step_recent(v, consumed, frame, t);
        let c1 = consumed + frame;
        let r1 = rest.skip(fb as int);
        lemma_feed_segments_from(v1, c1, idx + 1, frame_ms, r1);
        assert(c1 + r1 =~= consumed + rest);
        let (v2, i2, rr, segs) = feed(v1, idx + 1, frame_ms, r1);
        let all = opt_seq(o) + segs;
        assert forall|k: int| 0 <= k < all.len() implies is_stretch_of(
            consumed + rest,
            #[trigger] all[k].pcm,
        ) && all[k].pcm.len() >= v.min_segment_bytes by {
            if k < opt_seq(o).len() {
                let s = o.unwrap();
                assert(all[k] == s);
                let y = consumed + rest;
                let b = c1.len();
                let a = b - s.pcm.len();
                assert(y.subrange(a, b as int) =~= c1.skip(c1.len() - s.pcm.len()));
            } else {
                assert(all[k] == segs[k - opt_seq(o).len()]);
            }
        }
        assert(c1 + r1.take(r1.len() - rr.len()) =~= consumed + rest.take(rest.len() - rr.len()));
        assert(rest.skip(rest.len() - rr.len()) =~= r1.skip(r1.len() - rr.len()));
    }
}

/// Every segment reported while the capture stream is fed to a new detector
/// is a stretch of consecutive captured audio, at least the minimum segment
/// size long; so is the segment closed when capture ends.
pub proof fn lemma_segments_are_captured_audio(v: VadView, idx: nat, frame_ms: u64, stream: Seq<u8>, end_ms: u64)
    requires
        v.ring.len() == 0,
        !v.active,
    ensures
        ({
            let (v1, i1, rest, segs) = feed(v, idx, frame_ms, stream);
            &&& forall|k: int|
                0 <= k < segs.len() ==> is_stretch_of(stream, #[trigger] segs[k].pcm)
                    && segs[k].pcm.len() >= v.min_segment_bytes
            &&& flush_step(v1, end_ms).1 matches Some(s) ==> is_stretch_of(stream, s.pcm)
                && s.pcm.len() >= v.min_segment_bytes
        }),
{
    lemma_fresh_holds_recent(v);
    lemma_feed_segments_from(v, Seq::empty(), idx, frame_ms, stream);
    assert(Seq::<u8>::empty() + stream =~= stream);
    let (v1, i1, rest, segs) = feed(v, idx, frame_ms, stream);
    let consumed = stream.take(stream.len() - rest.len());
    assert(Seq::<u8>::empty() + consumed =~= consumed);
    lemma_feed_keeps_min(v, idx, frame_ms, stream);
    lemma_flush_step_recent(v1, consumed, end_ms);
    if let Some(s) = flush_step(v1, end_ms).1 {
        let a = consumed.len() - s.pcm.len();
        assert(stream.subrange(a, consumed.len() as int) =~= consumed.skip(a));
    }
}

proof fn lemma_feed_keeps_min(v: VadView, idx: nat, frame_ms: u64, rest: Seq<u8>)
    ensures
        feed(v, idx, frame_ms, rest).0.min_segment_bytes == v.min_segment_bytes,
    decreases rest.len(),
{
    let fb = v.frame_bytes;
    if !(fb == 0 || rest.len() < fb) {
        let (v1, o) = push_step(v, rest.take(fb as int), (idx * frame_ms) as u64);
        lemma_feed_keeps_min(v1, idx + 1, frame_ms, rest.skip(fb as int));
    }
}

} // verus!
