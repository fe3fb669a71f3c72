//! Pairing selected snapshots with full-size frames.
//!
//! Motion is detected on a small stream; snapshots are taken from a second, full-size stream.
//! The processor keeps a short buffer of full-size frames, matches each selected frame to the
//! buffered frame nearest in time, and hands over a session's captures once all of its
//! snapshots are matched and the session has finished. Writing files and publishing happen in
//! the application.

use vstd::prelude::*;
use crate::config::MotionDetectionConfig;
use crate::ffmpeg::{EpochNanos, FrameView, VideoFrame};
use crate::motion::MotionEvent;
use crate::session::{
    CaptureView, EventView, MotionSessionCapture, MotionSessionEvent, MotionSessionSummary,
    MotionSnapshotSelection, capture_views, event_views,
};

verus! {

// ---------------------------------------------------------------------------------------------
// Frame numbering across reconnects
// ---------------------------------------------------------------------------------------------

/// Keeps frame indices growing when a stream restarts from index 0 after a reconnect.
#[derive(Debug)]
pub struct FrameIndexState {
    offset: u64,
    last_raw_index: Option<u64>,
}

pub struct IndexStateModel {
    pub offset: u64,
    pub last_raw_index: Option<u64>,
}

impl View for FrameIndexState {
    type V = IndexStateModel;

    closed spec fn view(&self) -> IndexStateModel {
        IndexStateModel { offset: self.offset, last_raw_index: self.last_raw_index }
    }
}

/// When a raw index goes back, the offset grows by the previous raw index plus one; the frame
/// then gets its raw index plus the offset.
pub open spec fn normalize_step(s: IndexStateModel, raw: u64) -> (IndexStateModel, u64) {
    let offset = match s.last_raw_index {
        Some(last) => if raw < last {
            s.offset.saturating_add(last.saturating_add(1))
        } else {
            s.offset
        },
        None => s.offset,
    };
    (IndexStateModel { offset, last_raw_index: Some(raw) }, raw.saturating_add(offset))
}

impl FrameIndexState {
    pub fn new() -> (r: FrameIndexState)
        ensures
            r@ == (IndexStateModel { offset: 0, last_raw_index: None }),
    {
        FrameIndexState { offset: 0, last_raw_index: None }
    }

    /// Renumbers `frame`; everything else about it is kept.
    pub fn normalize(&mut self, frame: VideoFrame) -> (r: VideoFrame)
        ensures
            (final(self)@, r.index) == normalize_step(old(self)@, frame.index),
            r@ == (FrameView { index: r.index, ..frame@ }),
    {
        let mut frame = frame;
        match self.last_raw_index {
            Some(last_raw_index) => {
                if frame.index < last_raw_index {
                    self.offset = self.offset.saturating_add(last_raw_index.saturating_add(1));
                }
            },
            None => {},
        }
        self.last_raw_index = Some(frame.index);
        frame.index = frame.index.saturating_add(self.offset);
        frame
    }
}

/// Law: renumbered indices never go back as long as they stay below `u64::MAX`: a raw index at
/// or after the previous one keeps its distance, and a raw index that goes back (a restarted
/// stream) lands after the previous renumbered frame.
pub proof fn law_normalized_indices_do_not_go_back(s: IndexStateModel, previous_raw: u64, raw: u64)
    requires
        s.last_raw_index == Some(previous_raw),
        previous_raw + s.offset + raw + 1 < u64::MAX,
    ensures
        normalize_step(s, raw).1 >= previous_raw + s.offset,
        raw < previous_raw ==> normalize_step(s, raw).1 > previous_raw + s.offset,
{
}

/// Law: numbering continues one by one across a restarted stream: the next raw index of a run,
/// and the first index (0) of a restarted run after a run that reached a raw index above 0, are
/// numbered one after the previous frame, as long as numbers stay below `u64::MAX`.
pub proof fn law_restarted_runs_number_consecutively(s: IndexStateModel, previous_raw: u64, raw: u64)
    requires
        s.last_raw_index == Some(previous_raw),
        raw == previous_raw + 1 || (raw == 0 && previous_raw > 0),
        previous_raw + s.offset + 2 < u64::MAX,
    ensures
        normalize_step(s, raw).1 == previous_raw + s.offset + 1,
{
}

// ---------------------------------------------------------------------------------------------
// The full-size frame buffer
// ---------------------------------------------------------------------------------------------

/// `|a - b|` in nanoseconds.
pub open spec fn time_distance(a: EpochNanos, b: EpochNanos) -> int {
    if a >= b {
        a - b
    } else {
        b - a
    }
}

/// The distance between two instants, in nanoseconds.
pub fn abs_time_diff(left: EpochNanos, right: EpochNanos) -> (r: u64)
    ensures
        r == time_distance(left, right),
{
    if left >= right {
        ((left as i128) - (right as i128)) as u64
    } else {
        ((right as i128) - (left as i128)) as u64
    }
}

/// The first of `frames` nearest in time to `target`.
pub open spec fn closest_in_time(frames: Seq<FrameView>, target: EpochNanos) -> FrameView
    recommends
        frames.len() > 0,
    decreases frames.len(),
{
    if frames.len() <= 1 {
        frames[0]
    } else {
        let best = closest_in_time(frames.drop_last(), target);
        if time_distance(frames.last().captured_at, target) < time_distance(best.captured_at, target) {
            frames.last()
        } else {
            best
        }
    }
}

/// Drops frames from the front while they are more than `max_age` nanoseconds older than
/// `latest`.
pub open spec fn drop_aged(frames: Seq<FrameView>, latest: EpochNanos, max_age: int) -> Seq<FrameView>
    decreases frames.len(),
{
    if frames.len() > 0 && frames[0].captured_at <= latest && latest - frames[0].captured_at
        > max_age {
        drop_aged(frames.drop_first(), latest, max_age)
    } else {
        frames
    }
}

pub struct BufferModel {
    pub frames: Seq<FrameView>,
    pub max_age_seconds: u64,
}

pub open spec fn max_age_nanos(b: BufferModel) -> int {
    b.max_age_seconds * 1_000_000_000
}

/// Appends a frame and drops the frames that are too old next to it.
pub open spec fn buffer_push(b: BufferModel, frame: FrameView) -> BufferModel {
    let frames = b.frames.push(frame);
    BufferModel { frames: drop_aged(frames, frame.captured_at, max_age_nanos(b)), ..b }
}

/// The buffered frame for a snapshot taken at `target`: none while the buffer is empty, or,
/// unless `force`, while the newest buffered frame is older than `target`; otherwise the
/// buffered frame nearest `target`.
pub open spec fn buffer_resolve(b: BufferModel, target: EpochNanos, force: bool) -> Option<FrameView> {
    if b.frames.len() == 0 {
        None
    } else if !force && b.frames.last().captured_at < target {
        None
    } else {
        Some(closest_in_time(b.frames, target))
    }
}

/// Recent full-size frames, oldest first.
pub struct OutputFrameBuffer {
    frames: std::collections::VecDeque<VideoFrame>,
    max_age_seconds: u64,
}

pub open spec fn frame_views(s: Seq<VideoFrame>) -> Seq<FrameView> {
    s.map_values(|f: VideoFrame| f@)
}

impl View for OutputFrameBuffer {
    type V = BufferModel;

    closed spec fn view(&self) -> BufferModel {
        BufferModel { frames: frame_views(self.frames@), max_age_seconds: self.max_age_seconds }
    }
}

impl OutputFrameBuffer {
    pub open spec fn new_model(settings: &MotionDetectionConfig) -> BufferModel {
        BufferModel {
            frames: Seq::empty(),
            max_age_seconds: settings.motion_snapshot_delay_seconds.saturating_add(
                settings.motion_end_grace_seconds,
            ).saturating_add(2),
        }
    }

    /// A buffer long enough to cover the snapshot delay, the end-of-motion grace time and two
    /// more seconds.
    pub fn new(settings: &MotionDetectionConfig) -> (r: OutputFrameBuffer)
        ensures
            r@ == (BufferModel {
                frames: Seq::empty(),
                max_age_seconds: settings.motion_snapshot_delay_seconds.saturating_add(
                    settings.motion_end_grace_seconds,
                ).saturating_add(2),
            }),
    {
        let buffer_seconds = settings.motion_snapshot_delay_seconds.saturating_add(
            settings.motion_end_grace_seconds,
        ).saturating_add(2);
        let r = OutputFrameBuffer {
            frames: std::collections::VecDeque::new(),
            max_age_seconds: buffer_seconds,
        };
        assert(r@.frames =~= Seq::<FrameView>::empty());
        r
    }

    pub fn push(&mut self, frame: VideoFrame)
        ensures
            final(self)@ == buffer_push(old(self)@, frame@),
    {
        let ghost f = frame@;
        self.frames.push_back(frame);
        assert(self@.frames =~= old(self)@.frames.push(f));
        self.prune();
    }

    fn prune(&mut self)
        requires
            old(self).frames@.len() > 0,
        ensures
            final(self)@ == (BufferModel {
                frames: drop_aged(
                    old(self)@.frames,
                    old(self)@.frames.last().captured_at,
                    max_age_nanos(old(self)@),
                ),
                ..old(self)@
            }),
    {
        let latest = self.frames[self.frames.len() - 1].captured_at;
        let ghost before = self@;
        let max_age: i128 = (self.max_age_seconds as i128) * 1_000_000_000;
        assert(self@.frames.last().captured_at == latest);
        loop
            invariant
                self.max_age_seconds == before.max_age_seconds,
                max_age == max_age_nanos(before),
                drop_aged(self@.frames, latest, max_age as int) == drop_aged(
                    before.frames,
                    latest,
                    max_age as int,
                ),
            ensures
                self@.frames == drop_aged(before.frames, latest, max_age as int),
            decreases self.frames.len(),
        {
            if self.frames.len() == 0 {
                assert(self@.frames =~= Seq::<FrameView>::empty());
                break ;
            }
            let oldest = self.frames[0].captured_at;
            assert(self@.frames[0].captured_at == oldest);
            if oldest <= latest && (latest as i128) - (oldest as i128) > max_age {
                let ghost queued = self@.frames;
                let _ = self.frames.pop_front();
                assert(self@.frames =~= queued.drop_first());
            } else {
                break ;
            }
        }
    }

    /// The buffered frame for a snapshot taken at `target_time` (see [`buffer_resolve`]).
    pub fn resolve(&self, target_time: EpochNanos, force: bool) -> (r: Option<VideoFrame>)
        ensures
            match buffer_resolve(self@, target_time, force) {
                Some(f) => r matches Some(g) && g@ == f,
                None => r is None,
            },
    {
        let n = self.frames.len();
        if n == 0 {
            return None;
        }
        let latest_time = self.frames[n - 1].captured_at;
        assert(self@.frames.last().captured_at == latest_time);
        if !force && latest_time < target_time {
            return None;
        }
        let ghost views = self@.frames;
        let mut best: usize = 0;
        let mut best_distance = abs_time_diff(self.frames[0].captured_at, target_time);
        let mut i: usize = 1;
        assert(views.take(1).drop_last().len() == 0);
        while i < n
            invariant
                views == frame_views(self.frames@),
                n == views.len(),
                1 <= i <= n,
                best < i,
                best_distance == time_distance(views[best as int].captured_at, target_time),
                views[best as int] == closest_in_time(views.take(i as int), target_time),
            decreases n - i,
        {
            let d = abs_time_diff(self.frames[i].captured_at, target_time);
            assert(views.take(i + 1).drop_last() =~= views.take(i as int));
            if d < best_distance {
                best = i;
                best_distance = d;
            }
            i = i + 1;
        }
        assert(views.take(n as int) =~= views);
        Some(self.frames[best].clone())
    }
}


// ---------------------------------------------------------------------------------------------
// Matching snapshots and emitting sessions
// ---------------------------------------------------------------------------------------------

/// A selected snapshot matched to a full-size frame.
#[derive(Debug)]
pub struct ResolvedSnapshot {
    pub session_id: u64,
    pub frame: VideoFrame,
    pub event: MotionEvent,
}

/// A snapshot choice, full-size or not yet matched.
pub struct SnapshotView {
    pub session_id: u64,
    pub frame: FrameView,
    pub event: MotionEvent,
}

impl View for ResolvedSnapshot {
    type V = SnapshotView;

    open spec fn view(&self) -> SnapshotView {
        SnapshotView { session_id: self.session_id, frame: self.frame@, event: self.event }
    }
}

impl View for MotionSnapshotSelection {
    type V = SnapshotView;

    open spec fn view(&self) -> SnapshotView {
        SnapshotView { session_id: self.session_id, frame: self.frame@, event: self.event }
    }
}

pub open spec fn resolved_views(s: Seq<ResolvedSnapshot>) -> Seq<SnapshotView> {
    s.map_values(|r: ResolvedSnapshot| r@)
}

pub open spec fn selection_views(s: Seq<MotionSnapshotSelection>) -> Seq<SnapshotView> {
    s.map_values(|r: MotionSnapshotSelection| r@)
}

pub struct ProcessorModel {
    pub buffer: BufferModel,
    pub pending: Seq<SnapshotView>,
    pub resolved: Seq<SnapshotView>,
    pub finished: Seq<MotionSessionSummary>,
}

/// The sessions handed over by one step: the captures of each emitted session, in the order the
/// sessions are emitted, and the sessions that finished with no matched snapshot.
pub struct EmittedSessions {
    pub batches: Vec<Vec<MotionSessionCapture>>,
    pub without_snapshot: Vec<u64>,
}

pub struct EmittedModel {
    pub batches: Seq<Seq<CaptureView>>,
    pub without_snapshot: Seq<u64>,
}

impl View for EmittedSessions {
    type V = EmittedModel;

    open spec fn view(&self) -> EmittedModel {
        EmittedModel {
            batches: self.batches@.map_values(|b: Vec<MotionSessionCapture>| capture_views(b@)),
            without_snapshot: self.without_snapshot@,
        }
    }
}

pub open spec fn nothing_emitted() -> EmittedModel {
    EmittedModel { batches: Seq::empty(), without_snapshot: Seq::empty() }
}

pub open spec fn emitted_concat(a: EmittedModel, b: EmittedModel) -> EmittedModel {
    EmittedModel {
        batches: a.batches + b.batches,
        without_snapshot: a.without_snapshot + b.without_snapshot,
    }
}

/// Some snapshot of session `id` is still waiting for a full-size frame.
pub open spec fn has_pending(pending: Seq<SnapshotView>, id: u64) -> bool {
    exists|i: int| 0 <= i < pending.len() && (#[trigger] pending[i]).session_id == id
}

/// The snapshots of session `id`, in the order they were matched.
pub open spec fn session_snapshots(s: Seq<SnapshotView>, id: u64) -> Seq<SnapshotView>
    decreases s.len(),
{
    if s.len() == 0 {
        Seq::empty()
    } else if s.last().session_id == id {
        session_snapshots(s.drop_last(), id).push(s.last())
    } else {
        session_snapshots(s.drop_last(), id)
    }
}

/// The snapshots of the other sessions, in order.
pub open spec fn other_snapshots(s: Seq<SnapshotView>, id: u64) -> Seq<SnapshotView>
    decreases s.len(),
{
    if s.len() == 0 {
        Seq::empty()
    } else if s.last().session_id != id {
        other_snapshots(s.drop_last(), id).push(s.last())
    } else {
        other_snapshots(s.drop_last(), id)
    }
}

pub open spec fn snapshot_capture(r: SnapshotView, summary: MotionSessionSummary) -> CaptureView {
    CaptureView {
        frame: r.frame,
        event: r.event,
        summary: MotionSessionSummary { session_id: 0, ..summary },
    }
}

/// `t` with `x` inserted in frame-index order, unless a capture of that frame is there already.
pub open spec fn insert_capture(t: Seq<CaptureView>, x: CaptureView) -> Seq<CaptureView>
    decreases t.len(),
{
    if t.len() == 0 {
        seq![x]
    } else if x.frame.index < t[0].frame.index {
        seq![x] + t
    } else if x.frame.index == t[0].frame.index {
        t
    } else {
        seq![t[0]] + insert_capture(t.drop_first(), x)
    }
}

/// The captures ordered by frame index, one per frame, the first kept.
pub open spec fn sorted_unique_captures(s: Seq<CaptureView>) -> Seq<CaptureView>
    decreases s.len(),
{
    if s.len() == 0 {
        Seq::empty()
    } else {
        insert_capture(sorted_unique_captures(s.drop_last()), s.last())
    }
}

/// The captures of a finished session from its matched snapshots.
pub open spec fn session_batch(snapshots: Seq<SnapshotView>, summary: MotionSessionSummary) -> Seq<CaptureView> {
    sorted_unique_captures(snapshots.map_values(|r: SnapshotView| snapshot_capture(r, summary)))
}

/// Goes through the finished sessions in order; each one with no pending snapshot is emitted
/// (with its matched snapshots, or as a session without any) and forgotten.
pub open spec fn emit_finished(
    pending: Seq<SnapshotView>,
    resolved: Seq<SnapshotView>,
    finished: Seq<MotionSessionSummary>,
) -> (Seq<SnapshotView>, Seq<MotionSessionSummary>, EmittedModel)
    decreases finished.len(),
{
    if finished.len() == 0 {
        (resolved, finished, nothing_emitted())
    } else {
        let (resolved1, kept1, out1) = emit_finished(pending, resolved, finished.drop_last());
        let summary = finished.last();
        let id = summary.session_id;
        if has_pending(pending, id) {
            (resolved1, kept1.push(summary), out1)
        } else {
            let mine = session_snapshots(resolved1, id);
            let rest = other_snapshots(resolved1, id);
            if mine.len() == 0 {
                (rest, kept1, emitted_concat(out1, EmittedModel { batches: Seq::empty(), without_snapshot: seq![id] }))
            } else {
                (rest, kept1, emitted_concat(out1, EmittedModel { batches: seq![session_batch(mine, summary)], without_snapshot: Seq::empty() }))
            }
        }
    }
}

pub open spec fn try_emit_step(p: ProcessorModel) -> (ProcessorModel, EmittedModel) {
    let (resolved, finished, out) = emit_finished(p.pending, p.resolved, p.finished);
    (ProcessorModel { resolved, finished, ..p }, out)
}

/// Matches the pending snapshots in order; those with no frame yet stay pending.
pub open spec fn resolve_all(b: BufferModel, pending: Seq<SnapshotView>, force: bool) -> (Seq<SnapshotView>, Seq<SnapshotView>)
    decreases pending.len(),
{
    if pending.len() == 0 {
        (Seq::empty(), Seq::empty())
    } else {
        let (matched, waiting) = resolve_all(b, pending.drop_last(), force);
        let request = pending.last();
        match buffer_resolve(b, request.frame.captured_at, force) {
            Some(f) => (matched.push(SnapshotView { frame: f, ..request }), waiting),
            None => (matched, waiting.push(request)),
        }
    }
}

pub open spec fn resolve_pending_step(p: ProcessorModel, force: bool) -> ProcessorModel {
    let (matched, waiting) = resolve_all(p.buffer, p.pending, force);
    ProcessorModel { resolved: p.resolved + matched, pending: waiting, ..p }
}

/// Records a finished session, replacing the first earlier record of the same id.
pub open spec fn record_finished(finished: Seq<MotionSessionSummary>, summary: MotionSessionSummary) -> Seq<MotionSessionSummary>
    decreases finished.len(),
{
    if finished.len() == 0 {
        seq![summary]
    } else if finished[0].session_id == summary.session_id {
        finished.update(0, summary)
    } else {
        seq![finished[0]] + record_finished(finished.drop_first(), summary)
    }
}

/// One session event: a selected snapshot is matched at once when the buffer can, or waits; a
/// finished session is recorded.
pub open spec fn handle_event(p: ProcessorModel, e: EventView) -> ProcessorModel {
    match e {
        EventView::SnapshotSelected { session_id, frame, event } => {
            let request = SnapshotView { session_id, frame, event };
            match buffer_resolve(p.buffer, frame.captured_at, false) {
                Some(f) => ProcessorModel { resolved: p.resolved.push(SnapshotView { frame: f, ..request }), ..p },
                None => ProcessorModel { pending: p.pending.push(request), ..p },
            }
        },
        EventView::SessionFinished(summary) => ProcessorModel { finished: record_finished(p.finished, summary), ..p },
    }
}

pub open spec fn handle_events(p: ProcessorModel, events: Seq<EventView>) -> ProcessorModel
    decreases events.len(),
{
    if events.len() == 0 {
        p
    } else {
        handle_event(handle_events(p, events.drop_last()), events.last())
    }
}


proof fn lemma_record_finished(f: Seq<MotionSessionSummary>, x: MotionSessionSummary, p: int)
    requires
        0 <= p <= f.len(),
        forall|k: int| 0 <= k < p ==> f[k].session_id != x.session_id,
        p < f.len() ==> f[p].session_id == x.session_id,
    ensures
        record_finished(f, x) == (if p < f.len() {
            f.update(p, x)
        } else {
            f.push(x)
        }),
    decreases f.len(),
{
    if f.len() == 0 {
        assert(f.push(x) =~= seq![x]);
    } else if p == 0 {
    } else {
        let rest = f.drop_first();
        lemma_record_finished(rest, x, p - 1);
        if p < f.len() {
            assert(seq![f[0]] + rest.update(p - 1, x) =~= f.update(p, x));
        } else {
            assert(seq![f[0]] + rest.push(x) =~= f.push(x));
        }
    }
}

proof fn lemma_insert_capture(t: Seq<CaptureView>, x: CaptureView, p: int)
    requires
        0 <= p <= t.len(),
        forall|k: int| 0 <= k < p ==> t[k].frame.index < x.frame.index,
        p < t.len() ==> t[p].frame.index >= x.frame.index,
    ensures
        insert_capture(t, x) == (if p < t.len() && t[p].frame.index == x.frame.index {
            t
        } else {
            t.insert(p, x)
        }),
    decreases t.len(),
{
    if t.len() == 0 {
        assert(t.insert(p, x) =~= seq![x]);
    } else if p == 0 {
        if x.frame.index < t[0].frame.index {
            assert(t.insert(0, x) =~= seq![x] + t);
        }
    } else {
        let rest = t.drop_first();
        lemma_insert_capture(rest, x, p - 1);
        if p < t.len() && t[p].frame.index == x.frame.index {
            assert(seq![t[0]] + rest =~= t);
        } else {
            assert(seq![t[0]] + rest.insert(p - 1, x) =~= t.insert(p, x));
        }
    }
}

fn insert_capture_by_index(out: &mut Vec<MotionSessionCapture>, x: MotionSessionCapture)
    ensures
        capture_views(final(out)@) == insert_capture(capture_views(old(out)@), x@),
{
    let ghost t = capture_views(out@);
    let mut p: usize = 0;
    while p < out.len() && out[p].frame.index < x.frame.index
        invariant
            t == capture_views(out@),
            p <= out.len(),
            forall|k: int| 0 <= k < p ==> t[k].frame.index < x.frame.index,
        decreases out.len() - p,
    {
        p = p + 1;
    }
    proof {
        lemma_insert_capture(t, x@, p as int);
    }
    if p < out.len() && out[p].frame.index == x.frame.index {
        return;
    }
    out.insert(p, x);
    assert(capture_views(out@) =~= t.insert(p as int, x@));
}

/// The state of the processor thread, apart from its outputs.
///
/// Matched snapshots and finished sessions are kept in vectors, in the order they arrive, rather
/// than in maps keyed by session id: sessions that become ready in the same call are emitted in
/// the order they finished, which a hash map would leave to the order of its walk, and that
/// order cannot be stated. At most one finished session is kept per id (a repeated notice
/// replaces the earlier one, as a map insert would).
pub struct ProcessorState {
    output_buffer: OutputFrameBuffer,
    pending_requests: Vec<MotionSnapshotSelection>,
    resolved_snapshots: Vec<ResolvedSnapshot>,
    finished_sessions: Vec<MotionSessionSummary>,
}

impl View for ProcessorState {
    type V = ProcessorModel;

    closed spec fn view(&self) -> ProcessorModel {
        ProcessorModel {
            buffer: self.output_buffer@,
            pending: selection_views(self.pending_requests@),
            resolved: resolved_views(self.resolved_snapshots@),
            finished: self.finished_sessions@,
        }
    }
}

impl ProcessorState {
    pub fn new(settings: &MotionDetectionConfig) -> (r: ProcessorState)
        ensures
            r@ == (ProcessorModel {
                buffer: OutputFrameBuffer::new_model(settings),
                pending: Seq::empty(),
                resolved: Seq::empty(),
                finished: Seq::empty(),
            }),
    {
        let r = ProcessorState {
            output_buffer: OutputFrameBuffer::new(settings),
            pending_requests: Vec::new(),
            resolved_snapshots: Vec::new(),
            finished_sessions: Vec::new(),
        };
        assert(r@.pending =~= Seq::<SnapshotView>::empty());
        assert(r@.resolved =~= Seq::<SnapshotView>::empty());
        assert(r@.finished =~= Seq::<MotionSessionSummary>::empty());
        r
    }

    fn handle_event(&mut self, event: MotionSessionEvent)
        ensures
            final(self)@ == handle_event(old(self)@, event@),
    {
        match event {
            MotionSessionEvent::SnapshotSelected(selection) => {
                match self.output_buffer.resolve(selection.frame.captured_at, false) {
                    Some(frame) => {
                        let ghost before = self@.resolved;
                        let resolved = ResolvedSnapshot {
                            session_id: selection.session_id,
                            frame,
                            event: selection.event,
                        };
                        self.resolved_snapshots.push(resolved);
                        assert(self@.resolved =~= before.push(resolved@));
                    },
                    None => {
                        let ghost before = self@.pending;
                        let ghost v = selection@;
                        self.pending_requests.push(selection);
                        assert(self@.pending =~= before.push(v));
                    },
                }
            },
            MotionSessionEvent::SessionFinished(summary) => {
                let mut p: usize = 0;
                while p < self.finished_sessions.len() && self.finished_sessions[p].session_id
                    != summary.session_id
                    invariant
                        p <= self.finished_sessions.len(),
                        forall|k: int|
                            0 <= k < p ==> self.finished_sessions@[k].session_id
                                != summary.session_id,
                    decreases self.finished_sessions.len() - p,
                {
                    p = p + 1;
                }
                proof {
                    lemma_record_finished(self.finished_sessions@, summary, p as int);
                }
                if p < self.finished_sessions.len() {
                    self.finished_sessions.set(p, summary);
                } else {
                    self.finished_sessions.push(summary);
                }
            },
        }
    }

    /// Takes the session events of one detection frame: each selected snapshot is matched now
    /// if the buffer allows, finished sessions are recorded, and every session that can be
    /// emitted is.
    pub fn handle_session_events(&mut self, events: Vec<MotionSessionEvent>) -> (r: EmittedSessions)
        ensures
            (final(self)@, r@) == try_emit_step(handle_events(old(self)@, event_views(events@))),
    {
        let ghost start = self@;
        let ghost all = event_views(events@);
        let mut events = events;
        let ghost mut k: int = 0;
        while events.len() > 0
            invariant
                0 <= k <= all.len(),
                event_views(events@) == all.skip(k),
                self@ == handle_events(start, all.take(k)),
            decreases events.len(),
        {
            proof {
                assert(event_views(events@).len() > 0);
                assert(all.skip(k).len() > 0);
                assert(k < all.len());
            }
            let ghost prior = events@;
            let event = events.remove(0);
            proof {
                assert(all.skip(k)[0] == event@);
                assert(all.take(k + 1).drop_last() =~= all.take(k));
                assert(all.take(k + 1).last() == all[k]);
                assert(events@ =~= prior.subrange(1, prior.len() as int));
                assert forall|i: int| 0 <= i < events@.len() implies event_views(events@)[i] == all.skip(k + 1)[i] by {
                    assert(event_views(prior)[i + 1] == all.skip(k)[i + 1]);
                }
                assert(event_views(events@) =~= all.skip(k + 1));
            }
            self.handle_event(event);
            proof {
                k = k + 1;
            }
        }
        proof {
            assert(all.skip(k).len() == 0);
            assert(all.take(k) =~= all);
        }
        self.try_emit_finished_sessions()
    }

    /// Buffers a full-size frame, matches the snapshots waiting for it, and emits the sessions
    /// that can now be emitted.
    pub fn push_output_frame(&mut self, frame: VideoFrame) -> (r: EmittedSessions)
        ensures
            (final(self)@, r@) == try_emit_step(
                resolve_pending_step(
                    ProcessorModel { buffer: buffer_push(old(self)@.buffer, frame@), ..old(self)@ },
                    false,
                ),
            ),
    {
        self.output_buffer.push(frame);
        self.resolve_pending_requests(false);
        self.try_emit_finished_sessions()
    }

    /// Matches the waiting snapshots in order; with `force`, any buffered frame will do.
    pub fn resolve_pending_requests(&mut self, force: bool)
        ensures
            final(self)@ == resolve_pending_step(old(self)@, force),
    {
        let ghost start = self@;
        let mut requests: Vec<MotionSnapshotSelection> = Vec::new();
        std::mem::swap(&mut requests, &mut self.pending_requests);
        let ghost all = selection_views(requests@);
        assert(all == start.pending);
        let mut still_pending: Vec<MotionSnapshotSelection> = Vec::new();
        let ghost mut k: int = 0;
        assert(resolve_all(start.buffer, all.take(0), force).0 =~= Seq::<SnapshotView>::empty());
        assert(start.resolved + Seq::<SnapshotView>::empty() =~= start.resolved);
        while requests.len() > 0
            invariant
                0 <= k <= all.len(),
                selection_views(requests@) == all.skip(k),
                self@.buffer == start.buffer,
                self@.resolved == start.resolved + resolve_all(start.buffer, all.take(k), force).0,
                selection_views(still_pending@) == resolve_all(start.buffer, all.take(k), force).1,
                self@.finished == start.finished,
            decreases requests.len(),
        {
            proof {
                assert(selection_views(requests@).len() > 0);
                assert(all.skip(k).len() > 0);
                assert(k < all.len());
            }
            let ghost prior = requests@;
            let request = requests.remove(0);
            proof {
                assert(all.skip(k)[0] == request@);
                assert(all.take(k + 1).drop_last() =~= all.take(k));
                assert(all.take(k + 1).last() == all[k]);
                assert(requests@ =~= prior.subrange(1, prior.len() as int));
                assert forall|i: int| 0 <= i < requests@.len() implies selection_views(requests@)[i] == all.skip(k + 1)[i] by {
                    assert(selection_views(prior)[i + 1] == all.skip(k)[i + 1]);
                }
                assert(selection_views(requests@) =~= all.skip(k + 1));
            }
            let ghost prev = resolve_all(start.buffer, all.take(k), force);
            match self.output_buffer.resolve(request.frame.captured_at, force) {
                Some(frame) => {
                    let ghost before = self@.resolved;
                    let resolved = ResolvedSnapshot {
                        session_id: request.session_id,
                        frame,
                        event: request.event,
                    };
                    self.resolved_snapshots.push(resolved);
                    assert(self@.resolved =~= before.push(resolved@));
                    assert(start.resolved + prev.0.push(resolved@) =~= (start.resolved + prev.0).push(resolved@));
                },
                None => {
                    let ghost before = selection_views(still_pending@);
                    let ghost v = request@;
                    still_pending.push(request);
                    assert(selection_views(still_pending@) =~= before.push(v));
                },
            }
            proof {
                k = k + 1;
            }
        }
        proof {
            assert(all.take(k) =~= all);
        }
        self.pending_requests = still_pending;
    }

    fn has_pending_request(&self, session_id: u64) -> (r: bool)
        ensures
            r == has_pending(self@.pending, session_id),
    {
        let mut i: usize = 0;
        while i < self.pending_requests.len()
            invariant
                i <= self.pending_requests.len(),
                forall|j: int| 0 <= j < i ==> self.pending_requests@[j].session_id != session_id,
            decreases self.pending_requests.len() - i,
        {
            if self.pending_requests[i].session_id == session_id {
                assert(self@.pending[i as int].session_id == session_id);
                return true;
            }
            i = i + 1;
        }
        assert forall|j: int| 0 <= j < self@.pending.len() implies (#[trigger] self@.pending[j]).session_id != session_id by {
            assert(self@.pending[j] == self.pending_requests@[j]@);
        }
        false
    }

    /// At the end of the input: every waiting snapshot takes the nearest buffered frame, and the
    /// sessions that can be emitted are.
    pub fn flush(&mut self) -> (r: EmittedSessions)
        ensures
            (final(self)@, r@) == try_emit_step(resolve_pending_step(old(self)@, true)),
    {
        self.resolve_pending_requests(true);
        self.try_emit_finished_sessions()
    }

    /// Splits the matched snapshots into those of `session_id` and the others, both in order.
    fn take_session_snapshots(&mut self, session_id: u64) -> (r: Vec<ResolvedSnapshot>)
        ensures
            resolved_views(r@) == session_snapshots(old(self)@.resolved, session_id),
            final(self)@ == (ProcessorModel {
                resolved: other_snapshots(old(self)@.resolved, session_id),
                ..old(self)@
            }),
    {
        let ghost start = self@;
        let mut all: Vec<ResolvedSnapshot> = Vec::new();
        std::mem::swap(&mut all, &mut self.resolved_snapshots);
        let ghost orig = resolved_views(all@);
        let mut mine: Vec<ResolvedSnapshot> = Vec::new();
        let mut rest: Vec<ResolvedSnapshot> = Vec::new();
        let ghost mut k: int = 0;
        assert(session_snapshots(orig.take(0), session_id) =~= Seq::<SnapshotView>::empty());
        assert(other_snapshots(orig.take(0), session_id) =~= Seq::<SnapshotView>::empty());
        while all.len() > 0
            invariant
                0 <= k <= orig.len(),
                resolved_views(all@) == orig.skip(k),
                resolved_views(mine@) == session_snapshots(orig.take(k), session_id),
                resolved_views(rest@) == other_snapshots(orig.take(k), session_id),
                self@.buffer == start.buffer,
                self@.pending == start.pending,
                self@.finished == start.finished,
            decreases all.len(),
        {
            proof {
                assert(resolved_views(all@).len() > 0);
                assert(orig.skip(k).len() > 0);
                assert(k < orig.len());
            }
            let ghost prior = all@;
            let item = all.remove(0);
            proof {
                assert(orig.skip(k)[0] == item@);
                assert(orig.take(k + 1).drop_last() =~= orig.take(k));
                assert(orig.take(k + 1).last() == orig[k]);
                assert(all@ =~= prior.subrange(1, prior.len() as int));
                assert forall|i: int| 0 <= i < all@.len() implies resolved_views(all@)[i] == orig.skip(k + 1)[i] by {
                    assert(resolved_views(prior)[i + 1] == orig.skip(k)[i + 1]);
                }
                assert(resolved_views(all@) =~= orig.skip(k + 1));
            }
            if item.session_id == session_id {
                let ghost before = resolved_views(mine@);
                let ghost v = item@;
                mine.push(item);
                assert(resolved_views(mine@) =~= before.push(v));
            } else {
                let ghost before = resolved_views(rest@);
                let ghost v = item@;
                rest.push(item);
                assert(resolved_views(rest@) =~= before.push(v));
            }
            proof {
                k = k + 1;
            }
        }
        proof {
            assert(orig.take(k) =~= orig);
            assert(orig == start.resolved);
        }
        self.resolved_snapshots = rest;
        mine
    }

    /// Emits, in order of finishing, every finished session none of whose snapshots still waits
    /// for a full-size frame.
    pub fn try_emit_finished_sessions(&mut self) -> (r: EmittedSessions)
        ensures
            (final(self)@, r@) == try_emit_step(old(self)@),
    {
        let ghost start = self@;
        let mut finished: Vec<MotionSessionSummary> = Vec::new();
        std::mem::swap(&mut finished, &mut self.finished_sessions);
        let ghost orig = finished@;
        let mut kept: Vec<MotionSessionSummary> = Vec::new();
        let mut out = EmittedSessions { batches: Vec::new(), without_snapshot: Vec::new() };
        let ghost mut k: int = 0;
        proof {
            assert(orig.take(0) =~= Seq::<MotionSessionSummary>::empty());
            assert(out@.batches =~= Seq::<Seq<CaptureView>>::empty());
            assert(out@.without_snapshot =~= Seq::<u64>::empty());
            assert(kept@ =~= Seq::<MotionSessionSummary>::empty());
        }
        while finished.len() > 0
            invariant
                0 <= k <= orig.len(),
                finished@ == orig.skip(k),
                self@.buffer == start.buffer,
                self@.pending == start.pending,
                (self@.resolved, kept@, out@) == emit_finished(start.pending, start.resolved, orig.take(k)),
            decreases finished.len(),
        {
            proof {
                assert(finished@.len() > 0);
                assert(orig.skip(k).len() > 0);
                assert(k < orig.len());
            }
            let summary = finished.remove(0);
            proof {
                assert(orig.skip(k)[0] == summary);
                assert(orig.take(k + 1).drop_last() =~= orig.take(k));
                assert(orig.take(k + 1).last() == orig[k]);
                assert(finished@ =~= orig.skip(k + 1));
            }
            let ghost prev_out = out@;
            if self.has_pending_request(summary.session_id) {
                kept.push(summary);
            } else {
                let mine = self.take_session_snapshots(summary.session_id);
                if mine.len() == 0 {
                    out.without_snapshot.push(summary.session_id);
                    assert(out@.batches =~= prev_out.batches + Seq::<Seq<CaptureView>>::empty());
                    assert(out@.without_snapshot =~= prev_out.without_snapshot + seq![summary.session_id]);
                } else {
                    let batch = build_session_batch(mine, summary);
                    let ghost bv = capture_views(batch@);
                    out.batches.push(batch);
                    assert(out@.batches =~= prev_out.batches + seq![bv]);
                    assert(out@.without_snapshot =~= prev_out.without_snapshot + Seq::<u64>::empty());
                }
            }
            proof {
                k = k + 1;
            }
        }
        proof {
            assert(orig.take(k) =~= orig);
            assert(orig == start.finished);
        }
        self.finished_sessions = kept;
        out
    }
}

/// The captures of a finished session from its matched snapshots, in frame-index order, one per
/// frame.
fn build_session_batch(mine: Vec<ResolvedSnapshot>, summary: MotionSessionSummary) -> (r: Vec<MotionSessionCapture>)
    ensures
        capture_views(r@) == session_batch(resolved_views(mine@), summary),
{
    let ghost orig = resolved_views(mine@);
    let ghost caps = orig.map_values(|x: SnapshotView| snapshot_capture(x, summary));
    let mut mine = mine;
    let mut out: Vec<MotionSessionCapture> = Vec::new();
    let ghost mut k: int = 0;
    assert(sorted_unique_captures(caps.take(0)) =~= Seq::<CaptureView>::empty());
    assert(capture_views(out@) =~= Seq::<CaptureView>::empty());
    while mine.len() > 0
        invariant
            0 <= k <= orig.len(),
            caps == orig.map_values(|x: SnapshotView| snapshot_capture(x, summary)),
            resolved_views(mine@) == orig.skip(k),
            capture_views(out@) == sorted_unique_captures(caps.take(k)),
        decreases mine.len(),
    {
        proof {
                assert(resolved_views(mine@).len() > 0);
                assert(orig.skip(k).len() > 0);
                assert(k < orig.len());
            }
            let ghost prior = mine@;
            let item = mine.remove(0);
        proof {
            assert(orig.skip(k)[0] == item@);
            assert(mine@ =~= prior.subrange(1, prior.len() as int));
                assert forall|i: int| 0 <= i < mine@.len() implies resolved_views(mine@)[i] == orig.skip(k + 1)[i] by {
                    assert(resolved_views(prior)[i + 1] == orig.skip(k)[i + 1]);
                }
                assert(resolved_views(mine@) =~= orig.skip(k + 1));
            assert(caps.take(k + 1).drop_last() =~= caps.take(k));
            assert(caps.take(k + 1).last() == caps[k]);
        }
        let capture = MotionSessionCapture {
            frame: item.frame,
            event: item.event,
            motion_started_at: summary.motion_started_at,
            motion_started_frame_index: summary.motion_started_frame_index,
            motion_ended_at: summary.motion_ended_at,
            motion_ended_frame_index: summary.motion_ended_frame_index,
        };
        assert(capture@ == caps[k]);
        insert_capture_by_index(&mut out, capture);
        proof {
            k = k + 1;
        }
    }
    proof {
        assert(caps.take(k) =~= caps);
    }
    out
}

} // verus!
