//! Motion sessions.
//!
//! The detector says, frame by frame, whether a frame looks active. The tracker groups those
//! verdicts into sessions and picks representative frames: the frame nearest the middle of a short
//! session, the frame `motion_snapshot_delay_seconds` after the start of a longer one, and one more
//! every `long_motion_snapshot_interval_seconds` while motion goes on.
//!
//! The tracker's behaviour is stated as a state machine over mathematical values
//! ([`TrackerModel`], [`ingest_step`], [`finish_step`]); every method is proved to follow it.

use vstd::prelude::*;
use crate::config::MotionDetectionConfig;
use crate::ffmpeg::{EpochNanos, FrameView, VideoFrame};
use crate::motion::{MotionAnalysis, MotionEvent};

verus! {

// ---------------------------------------------------------------------------------------------
// Values exchanged with callers
// ---------------------------------------------------------------------------------------------

/// A frame together with the detector's verdict on it.
#[derive(Debug)]
pub struct AnnotatedFrame {
    pub frame: VideoFrame,
    pub analysis: MotionAnalysis,
}

pub struct AnnotatedView {
    pub frame: FrameView,
    pub analysis: MotionAnalysis,
}

impl View for AnnotatedFrame {
    type V = AnnotatedView;

    open spec fn view(&self) -> AnnotatedView {
        AnnotatedView { frame: self.frame@, analysis: self.analysis }
    }
}

impl Clone for AnnotatedFrame {
    fn clone(&self) -> (r: AnnotatedFrame)
        ensures
            r@ == self@,
    {
        AnnotatedFrame { frame: self.frame.clone(), analysis: self.analysis }
    }
}

/// The bounds of a finished session.
#[derive(Clone, Copy, Debug, PartialEq, Eq, Structural)]
pub struct MotionSessionSummary {
    pub session_id: u64,
    pub motion_started_at: EpochNanos,
    pub motion_started_frame_index: u64,
    pub motion_ended_at: EpochNanos,
    pub motion_ended_frame_index: u64,
}

/// A frame chosen as a snapshot of a session, reported as soon as it is chosen.
#[derive(Debug)]
pub struct MotionSnapshotSelection {
    pub session_id: u64,
    pub frame: VideoFrame,
    pub event: MotionEvent,
}

#[derive(Debug)]
pub enum MotionSessionEvent {
    SnapshotSelected(MotionSnapshotSelection),
    SessionFinished(MotionSessionSummary),
}

/// A chosen snapshot together with the bounds of its finished session.
#[derive(Debug)]
pub struct MotionSessionCapture {
    pub frame: VideoFrame,
    pub event: MotionEvent,
    pub motion_started_at: EpochNanos,
    pub motion_started_frame_index: u64,
    pub motion_ended_at: EpochNanos,
    pub motion_ended_frame_index: u64,
}

pub enum EventView {
    SnapshotSelected { session_id: u64, frame: FrameView, event: MotionEvent },
    SessionFinished(MotionSessionSummary),
}

pub struct CaptureView {
    pub frame: FrameView,
    pub event: MotionEvent,
    pub summary: MotionSessionSummary,
}

impl View for MotionSessionEvent {
    type V = EventView;

    open spec fn view(&self) -> EventView {
        match self {
            MotionSessionEvent::SnapshotSelected(s) => EventView::SnapshotSelected {
                session_id: s.session_id,
                frame: s.frame@,
                event: s.event,
            },
            MotionSessionEvent::SessionFinished(summary) => EventView::SessionFinished(*summary),
        }
    }
}

impl View for MotionSessionCapture {
    type V = CaptureView;

    /// The session id is not carried by a capture; it reads as 0 here.
    open spec fn view(&self) -> CaptureView {
        CaptureView {
            frame: self.frame@,
            event: self.event,
            summary: MotionSessionSummary {
                session_id: 0,
                motion_started_at: self.motion_started_at,
                motion_started_frame_index: self.motion_started_frame_index,
                motion_ended_at: self.motion_ended_at,
                motion_ended_frame_index: self.motion_ended_frame_index,
            },
        }
    }
}

pub open spec fn annotated_views(s: Seq<AnnotatedFrame>) -> Seq<AnnotatedView> {
    s.map_values(|a: AnnotatedFrame| a@)
}

pub open spec fn event_views(s: Seq<MotionSessionEvent>) -> Seq<EventView> {
    s.map_values(|e: MotionSessionEvent| e@)
}

pub open spec fn capture_views(s: Seq<MotionSessionCapture>) -> Seq<CaptureView> {
    s.map_values(|c: MotionSessionCapture| c@)
}

// ---------------------------------------------------------------------------------------------
// The model
// ---------------------------------------------------------------------------------------------

pub open spec fn abs_diff(a: u64, b: u64) -> u64 {
    if a >= b {
        (a - b) as u64
    } else {
        (b - a) as u64
    }
}

pub open spec fn distance(a: AnnotatedView, target: u64) -> u64 {
    abs_diff(a.frame.index, target)
}

/// The first of `frames` whose index is nearest `target`.
pub open spec fn closest_frame(frames: Seq<AnnotatedView>, target: u64) -> AnnotatedView
    recommends
        frames.len() > 0,
    decreases frames.len(),
{
    if frames.len() <= 1 {
        frames[0]
    } else {
        let best = closest_frame(frames.drop_last(), target);
        if distance(frames.last(), target) < distance(best, target) {
            frames.last()
        } else {
            best
        }
    }
}

/// Of the previous active frame and the current one, the one nearest `target`; the earlier wins
/// ties.
pub open spec fn closest_of_pair(
    previous: Option<AnnotatedView>,
    current: AnnotatedView,
    target: u64,
) -> AnnotatedView {
    match previous {
        Some(p) => if distance(p, target) <= distance(current, target) {
            p
        } else {
            current
        },
        None => current,
    }
}

/// Halfway between the first and last active frame, rounded down.
pub open spec fn midpoint_frame(start: u64, end: u64) -> u64 {
    start.saturating_add((end.saturating_sub(start) / 2) as u64)
}

pub open spec fn saturating_mul(a: u64, b: u64) -> u64 {
    if a * b > u64::MAX {
        u64::MAX
    } else {
        (a * b) as u64
    }
}

/// `t` with `x` inserted in index order, unless `t` already holds a frame with `x`'s index.
pub open spec fn insert_by_index(t: Seq<AnnotatedView>, x: AnnotatedView) -> Seq<AnnotatedView>
    decreases t.len(),
{
    if t.len() == 0 {
        seq![x]
    } else if x.frame.index < t[0].frame.index {
        seq![x] + t
    } else if x.frame.index == t[0].frame.index {
        t
    } else {
        seq![t[0]] + insert_by_index(t.drop_first(), x)
    }
}

/// The frames of `s` ordered by index, keeping for each index the frame chosen first (a stable
/// sort followed by removal of repeated indices).
pub open spec fn sorted_unique(s: Seq<AnnotatedView>) -> Seq<AnnotatedView>
    decreases s.len(),
{
    if s.len() == 0 {
        Seq::empty()
    } else {
        insert_by_index(sorted_unique(s.drop_last()), s.last())
    }
}

/// The state of one session in progress.
pub struct SessionModel {
    pub session_id: u64,
    pub started_at: Option<EpochNanos>,
    pub start_frame_index: u64,
    pub last_active_at: Option<EpochNanos>,
    pub last_active_frame_index: u64,
    pub inactive_frames: u64,
    pub pre_capture_frames: Seq<AnnotatedView>,
    pub selected_frames: Seq<AnnotatedView>,
    pub initial_capture_selected: bool,
    pub next_periodic_target_frame: Option<u64>,
    pub previous_active_frame: Option<AnnotatedView>,
}

pub open spec fn new_session_model(session_id: u64) -> SessionModel {
    SessionModel {
        session_id,
        started_at: None,
        start_frame_index: 0,
        last_active_at: None,
        last_active_frame_index: 0,
        inactive_frames: 0,
        pre_capture_frames: Seq::empty(),
        selected_frames: Seq::empty(),
        initial_capture_selected: false,
        next_periodic_target_frame: None,
        previous_active_frame: None,
    }
}

/// Records `selected` as a snapshot of the session and reports it.
pub open spec fn record_selection(s: SessionModel, selected: AnnotatedView) -> (SessionModel, EventView) {
    (
        SessionModel { selected_frames: s.selected_frames.push(selected), ..s },
        EventView::SnapshotSelected {
            session_id: s.session_id,
            frame: selected.frame,
            event: selected.analysis.spec_event(),
        },
    )
}

pub open spec fn periodic_measure(s: SessionModel, a: AnnotatedView) -> nat {
    match s.next_periodic_target_frame {
        Some(t) => if t <= a.frame.index {
            (a.frame.index + 1 - t) as nat
        } else {
            0
        },
        None => 0,
    }
}

/// Takes the periodic snapshots whose target index the active frame `a` has reached.
pub open spec fn periodic_selections(s: SessionModel, a: AnnotatedView, interval: u64) -> (
    SessionModel,
    Seq<EventView>,
)
    decreases periodic_measure(s, a),
    when interval > 0 && a.frame.index < u64::MAX
{
    match s.next_periodic_target_frame {
        Some(target) => if a.frame.index < target {
            (s, Seq::empty())
        } else {
            let (s1, e) = record_selection(
                s,
                closest_of_pair(s.previous_active_frame, a, target),
            );
            let s2 = SessionModel {
                next_periodic_target_frame: Some(target.saturating_add(interval)),
                ..s1
            };
            let (s3, rest) = periodic_selections(s2, a, interval);
            (s3, seq![e] + rest)
        },
        None => (s, Seq::empty()),
    }
}

/// One active frame within a session.
pub open spec fn ingest_active(s: SessionModel, a: AnnotatedView, delay: u64, interval: u64) -> (
    SessionModel,
    Seq<EventView>,
) {
    let s1 = SessionModel {
        started_at: if s.started_at is None {
            Some(a.frame.captured_at)
        } else {
            s.started_at
        },
        start_frame_index: if s.started_at is None {
            a.frame.index
        } else {
            s.start_frame_index
        },
        last_active_at: Some(a.frame.captured_at),
        last_active_frame_index: a.frame.index,
        inactive_frames: 0,
        ..s
    };
    if !s1.initial_capture_selected {
        let pre = s1.pre_capture_frames.push(a);
        let target = s1.start_frame_index.saturating_add(delay);
        if a.frame.index >= target {
            let (s2, e) = record_selection(
                SessionModel { pre_capture_frames: pre, ..s1 },
                closest_frame(pre, target),
            );
            (
                SessionModel {
                    pre_capture_frames: Seq::empty(),
                    initial_capture_selected: true,
                    next_periodic_target_frame: Some(s1.start_frame_index.saturating_add(interval)),
                    previous_active_frame: Some(a),
                    ..s2
                },
                seq![e],
            )
        } else {
            (
                SessionModel { pre_capture_frames: pre, previous_active_frame: Some(a), ..s1 },
                Seq::empty(),
            )
        }
    } else {
        let (s2, es) = periodic_selections(s1, a, interval);
        (SessionModel { previous_active_frame: Some(a), ..s2 }, es)
    }
}

/// What a step hands back: session events and completed captures.
pub struct OutputModel {
    pub events: Seq<EventView>,
    pub captures: Seq<CaptureView>,
}

pub open spec fn no_output() -> OutputModel {
    OutputModel { events: Seq::empty(), captures: Seq::empty() }
}

pub open spec fn capture_of(a: AnnotatedView, summary: MotionSessionSummary) -> CaptureView {
    CaptureView {
        frame: a.frame,
        event: a.analysis.spec_event(),
        summary: MotionSessionSummary { session_id: 0, ..summary },
    }
}

pub open spec fn summary_of(s: SessionModel) -> MotionSessionSummary {
    MotionSessionSummary {
        session_id: s.session_id,
        motion_started_at: s.started_at.unwrap(),
        motion_started_frame_index: s.start_frame_index,
        motion_ended_at: s.last_active_at.unwrap(),
        motion_ended_frame_index: s.last_active_frame_index,
    }
}

/// The session with its last snapshot chosen, when none was chosen yet: the pre-capture frame
/// nearest the middle of the session.
pub open spec fn with_final_selection(s: SessionModel) -> (SessionModel, Seq<EventView>) {
    if !s.initial_capture_selected && s.pre_capture_frames.len() > 0 {
        let (s1, e) = record_selection(
            s,
            closest_frame(
                s.pre_capture_frames,
                midpoint_frame(s.start_frame_index, s.last_active_frame_index),
            ),
        );
        (s1, seq![e])
    } else {
        (s, Seq::empty())
    }
}

/// Ends a session: the last snapshot choice, the finish notice, and the captures in index order.
pub open spec fn finalize(s: SessionModel) -> OutputModel {
    if s.started_at is Some && s.last_active_at is Some {
        let (s1, first) = with_final_selection(s);
        let summary = summary_of(s);
        OutputModel {
            events: first.push(EventView::SessionFinished(summary)),
            captures: sorted_unique(s1.selected_frames).map_values(
                |a: AnnotatedView| capture_of(a, summary),
            ),
        }
    } else {
        no_output()
    }
}

/// The state of the tracker.
pub struct TrackerModel {
    pub local_confirmation_frames: nat,
    pub motion_end_grace_frames: u64,
    pub initial_capture_delay_frames: u64,
    pub periodic_capture_interval_frames: u64,
    pub session_cooldown_frames: u64,
    pub pending_local_frames: Seq<AnnotatedView>,
    pub active_session: Option<SessionModel>,
    pub next_session_allowed_frame: Option<u64>,
    pub next_session_id: u64,
}

/// Feeds `frames` to a new session in order; their events are not reported.
pub open spec fn fold_active(s: SessionModel, frames: Seq<AnnotatedView>, delay: u64, interval: u64) -> SessionModel
    decreases frames.len(),
{
    if frames.len() == 0 {
        s
    } else {
        ingest_active(fold_active(s, frames.drop_last(), delay, interval), frames.last(), delay, interval).0
    }
}

pub open spec fn start_session(t: TrackerModel, frames: Seq<AnnotatedView>) -> TrackerModel {
    TrackerModel {
        next_session_id: t.next_session_id.saturating_add(1),
        active_session: Some(
            fold_active(
                new_session_model(t.next_session_id),
                frames,
                t.initial_capture_delay_frames,
                t.periodic_capture_interval_frames,
            ),
        ),
        ..t
    }
}

pub open spec fn finalize_session(t: TrackerModel, s: SessionModel) -> (TrackerModel, OutputModel) {
    (
        TrackerModel {
            active_session: None,
            next_session_allowed_frame: Some(
                s.last_active_frame_index.saturating_add(t.session_cooldown_frames),
            ),
            ..t
        },
        finalize(s),
    )
}

pub open spec fn in_cooldown(t: TrackerModel, frame_index: u64) -> bool {
    match t.next_session_allowed_frame {
        Some(n) => frame_index < n,
        None => false,
    }
}

/// One frame and its verdict.
pub open spec fn ingest_step(t: TrackerModel, a: AnnotatedView) -> (TrackerModel, OutputModel) {
    match t.active_session {
        Some(s) => if a.analysis.spec_is_motion_active() {
            let (s2, es) = ingest_active(
                s,
                a,
                t.initial_capture_delay_frames,
                t.periodic_capture_interval_frames,
            );
            (TrackerModel { active_session: Some(s2), ..t }, OutputModel { events: es, captures: Seq::empty() })
        } else {
            let s2 = SessionModel { inactive_frames: s.inactive_frames.saturating_add(1), ..s };
            if s2.inactive_frames >= t.motion_end_grace_frames {
                finalize_session(TrackerModel { active_session: None, ..t }, s2)
            } else {
                (TrackerModel { active_session: Some(s2), ..t }, no_output())
            }
        },
        None => if in_cooldown(t, a.frame.index) {
            (TrackerModel { pending_local_frames: Seq::empty(), ..t }, no_output())
        } else if a.analysis.global_triggered {
            (start_session(TrackerModel { pending_local_frames: Seq::empty(), ..t }, seq![a]), no_output())
        } else if a.analysis.local_triggered {
            let pending = t.pending_local_frames.push(a);
            if pending.len() >= t.local_confirmation_frames {
                (start_session(TrackerModel { pending_local_frames: Seq::empty(), ..t }, pending), no_output())
            } else {
                (TrackerModel { pending_local_frames: pending, ..t }, no_output())
            }
        } else {
            (TrackerModel { pending_local_frames: Seq::empty(), ..t }, no_output())
        },
    }
}

/// The end of the input: pending local frames are dropped and an open session is finished.
pub open spec fn finish_step(t: TrackerModel) -> (TrackerModel, OutputModel) {
    let t1 = TrackerModel { pending_local_frames: Seq::empty(), ..t };
    match t1.active_session {
        Some(s) => finalize_session(TrackerModel { active_session: None, ..t1 }, s),
        None => (t1, no_output()),
    }
}


// ---------------------------------------------------------------------------------------------
// Snapshot choice helpers
// ---------------------------------------------------------------------------------------------

fn abs_diff_u64(a: u64, b: u64) -> (r: u64)
    ensures
        r == abs_diff(a, b),
{
    if a >= b {
        a - b
    } else {
        b - a
    }
}

pub fn saturating_mul_u64(a: u64, b: u64) -> (r: u64)
    ensures
        r == saturating_mul(a, b),
{
    match a.checked_mul(b) {
        Some(v) => v,
        None => u64::MAX,
    }
}

/// The first of `frames` whose index is nearest `target`, or `None` for no frames.
fn select_closest_frame(frames: &Vec<AnnotatedFrame>, target: u64) -> (r: Option<AnnotatedFrame>)
    ensures
        frames.len() == 0 ==> r is None,
        frames.len() > 0 ==> (r matches Some(a) && a@ == closest_frame(
            annotated_views(frames@),
            target,
        )),
{
    if frames.len() == 0 {
        return None;
    }
    let ghost views = annotated_views(frames@);
    let mut best: usize = 0;
    let mut best_distance = abs_diff_u64(frames[0].frame.index, target);
    let mut i: usize = 1;
    assert(views.take(1).drop_last().len() == 0);
    while i < frames.len()
        invariant
            views == annotated_views(frames@),
            1 <= i <= frames.len(),
            best < i,
            best_distance == distance(views[best as int], target),
            views[best as int] == closest_frame(views.take(i as int), target),
        decreases frames.len() - i,
    {
        let d = abs_diff_u64(frames[i].frame.index, target);
        assert(views.take(i + 1).drop_last() =~= views.take(i as int));
        if d < best_distance {
            best = i;
            best_distance = d;
        }
        i = i + 1;
    }
    assert(views.take(frames.len() as int) =~= views);
    Some(frames[best].clone())
}

fn select_closest_from_pair(
    previous: Option<&AnnotatedFrame>,
    current: &AnnotatedFrame,
    target: u64,
) -> (r: AnnotatedFrame)
    ensures
        r@ == closest_of_pair(
            match previous {
                Some(p) => Some(p@),
                None => None,
            },
            current@,
            target,
        ),
{
    match previous {
        Some(previous) => {
            if abs_diff_u64(previous.frame.index, target) <= abs_diff_u64(
                current.frame.index,
                target,
            ) {
                previous.clone()
            } else {
                current.clone()
            }
        },
        None => current.clone(),
    }
}

/// For the place `p` where `x` belongs in `t` (all earlier indices smaller, the one at `p` not),
/// [`insert_by_index`] either keeps `t` or inserts `x` at `p`.
proof fn lemma_insert_by_index(t: Seq<AnnotatedView>, x: AnnotatedView, p: int)
    requires
        0 <= p <= t.len(),
        forall|k: int| 0 <= k < p ==> t[k].frame.index < x.frame.index,
        p < t.len() ==> t[p].frame.index >= x.frame.index,
    ensures
        insert_by_index(t, x) == (if p < t.len() && t[p].frame.index == x.frame.index {
            t
        } else {
            t.insert(p, x)
        }),
    decreases t.len(),
{
    if t.len() == 0 {
        assert(t.insert(p, x) =~= seq![x]);
    } else if p == 0 {
        if x.frame.index < t[0].frame.index {
            assert(t.insert(0, x) =~= seq![x] + t);
        }
    } else {
        let rest = t.drop_first();
        lemma_insert_by_index(rest, x, p - 1);
        if p < t.len() && t[p].frame.index == x.frame.index {
            assert(seq![t[0]] + rest =~= t);
        } else {
            assert(seq![t[0]] + rest.insert(p - 1, x) =~= t.insert(p, x));
        }
    }
}

fn insert_frame_by_index(out: &mut Vec<AnnotatedFrame>, x: AnnotatedFrame)
    ensures
        annotated_views(final(out)@) == insert_by_index(annotated_views(old(out)@), x@),
{
    let ghost t = annotated_views(out@);
    let mut p: usize = 0;
    while p < out.len() && out[p].frame.index < x.frame.index
        invariant
            t == annotated_views(out@),
            p <= out.len(),
            forall|k: int| 0 <= k < p ==> t[k].frame.index < x.frame.index,
        decreases out.len() - p,
    {
        p = p + 1;
    }
    proof {
        lemma_insert_by_index(t, x@, p as int);
    }
    if p < out.len() && out[p].frame.index == x.frame.index {
        return;
    }
    out.insert(p, x);
    assert(annotated_views(out@) =~= t.insert(p as int, x@));
}

/// The frames ordered by index, one per index, the first chosen kept.
fn sort_unique_by_index(frames: &Vec<AnnotatedFrame>) -> (r: Vec<AnnotatedFrame>)
    ensures
        annotated_views(r@) == sorted_unique(annotated_views(frames@)),
{
    let ghost views = annotated_views(frames@);
    let mut out: Vec<AnnotatedFrame> = Vec::new();
    let mut i: usize = 0;
    assert(annotated_views(out@) =~= sorted_unique(views.take(0)));
    while i < frames.len()
        invariant
            views == annotated_views(frames@),
            i <= frames.len(),
            annotated_views(out@) == sorted_unique(views.take(i as int)),
        decreases frames.len() - i,
    {
        assert(views.take(i + 1).drop_last() =~= views.take(i as int));
        insert_frame_by_index(&mut out, frames[i].clone());
        i = i + 1;
    }
    assert(views.take(frames.len() as int) =~= views);
    out
}


// ---------------------------------------------------------------------------------------------
// One session
// ---------------------------------------------------------------------------------------------

/// A session in progress.
pub struct ActiveMotionSession {
    session_id: u64,
    started_at: Option<EpochNanos>,
    start_frame_index: u64,
    last_active_at: Option<EpochNanos>,
    last_active_frame_index: u64,
    inactive_frames: u64,
    pre_capture_frames: Vec<AnnotatedFrame>,
    selected_frames: Vec<AnnotatedFrame>,
    initial_capture_selected: bool,
    next_periodic_target_frame: Option<u64>,
    previous_active_frame: Option<AnnotatedFrame>,
}

impl View for ActiveMotionSession {
    type V = SessionModel;

    closed spec fn view(&self) -> SessionModel {
        SessionModel {
            session_id: self.session_id,
            started_at: self.started_at,
            start_frame_index: self.start_frame_index,
            last_active_at: self.last_active_at,
            last_active_frame_index: self.last_active_frame_index,
            inactive_frames: self.inactive_frames,
            pre_capture_frames: annotated_views(self.pre_capture_frames@),
            selected_frames: annotated_views(self.selected_frames@),
            initial_capture_selected: self.initial_capture_selected,
            next_periodic_target_frame: self.next_periodic_target_frame,
            previous_active_frame: match self.previous_active_frame {
                Some(a) => Some(a@),
                None => None,
            },
        }
    }
}

/// What one step of the tracker hands back.
pub struct TrackerOutput {
    pub events: Vec<MotionSessionEvent>,
    pub captures: Vec<MotionSessionCapture>,
}

impl View for TrackerOutput {
    type V = OutputModel;

    open spec fn view(&self) -> OutputModel {
        OutputModel { events: event_views(self.events@), captures: capture_views(self.captures@) }
    }
}

impl TrackerOutput {
    fn empty() -> (r: TrackerOutput)
        ensures
            r@ == no_output(),
    {
        let r = TrackerOutput { events: Vec::new(), captures: Vec::new() };
        assert(r@.events =~= Seq::<EventView>::empty());
        assert(r@.captures =~= Seq::<CaptureView>::empty());
        r
    }

    fn from_events(events: Vec<MotionSessionEvent>) -> (r: TrackerOutput)
        ensures
            r@ == (OutputModel { events: event_views(events@), captures: Seq::empty() }),
    {
        let r = TrackerOutput { events, captures: Vec::new() };
        assert(r@.captures =~= Seq::<CaptureView>::empty());
        r
    }
}

impl ActiveMotionSession {
    fn new(session_id: u64) -> (r: ActiveMotionSession)
        ensures
            r@ == new_session_model(session_id),
    {
        let r = ActiveMotionSession {
            session_id,
            started_at: None,
            start_frame_index: 0,
            last_active_at: None,
            last_active_frame_index: 0,
            inactive_frames: 0,
            pre_capture_frames: Vec::new(),
            selected_frames: Vec::new(),
            initial_capture_selected: false,
            next_periodic_target_frame: None,
            previous_active_frame: None,
        };
        assert(r@.pre_capture_frames =~= Seq::<AnnotatedView>::empty());
        assert(r@.selected_frames =~= Seq::<AnnotatedView>::empty());
        r
    }

    fn record_selected_frame(&mut self, selected: AnnotatedFrame) -> (r: MotionSessionEvent)
        ensures
            (final(self)@, r@) == record_selection(old(self)@, selected@),
    {
        let event = selected.analysis.event();
        self.selected_frames.push(selected.clone());
        assert(annotated_views(self.selected_frames@) =~= annotated_views(
            old(self).selected_frames@,
        ).push(selected@));
        MotionSessionEvent::SnapshotSelected(
            MotionSnapshotSelection { session_id: self.session_id, frame: selected.frame, event },
        )
    }

    fn ingest_active_frame(
        &mut self,
        annotated: AnnotatedFrame,
        initial_capture_delay_frames: u64,
        periodic_capture_interval_frames: u64,
    ) -> (r: Vec<MotionSessionEvent>)
        requires
            periodic_capture_interval_frames > 0,
            annotated.frame.index < u64::MAX,
        ensures
            (final(self)@, event_views(r@)) == ingest_active(
                old(self)@,
                annotated@,
                initial_capture_delay_frames,
                periodic_capture_interval_frames,
            ),
    {
        let ghost a = annotated@;
        if self.started_at.is_none() {
            self.started_at = Some(annotated.frame.captured_at);
            self.start_frame_index = annotated.frame.index;
        }
        self.last_active_at = Some(annotated.frame.captured_at);
        self.last_active_frame_index = annotated.frame.index;
        self.inactive_frames = 0;
        let ghost s1 = self@;

        let mut events: Vec<MotionSessionEvent> = Vec::new();

        if !self.initial_capture_selected {
            self.pre_capture_frames.push(annotated.clone());
            assert(annotated_views(self.pre_capture_frames@) =~= s1.pre_capture_frames.push(a));
            let initial_target_frame = self.start_frame_index.saturating_add(
                initial_capture_delay_frames,
            );
            if annotated.frame.index >= initial_target_frame {
                let selected = select_closest_frame(&self.pre_capture_frames, initial_target_frame);
                match selected {
                    Some(selected) => {
                        let e = self.record_selected_frame(selected);
                        events.push(e);
                    },
                    None => {},
                }
                self.pre_capture_frames.clear();
                self.initial_capture_selected = true;
                self.next_periodic_target_frame = Some(
                    self.start_frame_index.saturating_add(periodic_capture_interval_frames),
                );
                assert(annotated_views(self.pre_capture_frames@) =~= Seq::<AnnotatedView>::empty());
            }
            self.previous_active_frame = Some(annotated);
            assert(event_views(events@) =~= ingest_active(
                old(self)@,
                a,
                initial_capture_delay_frames,
                periodic_capture_interval_frames,
            ).1);
            return events;
        }
        loop
            invariant
                periodic_capture_interval_frames > 0,
                annotated@ == a,
                a.frame.index < u64::MAX,
                s1.initial_capture_selected,
                periodic_selections(s1, a, periodic_capture_interval_frames).0
                    == periodic_selections(self@, a, periodic_capture_interval_frames).0,
                periodic_selections(s1, a, periodic_capture_interval_frames).1 == event_views(
                    events@,
                ) + periodic_selections(self@, a, periodic_capture_interval_frames).1,
            ensures
                self.next_periodic_target_frame is None || a.frame.index
                    < self.next_periodic_target_frame.unwrap(),
            decreases periodic_measure(self@, a),
        {
            match self.next_periodic_target_frame {
                Some(target_frame_index) => {
                    if annotated.frame.index < target_frame_index {
                        break ;
                    }
                    let ghost before = self@;
                    let ghost before_events = event_views(events@);
                    let selected = select_closest_from_pair(
                        self.previous_active_frame.as_ref(),
                        &annotated,
                        target_frame_index,
                    );
                    let e = self.record_selected_frame(selected);
                    events.push(e);
                    self.next_periodic_target_frame = Some(
                        target_frame_index.saturating_add(periodic_capture_interval_frames),
                    );
                    assert(event_views(events@) =~= before_events.push(e@));
                    let ghost step = periodic_selections(before, a, periodic_capture_interval_frames);
                    let ghost next = periodic_selections(self@, a, periodic_capture_interval_frames);
                    assert(step.1 =~= seq![e@] + next.1);
                    assert(before_events + step.1 =~= event_views(events@) + next.1);
                },
                None => {
                    break ;
                },
            }
        }
        assert(periodic_selections(self@, a, periodic_capture_interval_frames).1 =~= Seq::<
            EventView,
        >::empty());
        assert(event_views(events@) =~= event_views(events@) + Seq::<EventView>::empty());
        self.previous_active_frame = Some(annotated);
        events
    }

    fn finalize(&mut self) -> (r: TrackerOutput)
        ensures
            r@ == finalize(old(self)@),
            final(self)@.last_active_frame_index == old(self)@.last_active_frame_index,
    {
        let motion_started_at = match self.started_at {
            Some(t) => t,
            None => {
                return TrackerOutput::empty();
            },
        };
        let motion_ended_at = match self.last_active_at {
            Some(t) => t,
            None => {
                return TrackerOutput::empty();
            },
        };
        let ghost s0 = self@;
        let mut events: Vec<MotionSessionEvent> = Vec::new();
        if !self.initial_capture_selected {
            let selected = select_closest_frame(
                &self.pre_capture_frames,
                midpoint(self.start_frame_index, self.last_active_frame_index),
            );
            match selected {
                Some(selected) => {
                    let e = self.record_selected_frame(selected);
                    events.push(e);
                },
                None => {},
            }
        }
        let ghost s1 = self@;
        assert(s1 == with_final_selection(s0).0);
        assert(event_views(events@) =~= with_final_selection(s0).1);

        let summary = MotionSessionSummary {
            session_id: self.session_id,
            motion_started_at,
            motion_started_frame_index: self.start_frame_index,
            motion_ended_at,
            motion_ended_frame_index: self.last_active_frame_index,
        };
        let ghost first = event_views(events@);
        events.push(MotionSessionEvent::SessionFinished(summary));
        assert(event_views(events@) =~= first.push(EventView::SessionFinished(summary)));

        let chosen = sort_unique_by_index(&self.selected_frames);
        let ghost chosen_views = annotated_views(chosen@);
        let mut captures: Vec<MotionSessionCapture> = Vec::new();
        let mut i: usize = 0;
        while i < chosen.len()
            invariant
                chosen_views == annotated_views(chosen@),
                i <= chosen.len(),
                summary.motion_started_at == motion_started_at,
                summary.motion_ended_at == motion_ended_at,
                capture_views(captures@) == chosen_views.take(i as int).map_values(
                    |a: AnnotatedView| capture_of(a, summary),
                ),
            decreases chosen.len() - i,
        {
            let a = &chosen[i];
            let capture = MotionSessionCapture {
                frame: a.frame.clone(),
                event: a.analysis.event(),
                motion_started_at,
                motion_started_frame_index: summary.motion_started_frame_index,
                motion_ended_at,
                motion_ended_frame_index: summary.motion_ended_frame_index,
            };
            assert(chosen_views[i as int] == chosen@[i as int]@);
            assert(capture@.frame == chosen_views[i as int].frame);
            assert(capture@.event == chosen_views[i as int].analysis.spec_event());
            assert(capture@.summary == MotionSessionSummary { session_id: 0, ..summary });
            assert(capture@ == capture_of(chosen_views[i as int], summary));
            let ghost before = capture_views(captures@);
            captures.push(capture);
            assert(capture_views(captures@) =~= before.push(capture_of(chosen_views[i as int], summary)));
            assert(capture_views(captures@) =~= chosen_views.take(i + 1).map_values(
                |a: AnnotatedView| capture_of(a, summary),
            ));
            i = i + 1;
        }
        assert(chosen_views.take(chosen.len() as int) =~= chosen_views);
        TrackerOutput { events, captures }
    }
}

fn midpoint(start: u64, end: u64) -> (r: u64)
    ensures
        r == midpoint_frame(start, end),
{
    start.saturating_add(end.saturating_sub(start) / 2)
}


// ---------------------------------------------------------------------------------------------
// The tracker
// ---------------------------------------------------------------------------------------------

/// Groups per-frame verdicts into motion sessions and chooses their snapshots.
pub struct MotionSessionTracker {
    local_confirmation_frames: usize,
    motion_end_grace_frames: u64,
    initial_capture_delay_frames: u64,
    periodic_capture_interval_frames: u64,
    session_cooldown_frames: u64,
    pending_local_frames: Vec<AnnotatedFrame>,
    active_session: Option<ActiveMotionSession>,
    next_session_allowed_frame: Option<u64>,
    next_session_id: u64,
}

impl View for MotionSessionTracker {
    type V = TrackerModel;

    closed spec fn view(&self) -> TrackerModel {
        TrackerModel {
            local_confirmation_frames: self.local_confirmation_frames as nat,
            motion_end_grace_frames: self.motion_end_grace_frames,
            initial_capture_delay_frames: self.initial_capture_delay_frames,
            periodic_capture_interval_frames: self.periodic_capture_interval_frames,
            session_cooldown_frames: self.session_cooldown_frames,
            pending_local_frames: annotated_views(self.pending_local_frames@),
            active_session: match self.active_session {
                Some(s) => Some(s@),
                None => None,
            },
            next_session_allowed_frame: self.next_session_allowed_frame,
            next_session_id: self.next_session_id,
        }
    }
}

/// A session in progress has seen an active frame; until its first snapshot is chosen it has
/// chosen none and holds the frames it will choose from.
pub open spec fn session_inv(s: SessionModel) -> bool {
    &&& s.started_at is Some
    &&& s.last_active_at is Some
    &&& !s.initial_capture_selected ==> (s.selected_frames.len() == 0 && s.pre_capture_frames.len()
        > 0)
    &&& s.initial_capture_selected ==> s.selected_frames.len() > 0
}

/// The state every tracker keeps: snapshots repeat at a positive interval, the frames waiting
/// for local confirmation have indices below `u64::MAX`, and an open session satisfies
/// [`session_inv`].
pub open spec fn tracker_inv(t: TrackerModel) -> bool {
    &&& t.periodic_capture_interval_frames > 0
    &&& forall|i: int|
        0 <= i < t.pending_local_frames.len() ==> (#[trigger] t.pending_local_frames[i]).frame.index
            < u64::MAX
    &&& (t.active_session matches Some(s) ==> session_inv(s))
}

/// Periodic selection changes only the chosen frames and the next target.
proof fn lemma_periodic_keeps(s: SessionModel, a: AnnotatedView, interval: u64)
    requires
        interval > 0,
        a.frame.index < u64::MAX,
    ensures
        ({
            let r = periodic_selections(s, a, interval).0;
            &&& r.started_at == s.started_at
            &&& r.last_active_at == s.last_active_at
            &&& r.start_frame_index == s.start_frame_index
            &&& r.last_active_frame_index == s.last_active_frame_index
            &&& r.initial_capture_selected == s.initial_capture_selected
            &&& r.session_id == s.session_id
            &&& r.selected_frames.len() >= s.selected_frames.len()
        }),
    decreases periodic_measure(s, a),
{
    match s.next_periodic_target_frame {
        Some(target) => if a.frame.index >= target {
            let (s1, e) = record_selection(s, closest_of_pair(s.previous_active_frame, a, target));
            let s2 = SessionModel {
                next_periodic_target_frame: Some(target.saturating_add(interval)),
                ..s1
            };
            lemma_periodic_keeps(s2, a, interval);
        },
        None => {},
    }
}

pub proof fn lemma_ingest_active_inv(s: SessionModel, a: AnnotatedView, delay: u64, interval: u64)
    requires
        interval > 0,
        a.frame.index < u64::MAX,
        s.initial_capture_selected || s.selected_frames.len() == 0,
        s.initial_capture_selected ==> s.started_at is Some,
        s.initial_capture_selected ==> s.selected_frames.len() > 0,
    ensures
        session_inv(ingest_active(s, a, delay, interval).0),
        ingest_active(s, a, delay, interval).0.session_id == s.session_id,
{
    let s1 = SessionModel {
        started_at: if s.started_at is None {
            Some(a.frame.captured_at)
        } else {
            s.started_at
        },
        start_frame_index: if s.started_at is None {
            a.frame.index
        } else {
            s.start_frame_index
        },
        last_active_at: Some(a.frame.captured_at),
        last_active_frame_index: a.frame.index,
        inactive_frames: 0,
        ..s
    };
    if s1.initial_capture_selected {
        lemma_periodic_keeps(s1, a, interval);
    }
}

proof fn lemma_fold_active_inv(s: SessionModel, frames: Seq<AnnotatedView>, delay: u64, interval: u64)
    requires
        interval > 0,
        forall|i: int| 0 <= i < frames.len() ==> (#[trigger] frames[i]).frame.index < u64::MAX,
        s == new_session_model(s.session_id),
    ensures
        frames.len() > 0 ==> session_inv(fold_active(s, frames, delay, interval)),
        fold_active(s, frames, delay, interval).session_id == s.session_id,
        fold_active(s, frames, delay, interval).initial_capture_selected || fold_active(s, frames, delay, interval).selected_frames.len() == 0,
        fold_active(s, frames, delay, interval).initial_capture_selected ==> fold_active(s, frames, delay, interval).selected_frames.len() > 0,
    decreases frames.len(),
{
    if frames.len() > 0 {
        let prefix = frames.drop_last();
        assert forall|i: int| 0 <= i < prefix.len() implies (#[trigger] prefix[i]).frame.index < u64::MAX by {
            assert(prefix[i] == frames[i]);
        }
        lemma_fold_active_inv(s, prefix, delay, interval);
        assert(frames.last() == frames[frames.len() - 1]);
        lemma_ingest_active_inv(fold_active(s, prefix, delay, interval), frames.last(), delay, interval);
    }
}

/// Every step keeps [`tracker_inv`].
pub proof fn lemma_ingest_step_inv(t: TrackerModel, a: AnnotatedView)
    requires
        tracker_inv(t),
        a.frame.index < u64::MAX,
    ensures
        tracker_inv(ingest_step(t, a).0),
{
    match t.active_session {
        Some(s) => {
            if a.analysis.spec_is_motion_active() {
                lemma_ingest_active_inv(
                    s,
                    a,
                    t.initial_capture_delay_frames,
                    t.periodic_capture_interval_frames,
                );
            }
        },
        None => {
            if !in_cooldown(t, a.frame.index) {
                if a.analysis.global_triggered {
                    let frames = seq![a];
                    assert(frames[0] == a);
                    lemma_fold_active_inv(
                        new_session_model(t.next_session_id),
                        frames,
                        t.initial_capture_delay_frames,
                        t.periodic_capture_interval_frames,
                    );
                } else if a.analysis.local_triggered {
                    let pending = t.pending_local_frames.push(a);
                    assert forall|i: int| 0 <= i < pending.len() implies (#[trigger] pending[i]).frame.index < u64::MAX by {
                        if i < t.pending_local_frames.len() {
                            assert(pending[i] == t.pending_local_frames[i]);
                        }
                    }
                    if pending.len() >= t.local_confirmation_frames {
                        lemma_fold_active_inv(
                            new_session_model(t.next_session_id),
                            pending,
                            t.initial_capture_delay_frames,
                            t.periodic_capture_interval_frames,
                        );
                    }
                }
            }
        },
    }
}

pub proof fn lemma_finish_step_inv(t: TrackerModel)
    requires
        tracker_inv(t),
    ensures
        tracker_inv(finish_step(t).0),
{
}

/// The tracker that [`MotionSessionTracker::new`] builds from `settings`.
pub open spec fn initial_tracker(settings: MotionDetectionConfig) -> TrackerModel {
    let rate = settings.frame_rate as u64;
    TrackerModel {
        local_confirmation_frames: settings.local_motion_consecutive_frames as nat,
        motion_end_grace_frames: saturating_mul(settings.motion_end_grace_seconds, rate),
        initial_capture_delay_frames: saturating_mul(settings.motion_snapshot_delay_seconds, rate),
        periodic_capture_interval_frames: saturating_mul(
            settings.long_motion_snapshot_interval_seconds,
            rate,
        ),
        session_cooldown_frames: saturating_mul(settings.event_cooldown_seconds, rate),
        pending_local_frames: Seq::empty(),
        active_session: None,
        next_session_allowed_frame: None,
        next_session_id: 1,
    }
}

impl MotionSessionTracker {
    /// The tracker's invariant, [`tracker_inv`].
    pub open spec fn wf(&self) -> bool {
        tracker_inv(self@)
    }

    /// Converts the second-based settings into frame counts at `frame_rate`.
    pub fn new(settings: &MotionDetectionConfig) -> (r: MotionSessionTracker)
        requires
            settings.frame_rate > 0,
            settings.long_motion_snapshot_interval_seconds > 0,
        ensures
            r@ == initial_tracker(*settings),
            r.wf(),
    {
        let frame_rate = settings.frame_rate as u64;
        let r = MotionSessionTracker {
            local_confirmation_frames: settings.local_motion_consecutive_frames as usize,
            motion_end_grace_frames: saturating_mul_u64(
                settings.motion_end_grace_seconds,
                frame_rate,
            ),
            initial_capture_delay_frames: saturating_mul_u64(
                settings.motion_snapshot_delay_seconds,
                frame_rate,
            ),
            periodic_capture_interval_frames: saturating_mul_u64(
                settings.long_motion_snapshot_interval_seconds,
                frame_rate,
            ),
            session_cooldown_frames: saturating_mul_u64(settings.event_cooldown_seconds, frame_rate),
            pending_local_frames: Vec::new(),
            active_session: None,
            next_session_allowed_frame: None,
            next_session_id: 1,
        };
        assert(r@.pending_local_frames =~= Seq::<AnnotatedView>::empty());
        assert(settings.long_motion_snapshot_interval_seconds * frame_rate > 0) by (nonlinear_arith)
            requires
                settings.long_motion_snapshot_interval_seconds > 0,
                frame_rate > 0,
        ;
        r
    }

    /// Feeds one frame and its verdict; returns the captures of a session that this frame
    /// finished, in frame-index order.
    pub fn ingest(&mut self, frame: VideoFrame, analysis: MotionAnalysis) -> (r: Vec<
        MotionSessionCapture,
    >)
        requires
            old(self).wf(),
            frame.index < u64::MAX,
        ensures
            final(self).wf(),
            final(self)@ == ingest_step(old(self)@, AnnotatedView { frame: frame@, analysis }).0,
            capture_views(r@) == ingest_step(
                old(self)@,
                AnnotatedView { frame: frame@, analysis },
            ).1.captures,
    {
        self.ingest_internal(frame, analysis).captures
    }

    /// Ends the input; returns the captures of a session still open, in frame-index order.
    pub fn finish(&mut self) -> (r: Vec<MotionSessionCapture>)
        requires
            old(self).wf(),
        ensures
            final(self).wf(),
            final(self)@ == finish_step(old(self)@).0,
            capture_views(r@) == finish_step(old(self)@).1.captures,
    {
        self.finish_internal().captures
    }

    /// Like [`MotionSessionTracker::ingest`], but reports snapshot choices as they are made and
    /// the end of each session.
    pub fn ingest_events(&mut self, frame: VideoFrame, analysis: MotionAnalysis) -> (r: Vec<
        MotionSessionEvent,
    >)
        requires
            old(self).wf(),
            frame.index < u64::MAX,
        ensures
            final(self).wf(),
            final(self)@ == ingest_step(old(self)@, AnnotatedView { frame: frame@, analysis }).0,
            event_views(r@) == ingest_step(
                old(self)@,
                AnnotatedView { frame: frame@, analysis },
            ).1.events,
    {
        self.ingest_internal(frame, analysis).events
    }

    /// Like [`MotionSessionTracker::finish`], reporting events.
    pub fn finish_events(&mut self) -> (r: Vec<MotionSessionEvent>)
        requires
            old(self).wf(),
        ensures
            final(self).wf(),
            final(self)@ == finish_step(old(self)@).0,
            event_views(r@) == finish_step(old(self)@).1.events,
    {
        self.finish_internal().events
    }

    fn ingest_internal(&mut self, frame: VideoFrame, analysis: MotionAnalysis) -> (r: TrackerOutput)
        requires
            old(self).wf(),
            frame.index < u64::MAX,
        ensures
            final(self).wf(),
            (final(self)@, r@) == ingest_step(old(self)@, AnnotatedView { frame: frame@, analysis }),
    {
        let annotated = AnnotatedFrame { frame, analysis };
        let ghost a = annotated@;
        let ghost t0 = self@;
        proof {
            lemma_ingest_step_inv(t0, a);
        }

        let taken = self.active_session.take();
        match taken {
            Some(mut session) => {
                if annotated.analysis.is_motion_active() {
                    let events = session.ingest_active_frame(
                        annotated,
                        self.initial_capture_delay_frames,
                        self.periodic_capture_interval_frames,
                    );
                    self.active_session = Some(session);
                    assert(self@.pending_local_frames == t0.pending_local_frames);
                    return TrackerOutput::from_events(events);
                }
                session.inactive_frames = session.inactive_frames.saturating_add(1);
                if session.inactive_frames >= self.motion_end_grace_frames {
                    let out = self.finalize_session(session);
                    assert(self@.pending_local_frames == t0.pending_local_frames);
                    return out;
                }
                self.active_session = Some(session);
                return TrackerOutput::empty();
            },
            None => {},
        }

        if self.is_in_cooldown(annotated.frame.index) {
            self.pending_local_frames.clear();
            assert(self@.pending_local_frames =~= Seq::<AnnotatedView>::empty());
            return TrackerOutput::empty();
        }

        if annotated.analysis.global_triggered {
            self.pending_local_frames.clear();
            assert(self@.pending_local_frames =~= Seq::<AnnotatedView>::empty());
            let mut frames: Vec<AnnotatedFrame> = Vec::new();
            frames.push(annotated);
            assert(annotated_views(frames@) =~= seq![a]);
            self.start_session(frames);
            return TrackerOutput::empty();
        }

        if annotated.analysis.local_triggered {
            self.pending_local_frames.push(annotated);
            assert(self@.pending_local_frames =~= t0.pending_local_frames.push(a));
            if self.pending_local_frames.len() >= self.local_confirmation_frames {
                let mut confirmed_frames: Vec<AnnotatedFrame> = Vec::new();
                std::mem::swap(&mut confirmed_frames, &mut self.pending_local_frames);
                assert(annotated_views(confirmed_frames@) == t0.pending_local_frames.push(a));
                assert(self@.pending_local_frames =~= Seq::<AnnotatedView>::empty());
                assert forall|i: int| 0 <= i < confirmed_frames.len() implies (
                #[trigger] confirmed_frames@[i]).frame.index < u64::MAX by {
                    assert(annotated_views(confirmed_frames@)[i] == confirmed_frames@[i]@);
                    if i < t0.pending_local_frames.len() {
                        assert(t0.pending_local_frames[i] == annotated_views(confirmed_frames@)[i]);
                    }
                }
                self.start_session(confirmed_frames);
            }
        } else {
            self.pending_local_frames.clear();
            assert(self@.pending_local_frames =~= Seq::<AnnotatedView>::empty());
        }
        TrackerOutput::empty()
    }

    fn finish_internal(&mut self) -> (r: TrackerOutput)
        requires
            old(self).wf(),
        ensures
            final(self).wf(),
            (final(self)@, r@) == finish_step(old(self)@),
    {
        proof {
            lemma_finish_step_inv(self@);
        }
        self.pending_local_frames.clear();
        assert(self@.pending_local_frames =~= Seq::<AnnotatedView>::empty());
        match self.active_session.take() {
            Some(session) => self.finalize_session(session),
            None => TrackerOutput::empty(),
        }
    }

    fn is_in_cooldown(&self, frame_index: u64) -> (r: bool)
        ensures
            r == in_cooldown(self@, frame_index),
    {
        match self.next_session_allowed_frame {
            Some(next_allowed_frame) => frame_index < next_allowed_frame,
            None => false,
        }
    }

    fn start_session(&mut self, frames: Vec<AnnotatedFrame>)
        requires
            old(self)@.periodic_capture_interval_frames > 0,
            forall|i: int| 0 <= i < frames.len() ==> (#[trigger] frames@[i]).frame.index < u64::MAX,
        ensures
            final(self)@ == start_session(old(self)@, annotated_views(frames@)),
    {
        let ghost views = annotated_views(frames@);
        let session_id = self.next_session_id;
        self.next_session_id = self.next_session_id.saturating_add(1);

        let mut session = ActiveMotionSession::new(session_id);
        let mut i: usize = 0;
        while i < frames.len()
            invariant
                views == annotated_views(frames@),
                i <= frames.len(),
                self.periodic_capture_interval_frames > 0,
                forall|k: int| 0 <= k < frames.len() ==> (#[trigger] frames@[k]).frame.index < u64::MAX,
                session@ == fold_active(
                    new_session_model(session_id),
                    views.take(i as int),
                    self.initial_capture_delay_frames,
                    self.periodic_capture_interval_frames,
                ),
            decreases frames.len() - i,
        {
            assert(views.take(i + 1).drop_last() =~= views.take(i as int));
            let _ = session.ingest_active_frame(
                frames[i].clone(),
                self.initial_capture_delay_frames,
                self.periodic_capture_interval_frames,
            );
            i = i + 1;
        }
        assert(views.take(frames.len() as int) =~= views);
        self.active_session = Some(session);
    }

    fn finalize_session(&mut self, session: ActiveMotionSession) -> (r: TrackerOutput)
        requires
            old(self).active_session is None,
        ensures
            (final(self)@, r@) == finalize_session(old(self)@, session@),
    {
        let mut session = session;
        let output = session.finalize();
        self.next_session_allowed_frame = Some(
            session.last_active_frame_index.saturating_add(self.session_cooldown_frames),
        );
        output
    }
}

} // verus!
