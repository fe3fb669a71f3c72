//! Where captured frames lie: with frames fed in order, every frame a session holds lies between
//! its first and last active frames, and so does every capture it hands back.

use vstd::prelude::*;
use crate::session::{
    AnnotatedView, EventView, SessionModel, TrackerModel, closest_frame, closest_of_pair, finalize,
    finish_step, fold_active, ingest_active, ingest_step, insert_by_index, midpoint_frame,
    new_session_model, periodic_measure, periodic_selections, record_selection, sorted_unique,
    tracker_inv, with_final_selection, initial_tracker, session_inv,
};

verus! {

/// Every frame of `s` has an index in `lo..=hi`.
pub open spec fn all_within(s: Seq<AnnotatedView>, lo: u64, hi: u64) -> bool {
    forall|i: int| 0 <= i < s.len() ==> lo <= (#[trigger] s[i]).frame.index <= hi
}

/// Every event is a snapshot choice of a frame with an index in `lo..=hi`.
pub open spec fn event_frames_within(events: Seq<EventView>, lo: u64, hi: u64) -> bool {
    forall|i: int|
        0 <= i < events.len() ==> ((#[trigger] events[i]) is SnapshotSelected && lo
            <= events[i]->frame.index <= hi)
}

/// The frames a session holds lie between its first and last active frames.
pub open spec fn session_frames_bounded(s: SessionModel) -> bool {
    &&& s.started_at is None ==> (s.pre_capture_frames.len() == 0 && s.selected_frames.len() == 0
        && s.previous_active_frame is None)
    &&& s.start_frame_index <= s.last_active_frame_index
    &&& all_within(s.pre_capture_frames, s.start_frame_index, s.last_active_frame_index)
    &&& all_within(s.selected_frames, s.start_frame_index, s.last_active_frame_index)
    &&& (s.previous_active_frame matches Some(p) ==> s.start_frame_index <= p.frame.index
        <= s.last_active_frame_index)
}

/// The frames waiting for local confirmation are in index order, and an open session's frames
/// are bounded.
pub open spec fn frames_bounded(t: TrackerModel) -> bool {
    &&& forall|i: int, j: int|
        0 <= i < j < t.pending_local_frames.len() ==> (#[trigger] t.pending_local_frames[i]).frame.index
            <= (#[trigger] t.pending_local_frames[j]).frame.index
    &&& (t.active_session matches Some(s) ==> session_frames_bounded(s))
}

/// `a` comes no earlier than any frame the tracker has seen and still holds.
pub open spec fn comes_after(t: TrackerModel, a: AnnotatedView) -> bool {
    &&& forall|i: int|
        0 <= i < t.pending_local_frames.len() ==> (#[trigger] t.pending_local_frames[i]).frame.index
            <= a.frame.index
    &&& (t.active_session matches Some(s) ==> s.last_active_frame_index <= a.frame.index)
}

pub proof fn lemma_closest_within(frames: Seq<AnnotatedView>, target: u64, lo: u64, hi: u64)
    requires
        frames.len() > 0,
        all_within(frames, lo, hi),
    ensures
        lo <= closest_frame(frames, target).frame.index <= hi,
    decreases frames.len(),
{
    if frames.len() > 1 {
        let prefix = frames.drop_last();
        assert forall|i: int| 0 <= i < prefix.len() implies lo <= (#[trigger] prefix[i]).frame.index
            <= hi by {
            assert(prefix[i] == frames[i]);
        }
        lemma_closest_within(prefix, target, lo, hi);
        assert(frames.last() == frames[frames.len() - 1]);
    } else {
        assert(frames[0] == frames[0]);
    }
}

proof fn lemma_insert_within(t: Seq<AnnotatedView>, x: AnnotatedView, lo: u64, hi: u64)
    requires
        all_within(t, lo, hi),
        lo <= x.frame.index <= hi,
    ensures
        all_within(insert_by_index(t, x), lo, hi),
    decreases t.len(),
{
    if t.len() > 0 {
        let rest = t.drop_first();
        assert forall|i: int| 0 <= i < rest.len() implies lo <= (#[trigger] rest[i]).frame.index
            <= hi by {
            assert(rest[i] == t[i + 1]);
        }
        lemma_insert_within(rest, x, lo, hi);
        let r = insert_by_index(t, x);
        if x.frame.index < t[0].frame.index {
            assert forall|i: int| 0 <= i < r.len() implies lo <= (#[trigger] r[i]).frame.index
                <= hi by {
                if i > 0 {
                    assert(r[i] == t[i - 1]);
                }
            }
        } else if x.frame.index > t[0].frame.index {
            let inner = insert_by_index(rest, x);
            assert forall|i: int| 0 <= i < r.len() implies lo <= (#[trigger] r[i]).frame.index
                <= hi by {
                if i > 0 {
                    assert(r[i] == inner[i - 1]);
                } else {
                    assert(r[0] == t[0]);
                }
            }
        }
    }
}

proof fn lemma_sorted_unique_within(s: Seq<AnnotatedView>, lo: u64, hi: u64)
    requires
        all_within(s, lo, hi),
    ensures
        all_within(sorted_unique(s), lo, hi),
    decreases s.len(),
{
    if s.len() > 0 {
        let prefix = s.drop_last();
        assert forall|i: int| 0 <= i < prefix.len() implies lo <= (#[trigger] prefix[i]).frame.index
            <= hi by {
            assert(prefix[i] == s[i]);
        }
        lemma_sorted_unique_within(prefix, lo, hi);
        assert(s.last() == s[s.len() - 1]);
        lemma_insert_within(sorted_unique(prefix), s.last(), lo, hi);
    }
}

/// Periodic snapshots keep the session's frames bounded when the new frame is its last active
/// frame.
proof fn lemma_periodic_within(s: SessionModel, a: AnnotatedView, interval: u64)
    requires
        interval > 0,
        a.frame.index < u64::MAX,
        session_frames_bounded(s),
        s.started_at is Some,
        s.last_active_frame_index == a.frame.index,
    ensures
        ({
            let r = periodic_selections(s, a, interval).0;
            &&& session_frames_bounded(r)
            &&& r.started_at == s.started_at
            &&& r.start_frame_index == s.start_frame_index
            &&& r.last_active_frame_index == s.last_active_frame_index
            &&& r.initial_capture_selected == s.initial_capture_selected
            &&& event_frames_within(
                periodic_selections(s, a, interval).1,
                s.start_frame_index,
                s.last_active_frame_index,
            )
        }),
    decreases periodic_measure(s, a),
{
    match s.next_periodic_target_frame {
        Some(target) => if a.frame.index >= target {
            let chosen = closest_of_pair(s.previous_active_frame, a, target);
            let (s1, e) = record_selection(s, chosen);
            assert(s.start_frame_index <= chosen.frame.index <= s.last_active_frame_index);
            assert(all_within(s1.selected_frames, s.start_frame_index, s.last_active_frame_index))
                by {
                assert forall|i: int| 0 <= i < s1.selected_frames.len() implies s.start_frame_index
                    <= (#[trigger] s1.selected_frames[i]).frame.index <= s.last_active_frame_index by {
                    if i < s.selected_frames.len() {
                        assert(s1.selected_frames[i] == s.selected_frames[i]);
                    }
                }
            }
            let s2 = SessionModel {
                next_periodic_target_frame: Some(target.saturating_add(interval)),
                ..s1
            };
            lemma_periodic_within(s2, a, interval);
            let rest = periodic_selections(s2, a, interval).1;
            assert forall|i: int| 0 <= i < (seq![e] + rest).len() implies ((#[trigger] (seq![e]
                + rest)[i]) is SnapshotSelected && s.start_frame_index <= (seq![e] + rest)[i]->frame.index
                <= s.last_active_frame_index) by {
                if i > 0 {
                    assert((seq![e] + rest)[i] == rest[i - 1]);
                }
            }
        },
        None => {},
    }
}

/// One active frame, no earlier than the session's last one, keeps the session's frames
/// bounded and becomes its last active frame.
pub proof fn lemma_ingest_active_within(s: SessionModel, a: AnnotatedView, delay: u64, interval: u64)
    requires
        interval > 0,
        a.frame.index < u64::MAX,
        session_frames_bounded(s),
        s.started_at is Some ==> s.last_active_frame_index <= a.frame.index,
    ensures
        ({
            let (r, events) = ingest_active(s, a, delay, interval);
            &&& session_frames_bounded(r)
            &&& r.last_active_frame_index == a.frame.index
            &&& r.start_frame_index == (if s.started_at is Some {
                s.start_frame_index
            } else {
                a.frame.index
            })
            &&& event_frames_within(events, r.start_frame_index, a.frame.index)
            &&& (s.initial_capture_selected ==> r.initial_capture_selected)
            &&& (!s.initial_capture_selected && r.initial_capture_selected) ==> events.len() > 0
        }),
{
    let s1 = SessionModel {
        started_at: if s.started_at is None {
            Some(a.frame.captured_at)
        } else {
            s.started_at
        },
        start_frame_index: if s.started_at is None {
            a.frame.index
        } else {
            s.start_frame_index
        },
        last_active_at: Some(a.frame.captured_at),
        last_active_frame_index: a.frame.index,
        inactive_frames: 0,
        ..s
    };
    let lo = s1.start_frame_index;
    let hi = a.frame.index;
    assert(all_within(s1.pre_capture_frames, lo, hi));
    assert(all_within(s1.selected_frames, lo, hi));
    assert(session_frames_bounded(s1));
    if !s1.initial_capture_selected {
        let pre = s1.pre_capture_frames.push(a);
        assert forall|i: int| 0 <= i < pre.len() implies lo <= (#[trigger] pre[i]).frame.index
            <= hi by {
            if i < s1.pre_capture_frames.len() {
                assert(pre[i] == s1.pre_capture_frames[i]);
            }
        }
        let target = s1.start_frame_index.saturating_add(delay);
        if a.frame.index >= target {
            let chosen = closest_frame(pre, target);
            lemma_closest_within(pre, target, lo, hi);
            let sel = s1.selected_frames.push(chosen);
            assert forall|i: int| 0 <= i < sel.len() implies lo <= (#[trigger] sel[i]).frame.index
                <= hi by {
                if i < s1.selected_frames.len() {
                    assert(sel[i] == s1.selected_frames[i]);
                }
            }
            let events = ingest_active(s, a, delay, interval).1;
            assert(events.len() == 1);
            assert(events[0] is SnapshotSelected && events[0]->frame == chosen.frame);
        }
    } else {
        lemma_periodic_within(s1, a, interval);
    }
}

/// A new session fed frames in index order keeps its frames bounded, ending at the last one.
pub proof fn lemma_fold_within(s: SessionModel, frames: Seq<AnnotatedView>, delay: u64, interval: u64)
    requires
        interval > 0,
        forall|i: int| 0 <= i < frames.len() ==> (#[trigger] frames[i]).frame.index < u64::MAX,
        forall|i: int, j: int|
            0 <= i < j < frames.len() ==> (#[trigger] frames[i]).frame.index
                <= (#[trigger] frames[j]).frame.index,
        s == new_session_model(s.session_id),
    ensures
        session_frames_bounded(fold_active(s, frames, delay, interval)),
        frames.len() > 0 ==> fold_active(s, frames, delay, interval).last_active_frame_index
            == frames.last().frame.index,
        frames.len() == 0 ==> fold_active(s, frames, delay, interval) == s,
    decreases frames.len(),
{
    if frames.len() > 0 {
        let prefix = frames.drop_last();
        assert forall|i: int| 0 <= i < prefix.len() implies (#[trigger] prefix[i]).frame.index
            < u64::MAX by {
            assert(prefix[i] == frames[i]);
        }
        assert forall|i: int, j: int| 0 <= i < j < prefix.len() implies (#[trigger] prefix[i]).frame.index
            <= (#[trigger] prefix[j]).frame.index by {
            assert(prefix[i] == frames[i] && prefix[j] == frames[j]);
        }
        lemma_fold_within(s, prefix, delay, interval);
        let last = frames[frames.len() - 1];
        assert(frames.last() == last);
        if prefix.len() > 0 {
            assert(prefix.last() == frames[frames.len() - 2]);
        }
        lemma_ingest_active_within(fold_active(s, prefix, delay, interval), last, delay, interval);
    }
}

/// The events of an ending session: snapshot choices within its bounds, then the finish notice;
/// a session whose first snapshot was not chosen yet gets one now.
pub proof fn lemma_finalize_events_within(s: SessionModel)
    requires
        session_frames_bounded(s),
        session_inv(s),
    ensures
        finalize(s).events.len() > 0,
        event_frames_within(
            finalize(s).events.drop_last(),
            s.start_frame_index,
            s.last_active_frame_index,
        ),
        !s.initial_capture_selected ==> finalize(s).events.len() >= 2,
{
    let (s1, first) = with_final_selection(s);
    let events = finalize(s).events;
    assert(events.drop_last() =~= first);
    if !s.initial_capture_selected {
        let chosen = closest_frame(
            s.pre_capture_frames,
            midpoint_frame(s.start_frame_index, s.last_active_frame_index),
        );
        lemma_closest_within(
            s.pre_capture_frames,
            midpoint_frame(s.start_frame_index, s.last_active_frame_index),
            s.start_frame_index,
            s.last_active_frame_index,
        );
        assert(first.len() == 1 && first[0]->frame == chosen.frame);
    }
}

/// The captures of an ending session lie between its first and last active frames.
pub proof fn lemma_finalize_within(s: SessionModel)
    requires
        session_frames_bounded(s),
    ensures
        forall|i: int|
            0 <= i < finalize(s).captures.len() ==> (#[trigger] finalize(s).captures[i]).summary.motion_started_frame_index
                <= finalize(s).captures[i].frame.index
                <= finalize(s).captures[i].summary.motion_ended_frame_index,
{
    if s.started_at is Some && s.last_active_at is Some {
        let lo = s.start_frame_index;
        let hi = s.last_active_frame_index;
        let (s1, first) = with_final_selection(s);
        if !s.initial_capture_selected && s.pre_capture_frames.len() > 0 {
            let chosen = closest_frame(
                s.pre_capture_frames,
                midpoint_frame(s.start_frame_index, s.last_active_frame_index),
            );
            lemma_closest_within(
                s.pre_capture_frames,
                midpoint_frame(s.start_frame_index, s.last_active_frame_index),
                lo,
                hi,
            );
            assert forall|i: int| 0 <= i < s1.selected_frames.len() implies lo
                <= (#[trigger] s1.selected_frames[i]).frame.index <= hi by {
                if i < s.selected_frames.len() {
                    assert(s1.selected_frames[i] == s.selected_frames[i]);
                }
            }
        }
        lemma_sorted_unique_within(s1.selected_frames, lo, hi);
        let sorted = sorted_unique(s1.selected_frames);
        assert forall|i: int| 0 <= i < finalize(s).captures.len() implies (#[trigger] finalize(
            s,
        ).captures[i]).summary.motion_started_frame_index <= finalize(s).captures[i].frame.index
            <= finalize(s).captures[i].summary.motion_ended_frame_index by {
            assert(finalize(s).captures[i].frame == sorted[i].frame);
        }
    }
}

/// A freshly built tracker holds no frames, so [`frames_bounded`] holds from the start.
pub proof fn lemma_fresh_tracker_frames_bounded(settings: crate::config::MotionDetectionConfig)
    ensures
        frames_bounded(initial_tracker(settings)),
{
}

/// Law: with frames fed in index order, every capture a step hands back lies between the first
/// and last active frames of its session, and the tracker keeps holding only frames in order
/// and within their session's bounds.
pub proof fn law_captures_lie_within_their_session(t: TrackerModel, a: AnnotatedView)
    requires
        tracker_inv(t),
        frames_bounded(t),
        comes_after(t, a),
        a.frame.index < u64::MAX,
    ensures
        ({
            let (t2, out) = ingest_step(t, a);
            &&& frames_bounded(t2)
            &&& comes_after(t2, a)
            &&& forall|i: int|
                0 <= i < out.captures.len() ==> (#[trigger] out.captures[i]).summary.motion_started_frame_index
                    <= out.captures[i].frame.index
                    <= out.captures[i].summary.motion_ended_frame_index
        }),
        forall|i: int|
            0 <= i < finish_step(t).1.captures.len() ==> (#[trigger] finish_step(
                t,
            ).1.captures[i]).summary.motion_started_frame_index
                <= finish_step(t).1.captures[i].frame.index
                <= finish_step(t).1.captures[i].summary.motion_ended_frame_index,
{
    let delay = t.initial_capture_delay_frames;
    let interval = t.periodic_capture_interval_frames;
    match t.active_session {
        Some(s) => {
            lemma_finalize_within(s);
            let s2 = SessionModel { inactive_frames: s.inactive_frames.saturating_add(1), ..s };
            lemma_finalize_within(s2);
            if a.analysis.spec_is_motion_active() {
                lemma_ingest_active_within(s, a, delay, interval);
            }
        },
        None => {
            let fresh = new_session_model(t.next_session_id);
            let single = seq![a];
            assert forall|i: int| 0 <= i < single.len() implies (#[trigger] single[i]).frame.index
                < u64::MAX by {
                assert(single[i] == a);
            }
            lemma_fold_within(fresh, single, delay, interval);
            assert(single.last() == a);
            let pending = t.pending_local_frames.push(a);
            assert forall|i: int| 0 <= i < pending.len() implies (#[trigger] pending[i]).frame.index
                < u64::MAX by {
                if i < t.pending_local_frames.len() {
                    assert(pending[i] == t.pending_local_frames[i]);
                }
            }
            assert forall|i: int, j: int| 0 <= i < j < pending.len() implies (#[trigger] pending[i]).frame.index
                <= (#[trigger] pending[j]).frame.index by {
                assert(pending[i] == t.pending_local_frames[i]);
                if j < t.pending_local_frames.len() {
                    assert(pending[j] == t.pending_local_frames[j]);
                }
            }
            assert forall|i: int| 0 <= i < pending.len() implies (#[trigger] pending[i]).frame.index
                <= a.frame.index by {
                if i < t.pending_local_frames.len() {
                    assert(pending[i] == t.pending_local_frames[i]);
                }
            }
            lemma_fold_within(fresh, pending, delay, interval);
            assert(pending.last() == a);
        },
    }
}

} // verus!
