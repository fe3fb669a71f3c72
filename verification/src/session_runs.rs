//! Whole runs of the tracker: the finish notices of a run count the sessions 1, 2, 3, ..., and
//! every snapshot choice belongs to the session that is open when it is made.

use vstd::prelude::*;
use crate::session::{
    AnnotatedView, EventView, SessionModel, TrackerModel, closest_of_pair, finalize, finish_step,
    ingest_active, ingest_step, initial_tracker, lemma_finish_step_inv, lemma_ingest_step_inv,
    new_session_model, lemma_ingest_active_inv, periodic_measure, periodic_selections, record_selection, session_inv,
    summary_of, tracker_inv, with_final_selection,
};
use crate::session_laws::{law_captures_come_with_the_finish_notice, lemma_fold_keeps_id_and_start};

verus! {

/// Feeds `frames` to the tracker in order; the new state and every event reported.
pub open spec fn run_steps(t: TrackerModel, frames: Seq<AnnotatedView>) -> (TrackerModel, Seq<EventView>)
    decreases frames.len(),
{
    if frames.len() == 0 {
        (t, Seq::empty())
    } else {
        let (t1, events) = run_steps(t, frames.drop_last());
        let (t2, out) = ingest_step(t1, frames.last());
        (t2, events + out.events)
    }
}

/// The session ids of the finish notices among `events`, in order.
pub open spec fn finish_ids(events: Seq<EventView>) -> Seq<u64>
    decreases events.len(),
{
    if events.len() == 0 {
        Seq::empty()
    } else {
        let earlier = finish_ids(events.drop_last());
        match events.last() {
            EventView::SessionFinished(summary) => earlier.push(summary.session_id),
            EventView::SnapshotSelected { .. } => earlier,
        }
    }
}

/// The ids are 1, 2, 3, ...
pub open spec fn counts_up(ids: Seq<u64>) -> bool {
    forall|k: int| 0 <= k < ids.len() ==> #[trigger] ids[k] == k + 1
}

/// Every snapshot choice carries the id of the session after the ones finished before it.
pub open spec fn selections_labelled(events: Seq<EventView>) -> bool {
    forall|i: int|
        0 <= i < events.len() && (#[trigger] events[i]) is SnapshotSelected ==> events[i]->session_id
            == finish_ids(events.take(i)).len() + 1
}

/// What a run keeps: the finished sessions are numbered 1, 2, ..., the open one comes next,
/// and the next id follows.
pub open spec fn run_inv(t: TrackerModel, events: Seq<EventView>) -> bool {
    &&& counts_up(finish_ids(events))
    &&& selections_labelled(events)
    &&& t.next_session_id == finish_ids(events).len() + 1 + (if t.active_session is Some {
        1int
    } else {
        0int
    })
    &&& (t.active_session matches Some(s) ==> s.session_id == finish_ids(events).len() + 1)
}

pub proof fn lemma_finish_ids_append(a: Seq<EventView>, b: Seq<EventView>)
    ensures
        finish_ids(a + b) == finish_ids(a) + finish_ids(b),
    decreases b.len(),
{
    if b.len() == 0 {
        assert(a + b =~= a);
        assert(finish_ids(b) =~= Seq::<u64>::empty());
        assert(finish_ids(a) + finish_ids(b) =~= finish_ids(a));
    } else {
        lemma_finish_ids_append(a, b.drop_last());
        assert((a + b).drop_last() =~= a + b.drop_last());
        assert((a + b).last() == b.last());
        match b.last() {
            EventView::SessionFinished(summary) => {
                assert(finish_ids(a) + finish_ids(b.drop_last()).push(summary.session_id)
                    =~= (finish_ids(a) + finish_ids(b.drop_last())).push(summary.session_id));
            },
            EventView::SnapshotSelected { .. } => {},
        }
    }
}

pub proof fn lemma_selections_have_no_finish_ids(b: Seq<EventView>)
    requires
        forall|i: int| 0 <= i < b.len() ==> (#[trigger] b[i]) is SnapshotSelected,
    ensures
        finish_ids(b).len() == 0,
    decreases b.len(),
{
    if b.len() > 0 {
        let p = b.drop_last();
        assert forall|i: int| 0 <= i < p.len() implies (#[trigger] p[i]) is SnapshotSelected by {
            assert(p[i] == b[i]);
        }
        lemma_selections_have_no_finish_ids(p);
        assert(b.last() == b[b.len() - 1]);
    }
}

/// The periodic snapshots of a session carry its id.
proof fn lemma_periodic_ids(s: SessionModel, a: AnnotatedView, interval: u64)
    requires
        interval > 0,
        a.frame.index < u64::MAX,
    ensures
        forall|i: int|
            0 <= i < periodic_selections(s, a, interval).1.len() ==> ((#[trigger] periodic_selections(
                s,
                a,
                interval,
            ).1[i]) is SnapshotSelected && periodic_selections(s, a, interval).1[i]->session_id
                == s.session_id),
        periodic_selections(s, a, interval).0.session_id == s.session_id,
    decreases periodic_measure(s, a),
{
    match s.next_periodic_target_frame {
        Some(target) => if a.frame.index >= target {
            let (s1, e) = record_selection(s, closest_of_pair(s.previous_active_frame, a, target));
            let s2 = SessionModel {
                next_periodic_target_frame: Some(target.saturating_add(interval)),
                ..s1
            };
            lemma_periodic_ids(s2, a, interval);
            let rest = periodic_selections(s2, a, interval).1;
            assert forall|i: int| 0 <= i < (seq![e] + rest).len() implies ((#[trigger] (seq![e]
                + rest)[i]) is SnapshotSelected && (seq![e] + rest)[i]->session_id
                == s.session_id) by {
                if i > 0 {
                    assert((seq![e] + rest)[i] == rest[i - 1]);
                }
            }
        },
        None => {},
    }
}

/// The events of one step carry the id of the session that was open before it.
pub proof fn lemma_step_event_ids(t: TrackerModel, a: AnnotatedView)
    requires
        tracker_inv(t),
        a.frame.index < u64::MAX,
    ensures
        t.active_session is None ==> ingest_step(t, a).1.events.len() == 0,
        t.active_session matches Some(s) ==> forall|i: int|
            0 <= i < ingest_step(t, a).1.events.len() ==> match #[trigger] ingest_step(
                t,
                a,
            ).1.events[i] {
                EventView::SnapshotSelected { session_id, .. } => session_id == s.session_id,
                EventView::SessionFinished(summary) => summary.session_id == s.session_id,
            },
        t.active_session is None ==> finish_step(t).1.events.len() == 0,
        t.active_session matches Some(s) ==> forall|i: int|
            0 <= i < finish_step(t).1.events.len() ==> match #[trigger] finish_step(t).1.events[i] {
                EventView::SnapshotSelected { session_id, .. } => session_id == s.session_id,
                EventView::SessionFinished(summary) => summary.session_id == s.session_id,
            },
{
    match t.active_session {
        Some(s) => {
            lemma_finalize_ids(s);
            let s2 = SessionModel { inactive_frames: s.inactive_frames.saturating_add(1), ..s };
            lemma_finalize_ids(s2);
            if a.analysis.spec_is_motion_active() {
                let s1 = SessionModel {
                    started_at: if s.started_at is None {
                        Some(a.frame.captured_at)
                    } else {
                        s.started_at
                    },
                    start_frame_index: if s.started_at is None {
                        a.frame.index
                    } else {
                        s.start_frame_index
                    },
                    last_active_at: Some(a.frame.captured_at),
                    last_active_frame_index: a.frame.index,
                    inactive_frames: 0,
                    ..s
                };
                lemma_periodic_ids(s1, a, t.periodic_capture_interval_frames);
            }
        },
        None => {},
    }
}

pub proof fn lemma_finalize_ids(s: SessionModel)
    ensures
        forall|i: int|
            0 <= i < finalize(s).events.len() ==> match #[trigger] finalize(s).events[i] {
                EventView::SnapshotSelected { session_id, .. } => session_id == s.session_id,
                EventView::SessionFinished(summary) => summary.session_id == s.session_id,
            },
{
    if s.started_at is Some && s.last_active_at is Some {
        let (s1, first) = with_final_selection(s);
        let events = first.push(EventView::SessionFinished(summary_of(s)));
        assert forall|i: int| 0 <= i < events.len() implies match #[trigger] events[i] {
            EventView::SnapshotSelected { session_id, .. } => session_id == s.session_id,
            EventView::SessionFinished(summary) => summary.session_id == s.session_id,
        } by {
            if i < first.len() {
                assert(events[i] == first[i]);
            }
        }
    }
}

/// One step keeps [`run_inv`].
pub proof fn lemma_step_keeps_run_inv(t: TrackerModel, events: Seq<EventView>, a: AnnotatedView)
    requires
        tracker_inv(t),
        run_inv(t, events),
        a.frame.index < u64::MAX,
        t.next_session_id < u64::MAX,
    ensures
        ({
            let (t2, out) = ingest_step(t, a);
            &&& run_inv(t2, events + out.events)
            &&& t2.next_session_id <= t.next_session_id + 1
        }),
{
    let (t2, out) = ingest_step(t, a);
    let more = out.events;
    let all = events + more;
    law_captures_come_with_the_finish_notice(t, a);
    lemma_step_event_ids(t, a);
    lemma_finish_ids_append(events, more);
    let n = finish_ids(events).len();
    if more.len() > 0 {
        let head = more.take(more.len() - 1);
        assert forall|i: int| 0 <= i < head.len() implies (#[trigger] head[i]) is SnapshotSelected by {
            assert(head[i] == more[i]);
        }
        lemma_selections_have_no_finish_ids(head);
        assert(more =~= head.push(more.last()));
    }
    assert forall|i: int| 0 <= i < all.len() && (#[trigger] all[i]) is SnapshotSelected implies all[i]->session_id
        == finish_ids(all.take(i)).len() + 1 by {
        if i < events.len() {
            assert(all.take(i) =~= events.take(i));
            assert(all[i] == events[i]);
        } else {
            let j = i - events.len();
            assert(all[i] == more[j]);
            assert(all.take(i) =~= events + more.take(j));
            lemma_finish_ids_append(events, more.take(j));
            let part = more.take(j);
            assert forall|k: int| 0 <= k < part.len() implies (#[trigger] part[k]) is SnapshotSelected by {
                assert(part[k] == more[k]);
            }
            lemma_selections_have_no_finish_ids(part);
        }
    }
    match t.active_session {
        Some(s) => {
            if more.len() > 0 && more.last() is SessionFinished {
                let head = more.take(more.len() - 1);
                lemma_finish_ids_append(head, seq![more.last()]);
                assert(seq![more.last()].drop_last() =~= Seq::<EventView>::empty());
                assert(finish_ids(more) == seq![s.session_id]);
                assert forall|k: int| 0 <= k < finish_ids(all).len() implies #[trigger] finish_ids(
                    all,
                )[k] == k + 1 by {
                    if k < n {
                        assert(finish_ids(all)[k] == finish_ids(events)[k]);
                    }
                }
            } else if more.len() > 0 {
                let head = more.take(more.len() - 1);
                lemma_finish_ids_append(head, seq![more.last()]);
                assert(seq![more.last()].drop_last() =~= Seq::<EventView>::empty());
                assert(finish_ids(more).len() == 0);
                assert(finish_ids(all) =~= finish_ids(events));
            } else {
                assert(finish_ids(more) =~= Seq::<u64>::empty());
                assert(finish_ids(all) =~= finish_ids(events));
            }
            if a.analysis.spec_is_motion_active() {
                lemma_ingest_active_inv(
                    s,
                    a,
                    t.initial_capture_delay_frames,
                    t.periodic_capture_interval_frames,
                );
            }
        },
        None => {
            assert(more.len() == 0);
            assert(all =~= events);
            let fresh = new_session_model(t.next_session_id);
            let single = seq![a];
            assert forall|i: int| 0 <= i < single.len() implies (#[trigger] single[i]).frame.index
                < u64::MAX by {
                assert(single[i] == a);
            }
            lemma_fold_keeps_id_and_start(
                fresh,
                single,
                t.initial_capture_delay_frames,
                t.periodic_capture_interval_frames,
            );
            let pending = t.pending_local_frames.push(a);
            assert forall|i: int| 0 <= i < pending.len() implies (#[trigger] pending[i]).frame.index
                < u64::MAX by {
                if i < t.pending_local_frames.len() {
                    assert(pending[i] == t.pending_local_frames[i]);
                }
            }
            lemma_fold_keeps_id_and_start(
                fresh,
                pending,
                t.initial_capture_delay_frames,
                t.periodic_capture_interval_frames,
            );
        },
    }
}

proof fn lemma_run_keeps_inv(t: TrackerModel, frames: Seq<AnnotatedView>)
    requires
        tracker_inv(t),
        run_inv(t, Seq::empty()),
        forall|i: int| 0 <= i < frames.len() ==> (#[trigger] frames[i]).frame.index < u64::MAX,
        t.next_session_id + frames.len() < u64::MAX,
    ensures
        ({
            let (t2, events) = run_steps(t, frames);
            &&& tracker_inv(t2)
            &&& run_inv(t2, events)
            &&& t2.next_session_id <= t.next_session_id + frames.len()
        }),
    decreases frames.len(),
{
    if frames.len() > 0 {
        let prefix = frames.drop_last();
        assert forall|i: int| 0 <= i < prefix.len() implies (#[trigger] prefix[i]).frame.index
            < u64::MAX by {
            assert(prefix[i] == frames[i]);
        }
        lemma_run_keeps_inv(t, prefix);
        let (t1, events) = run_steps(t, prefix);
        assert(frames.last() == frames[frames.len() - 1]);
        lemma_ingest_step_inv(t1, frames.last());
        lemma_step_keeps_run_inv(t1, events, frames.last());
    }
}

/// Law: in a run of a freshly built tracker (positive frame rate and long-motion interval), fed
/// frames with indices below `u64::MAX` and fewer than `u64::MAX - 2` of them, the finish
/// notices carry the session ids 1, 2, 3, ... in order, also once the input is finished, and
/// every snapshot choice carries the id of the session that is open when it is made (one more
/// than the number of sessions finished before it).
pub proof fn law_sessions_are_numbered_in_order(
    settings: crate::config::MotionDetectionConfig,
    frames: Seq<AnnotatedView>,
)
    requires
        settings.frame_rate > 0,
        settings.long_motion_snapshot_interval_seconds > 0,
        forall|i: int| 0 <= i < frames.len() ==> (#[trigger] frames[i]).frame.index < u64::MAX,
        frames.len() + 2 < u64::MAX,
    ensures
        ({
            let (t, events) = run_steps(initial_tracker(settings), frames);
            let all = events + finish_step(t).1.events;
            &&& counts_up(finish_ids(events))
            &&& selections_labelled(events)
            &&& counts_up(finish_ids(all))
            &&& selections_labelled(all)
        }),
{
    let t0 = initial_tracker(settings);
    let rate = settings.frame_rate as u64;
    assert(settings.long_motion_snapshot_interval_seconds * rate > 0) by (nonlinear_arith)
        requires
            settings.long_motion_snapshot_interval_seconds > 0,
            rate > 0,
    ;
    assert(finish_ids(Seq::<EventView>::empty()) =~= Seq::<u64>::empty());
    lemma_run_keeps_inv(t0, frames);
    let (t, events) = run_steps(t0, frames);
    // The facts about finishing do not depend on the frame these lemmas also take.
    let any_frame = AnnotatedView {
        frame: crate::ffmpeg::FrameView {
            index: 0,
            captured_at: 0,
            width: 0,
            height: 0,
            rgb: Seq::empty(),
        },
        analysis: crate::motion::MotionAnalysis {
            motion_ratio: crate::motion::Ratio { numerator: 0, denominator: 1 },
            local_motion_ratio: crate::motion::Ratio { numerator: 0, denominator: 1 },
            global_triggered: false,
            local_triggered: false,
        },
    };
    let more = finish_step(t).1.events;
    let all = events + more;
    law_captures_come_with_the_finish_notice(t, any_frame);
    lemma_step_event_ids(t, any_frame);
    lemma_finish_ids_append(events, more);
    let n = finish_ids(events).len();
    if more.len() > 0 {
        let head = more.take(more.len() - 1);
        assert forall|i: int| 0 <= i < head.len() implies (#[trigger] head[i]) is SnapshotSelected by {
            assert(head[i] == more[i]);
        }
        lemma_selections_have_no_finish_ids(head);
        assert(more =~= head.push(more.last()));
        lemma_finish_ids_append(head, seq![more.last()]);
        assert(seq![more.last()].drop_last() =~= Seq::<EventView>::empty());
        let s = t.active_session.unwrap();
        assert(finish_ids(more) == seq![s.session_id]);
        assert forall|k: int| 0 <= k < finish_ids(all).len() implies #[trigger] finish_ids(all)[k]
            == k + 1 by {
            if k < n {
                assert(finish_ids(all)[k] == finish_ids(events)[k]);
            }
        }
    } else {
        assert(all =~= events);
    }
    assert forall|i: int| 0 <= i < all.len() && (#[trigger] all[i]) is SnapshotSelected implies all[i]->session_id
        == finish_ids(all.take(i)).len() + 1 by {
        if i < events.len() {
            assert(all.take(i) =~= events.take(i));
            assert(all[i] == events[i]);
        } else {
            let j = i - events.len();
            assert(all[i] == more[j]);
            assert(all.take(i) =~= events + more.take(j));
            lemma_finish_ids_append(events, more.take(j));
            let part = more.take(j);
            assert forall|k: int| 0 <= k < part.len() implies (#[trigger] part[k]) is SnapshotSelected by {
                assert(part[k] == more[k]);
            }
            lemma_selections_have_no_finish_ids(part);
        }
    }
}

} // verus!
