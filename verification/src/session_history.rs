//! What a whole run of the tracker reports about each session: the snapshot choices of a session
//! lie between its first and last active frames, a session that ends has had a snapshot chosen
//! (unless it chose its first snapshot while it was opening, which is not reported), and the
//! captures of every step lie within their session.

use vstd::prelude::*;
use crate::session::{
    AnnotatedView, CaptureView, EventView, SessionModel, TrackerModel, finalize, finish_step,
    ingest_active, ingest_step, initial_tracker, lemma_ingest_step_inv, session_inv, summary_of,
    tracker_inv,
};
use crate::session_bounds::{
    comes_after, event_frames_within, frames_bounded, law_captures_lie_within_their_session,
    lemma_finalize_events_within, lemma_fresh_tracker_frames_bounded, lemma_ingest_active_within,
    session_frames_bounded,
};
use crate::session_laws::law_captures_come_with_the_finish_notice;
use crate::session_runs::{
    counts_up, finish_ids, lemma_finalize_ids, lemma_finish_ids_append,
    lemma_selections_have_no_finish_ids, lemma_step_event_ids, lemma_step_keeps_run_inv, run_inv,
    run_steps, selections_labelled,
};

verus! {

/// Each snapshot choice lies between the first and last active frames that its session's
/// finish notice reports.
pub open spec fn selections_within_sessions(events: Seq<EventView>) -> bool {
    forall|q: int, p: int|
        0 <= q < events.len() && 0 <= p < events.len() && (#[trigger] events[q]) is SnapshotSelected
            && (#[trigger] events[p]) is SessionFinished && events[q]->session_id
            == events[p]->0.session_id ==> events[p]->0.motion_started_frame_index
            <= events[q]->frame.index <= events[p]->0.motion_ended_frame_index
}

/// Each finish notice comes after at least one snapshot choice of the same session.
pub open spec fn sessions_have_selections(events: Seq<EventView>) -> bool {
    forall|p: int|
        0 <= p < events.len() && (#[trigger] events[p]) is SessionFinished ==> exists|q: int|
            0 <= q < p && (#[trigger] events[q]) is SnapshotSelected && events[q]->session_id
                == events[p]->0.session_id
}

/// A session opened by frame `a` has not chosen its first snapshot while opening.
pub open spec fn opens_without_choice(t: TrackerModel, a: AnnotatedView) -> bool {
    (t.active_session is None && ingest_step(t, a).0.active_session is Some)
        ==> !ingest_step(t, a).0.active_session.unwrap().initial_capture_selected
}

/// Every capture lies between its session's first and last active frames.
pub open spec fn captures_within(captures: Seq<CaptureView>) -> bool {
    forall|i: int|
        0 <= i < captures.len() ==> (#[trigger] captures[i]).summary.motion_started_frame_index
            <= captures[i].frame.index <= captures[i].summary.motion_ended_frame_index
}

/// Snapshot choices reported so far belong to finished sessions or to the open one, whose
/// choices lie within its current bounds.
pub open spec fn open_selections(t: TrackerModel, events: Seq<EventView>) -> bool {
    forall|q: int|
        0 <= q < events.len() && (#[trigger] events[q]) is SnapshotSelected ==> (if t.active_session is Some {
            &&& events[q]->session_id <= finish_ids(events).len() + 1
            &&& events[q]->session_id == finish_ids(events).len() + 1
                ==> t.active_session.unwrap().start_frame_index <= events[q]->frame.index
                <= t.active_session.unwrap().last_active_frame_index
        } else {
            events[q]->session_id <= finish_ids(events).len()
        })
}

/// An open session whose first snapshot was chosen has reported a choice.
pub open spec fn open_session_selected(t: TrackerModel, events: Seq<EventView>) -> bool {
    (t.active_session is Some && t.active_session.unwrap().initial_capture_selected) ==> exists|q: int|
        0 <= q < events.len() && (#[trigger] events[q]) is SnapshotSelected && events[q]->session_id
            == finish_ids(events).len() + 1
}

pub open spec fn history_inv(t: TrackerModel, events: Seq<EventView>, covered: bool) -> bool {
    &&& selections_within_sessions(events)
    &&& open_selections(t, events)
    &&& covered ==> (sessions_have_selections(events) && open_session_selected(t, events))
}

/// A finish notice carries an id no greater than the number of finish notices.
proof fn lemma_finish_label(events: Seq<EventView>, p: int)
    requires
        counts_up(finish_ids(events)),
        0 <= p < events.len(),
        events[p] is SessionFinished,
    ensures
        events[p]->0.session_id <= finish_ids(events).len(),
{
    let head = events.take(p + 1);
    let tail = events.skip(p + 1);
    assert(events =~= head + tail);
    lemma_finish_ids_append(head, tail);
    assert(head.drop_last() =~= events.take(p));
    assert(head.last() == events[p]);
    let m = finish_ids(events.take(p)).len();
    assert(finish_ids(head) == finish_ids(events.take(p)).push(events[p]->0.session_id));
    assert(finish_ids(events)[m as int] == finish_ids(head)[m as int]);
}

/// Appending the events of an ending session keeps the history.
proof fn lemma_end_history(s: SessionModel, events: Seq<EventView>, covered: bool)
    requires
        session_inv(s),
        session_frames_bounded(s),
        counts_up(finish_ids(events)),
        s.session_id == finish_ids(events).len() + 1,
        selections_within_sessions(events),
        forall|q: int|
            0 <= q < events.len() && (#[trigger] events[q]) is SnapshotSelected ==> (
            events[q]->session_id <= finish_ids(events).len() + 1 && (events[q]->session_id
                == finish_ids(events).len() + 1 ==> s.start_frame_index <= events[q]->frame.index
                <= s.last_active_frame_index)),
        covered ==> sessions_have_selections(events),
        (covered && s.initial_capture_selected) ==> exists|q: int|
            0 <= q < events.len() && (#[trigger] events[q]) is SnapshotSelected
                && events[q]->session_id == finish_ids(events).len() + 1,
    ensures
        ({
            let all = events + finalize(s).events;
            &&& finish_ids(all).len() == finish_ids(events).len() + 1
            &&& selections_within_sessions(all)
            &&& forall|q: int|
                0 <= q < all.len() && (#[trigger] all[q]) is SnapshotSelected ==> all[q]->session_id
                    <= finish_ids(all).len()
            &&& covered ==> sessions_have_selections(all)
        }),
{
    let n = finish_ids(events).len();
    let more = finalize(s).events;
    let all = events + more;
    lemma_finalize_events_within(s);
    lemma_finalize_ids(s);
    let head = more.drop_last();
    assert forall|i: int| 0 <= i < head.len() implies (#[trigger] head[i]) is SnapshotSelected by {
        assert(head[i] is SnapshotSelected);
    }
    lemma_selections_have_no_finish_ids(head);
    assert(more =~= head.push(more.last()));
    lemma_finish_ids_append(head, seq![more.last()]);
    assert(seq![more.last()].drop_last() =~= Seq::<EventView>::empty());
    assert(head + seq![more.last()] =~= more);
    let summary = summary_of(s);
    assert(more.last() == EventView::SessionFinished(summary));
    assert(finish_ids(more) =~= seq![s.session_id]);
    lemma_finish_ids_append(events, more);
    let last = all.len() - 1;
    assert(all[last] == more.last());
    assert forall|q: int, p: int|
        0 <= q < all.len() && 0 <= p < all.len() && (#[trigger] all[q]) is SnapshotSelected
            && (#[trigger] all[p]) is SessionFinished && all[q]->session_id
            == all[p]->0.session_id implies all[p]->0.motion_started_frame_index
            <= all[q]->frame.index <= all[p]->0.motion_ended_frame_index by {
        if p < events.len() {
            assert(all[p] == events[p]);
            lemma_finish_label(events, p);
            if q < events.len() {
                assert(all[q] == events[q]);
            } else {
                assert(all[q] == more[q - events.len()]);
                assert(more[q - events.len()]->session_id == s.session_id);
            }
        } else {
            assert(all[p] == more[p - events.len()]);
            if p - events.len() < more.len() - 1 {
                assert(more[p - events.len()] == head[p - events.len()]);
            }
            assert(p == last);
            if q < events.len() {
                assert(all[q] == events[q]);
            } else {
                assert(all[q] == more[q - events.len()]);
                assert(q - events.len() < more.len() - 1);
                assert(all[q] == head[q - events.len()]);
            }
        }
    }
    assert forall|q: int| 0 <= q < all.len() && (#[trigger] all[q]) is SnapshotSelected implies all[q]->session_id
        <= finish_ids(all).len() by {
        if q < events.len() {
            assert(all[q] == events[q]);
        } else {
            assert(all[q] == more[q - events.len()]);
        }
    }
    if covered {
        assert forall|p: int| 0 <= p < all.len() && (#[trigger] all[p]) is SessionFinished implies exists|q: int|
            0 <= q < p && (#[trigger] all[q]) is SnapshotSelected && all[q]->session_id
                == all[p]->0.session_id by {
            if p < events.len() {
                assert(all[p] == events[p]);
                let q = choose|q: int|
                    0 <= q < p && (#[trigger] events[q]) is SnapshotSelected && events[q]->session_id
                        == events[p]->0.session_id;
                assert(all[q] == events[q]);
            } else {
                assert(all[p] == more[p - events.len()]);
                if p - events.len() < more.len() - 1 {
                    assert(more[p - events.len()] == head[p - events.len()]);
                }
                assert(p == last);
                if s.initial_capture_selected {
                    let q = choose|q: int|
                        0 <= q < events.len() && (#[trigger] events[q]) is SnapshotSelected
                            && events[q]->session_id == finish_ids(events).len() + 1;
                    assert(all[q] == events[q]);
                } else {
                    let q = events.len() as int;
                    assert(all[q] == more[0]);
                    assert(more[0] == head[0]);
                }
            }
        }
    }
}

/// One step keeps the history.
proof fn lemma_step_history(t: TrackerModel, events: Seq<EventView>, a: AnnotatedView, covered: bool)
    requires
        tracker_inv(t),
        run_inv(t, events),
        frames_bounded(t),
        comes_after(t, a),
        a.frame.index < u64::MAX,
        t.next_session_id < u64::MAX,
        history_inv(t, events, covered),
        covered ==> opens_without_choice(t, a),
    ensures
        ({
            let (t2, out) = ingest_step(t, a);
            history_inv(t2, events + out.events, covered)
        }),
{
    let (t2, out) = ingest_step(t, a);
    let more = out.events;
    let all = events + more;
    let n = finish_ids(events).len();
    lemma_step_keeps_run_inv(t, events, a);
    lemma_step_event_ids(t, a);
    law_captures_come_with_the_finish_notice(t, a);
    lemma_finish_ids_append(events, more);
    match t.active_session {
        Some(s) => {
            let delay = t.initial_capture_delay_frames;
            let interval = t.periodic_capture_interval_frames;
            if a.analysis.spec_is_motion_active() {
                lemma_ingest_active_within(s, a, delay, interval);
                let s2 = ingest_active(s, a, delay, interval).0;
                assert(t2.active_session == Some(s2));
                assert forall|i: int| 0 <= i < more.len() implies (#[trigger] more[i]) is SnapshotSelected by {
                    assert(more[i] is SnapshotSelected);
                }
                lemma_selections_have_no_finish_ids(more);
                assert(finish_ids(all) =~= finish_ids(events));
                assert forall|q: int, p: int|
                    0 <= q < all.len() && 0 <= p < all.len() && (#[trigger] all[q]) is SnapshotSelected
                        && (#[trigger] all[p]) is SessionFinished && all[q]->session_id
                        == all[p]->0.session_id implies all[p]->0.motion_started_frame_index
                        <= all[q]->frame.index <= all[p]->0.motion_ended_frame_index by {
                    if p < events.len() {
                        assert(all[p] == events[p]);
                        lemma_finish_label(events, p);
                        if q < events.len() {
                            assert(all[q] == events[q]);
                        } else {
                            assert(all[q] == more[q - events.len()]);
                        }
                    } else {
                        assert(all[p] == more[p - events.len()]);
                    }
                }
                assert forall|q: int| 0 <= q < all.len() && (#[trigger] all[q]) is SnapshotSelected implies (
                    if t2.active_session is Some {
                        &&& all[q]->session_id <= finish_ids(all).len() + 1
                        &&& all[q]->session_id == finish_ids(all).len() + 1
                            ==> t2.active_session.unwrap().start_frame_index <= all[q]->frame.index
                            <= t2.active_session.unwrap().last_active_frame_index
                    } else {
                        all[q]->session_id <= finish_ids(all).len()
                    }) by {
                    if q < events.len() {
                        assert(all[q] == events[q]);
                    } else {
                        assert(all[q] == more[q - events.len()]);
                    }
                }
                if covered {
                    assert forall|p: int| 0 <= p < all.len() && (#[trigger] all[p]) is SessionFinished implies exists|q: int|
                        0 <= q < p && (#[trigger] all[q]) is SnapshotSelected && all[q]->session_id
                            == all[p]->0.session_id by {
                        if p < events.len() {
                            assert(all[p] == events[p]);
                            let q = choose|q: int|
                                0 <= q < p && (#[trigger] events[q]) is SnapshotSelected
                                    && events[q]->session_id == events[p]->0.session_id;
                            assert(all[q] == events[q]);
                        } else {
                            assert(all[p] == more[p - events.len()]);
                        }
                    }
                    if s2.initial_capture_selected {
                        if s.initial_capture_selected {
                            let q = choose|q: int|
                                0 <= q < events.len() && (#[trigger] events[q]) is SnapshotSelected
                                    && events[q]->session_id == finish_ids(events).len() + 1;
                            assert(all[q] == events[q]);
                        } else {
                            let q = events.len() as int;
                            assert(all[q] == more[0]);
                        }
                    }
                }
            } else {
                let s2 = SessionModel { inactive_frames: s.inactive_frames.saturating_add(1), ..s };
                if s2.inactive_frames >= t.motion_end_grace_frames {
                    assert(more == finalize(s2).events);
                    lemma_end_history(s2, events, covered);
                } else {
                    assert(more.len() == 0);
                    assert(all =~= events);
                }
            }
        },
        None => {
            assert(more.len() == 0);
            assert(all =~= events);
        },
    }
}

proof fn lemma_comes_after_later(t: TrackerModel, a: AnnotatedView, b: AnnotatedView)
    requires
        comes_after(t, a),
        a.frame.index <= b.frame.index,
    ensures
        comes_after(t, b),
{
}

proof fn lemma_run_history(t: TrackerModel, frames: Seq<AnnotatedView>, covered: bool)
    requires
        tracker_inv(t),
        run_inv(t, Seq::empty()),
        frames_bounded(t),
        t.active_session is None,
        t.pending_local_frames.len() == 0,
        forall|i: int| 0 <= i < frames.len() ==> (#[trigger] frames[i]).frame.index < u64::MAX,
        forall|i: int, j: int|
            0 <= i < j < frames.len() ==> (#[trigger] frames[i]).frame.index
                <= (#[trigger] frames[j]).frame.index,
        t.next_session_id + frames.len() < u64::MAX,
        covered ==> forall|k: int|
            0 <= k < frames.len() ==> opens_without_choice(
                run_steps(t, frames.take(k)).0,
                #[trigger] frames[k],
            ),
    ensures
        ({
            let (t2, events) = run_steps(t, frames);
            &&& tracker_inv(t2)
            &&& run_inv(t2, events)
            &&& frames_bounded(t2)
            &&& t2.next_session_id <= t.next_session_id + frames.len()
            &&& history_inv(t2, events, covered)
            &&& frames.len() > 0 ==> comes_after(t2, frames.last())
        }),
    decreases frames.len(),
{
    if frames.len() == 0 {
        assert(finish_ids(Seq::<EventView>::empty()) =~= Seq::<u64>::empty());
    } else {
        let prefix = frames.drop_last();
        assert forall|i: int| 0 <= i < prefix.len() implies (#[trigger] prefix[i]).frame.index
            < u64::MAX by {
            assert(prefix[i] == frames[i]);
        }
        assert forall|i: int, j: int| 0 <= i < j < prefix.len() implies (#[trigger] prefix[i]).frame.index
            <= (#[trigger] prefix[j]).frame.index by {
            assert(prefix[i] == frames[i] && prefix[j] == frames[j]);
        }
        if covered {
            assert forall|k: int| 0 <= k < prefix.len() implies opens_without_choice(
                run_steps(t, prefix.take(k)).0,
                #[trigger] prefix[k],
            ) by {
                assert(prefix.take(k) =~= frames.take(k));
                assert(prefix[k] == frames[k]);
            }
        }
        lemma_run_history(t, prefix, covered);
        let (t1, events) = run_steps(t, prefix);
        let last = frames[frames.len() - 1];
        assert(frames.last() == last);
        if prefix.len() > 0 {
            assert(prefix.last() == frames[frames.len() - 2]);
            lemma_comes_after_later(t1, prefix.last(), last);
        } else {
            assert(t1 == t);
        }
        if covered {
            assert(frames.take(frames.len() - 1) =~= prefix);
        }
        lemma_ingest_step_inv(t1, last);
        lemma_step_keeps_run_inv(t1, events, last);
        law_captures_lie_within_their_session(t1, last);
        lemma_step_history(t1, events, last, covered);
    }
}

/// Law: in a run of a freshly built tracker (positive frame rate and long-motion interval) fed
/// frames in index order, with indices below `u64::MAX` and fewer than `u64::MAX - 2` frames:
/// - every capture handed back by a step lies between its session's first and last active
///   frames, and captures come only on inactive frames;
/// - over the run, finishing included, every snapshot choice lies between the first and last
///   active frames that its session's finish notice reports;
/// - when no session chooses its first snapshot while it is opening (such a choice is not
///   reported), every finish notice comes after at least one snapshot choice of its session.
pub proof fn law_sessions_report_their_snapshots(
    settings: crate::config::MotionDetectionConfig,
    frames: Seq<AnnotatedView>,
)
    requires
        settings.frame_rate > 0,
        settings.long_motion_snapshot_interval_seconds > 0,
        forall|i: int| 0 <= i < frames.len() ==> (#[trigger] frames[i]).frame.index < u64::MAX,
        forall|i: int, j: int|
            0 <= i < j < frames.len() ==> (#[trigger] frames[i]).frame.index
                <= (#[trigger] frames[j]).frame.index,
        frames.len() + 2 < u64::MAX,
    ensures
        forall|k: int|
            0 <= k < frames.len() ==> {
                let out = ingest_step(run_steps(initial_tracker(settings), frames.take(k)).0, #[trigger] frames[k]).1;
                &&& captures_within(out.captures)
                &&& out.captures.len() > 0 ==> !frames[k].analysis.spec_is_motion_active()
            },
        ({
            let (t, events) = run_steps(initial_tracker(settings), frames);
            let all = events + finish_step(t).1.events;
            &&& selections_within_sessions(all)
            &&& (forall|k: int|
                0 <= k < frames.len() ==> opens_without_choice(
                    run_steps(initial_tracker(settings), frames.take(k)).0,
                    #[trigger] frames[k],
                )) ==> sessions_have_selections(all)
        }),
{
    let t0 = initial_tracker(settings);
    let rate = settings.frame_rate as u64;
    assert(settings.long_motion_snapshot_interval_seconds * rate > 0) by (nonlinear_arith)
        requires
            settings.long_motion_snapshot_interval_seconds > 0,
            rate > 0,
    ;
    assert(finish_ids(Seq::<EventView>::empty()) =~= Seq::<u64>::empty());
    lemma_fresh_tracker_frames_bounded(settings);
    assert forall|k: int| 0 <= k < frames.len() implies {
        let out = ingest_step(run_steps(t0, frames.take(k)).0, #[trigger] frames[k]).1;
        &&& captures_within(out.captures)
        &&& out.captures.len() > 0 ==> !frames[k].analysis.spec_is_motion_active()
    } by {
        let part = frames.take(k);
        assert forall|i: int| 0 <= i < part.len() implies (#[trigger] part[i]).frame.index
            < u64::MAX by {
            assert(part[i] == frames[i]);
        }
        assert forall|i: int, j: int| 0 <= i < j < part.len() implies (#[trigger] part[i]).frame.index
            <= (#[trigger] part[j]).frame.index by {
            assert(part[i] == frames[i] && part[j] == frames[j]);
        }
        lemma_run_history(t0, part, false);
        let tk = run_steps(t0, part).0;
        if k > 0 {
            assert(part.last() == frames[k - 1]);
            lemma_comes_after_later(tk, part.last(), frames[k]);
        } else {
            assert(part =~= Seq::<AnnotatedView>::empty());
            assert(tk == t0);
        }
        law_captures_lie_within_their_session(tk, frames[k]);
        law_captures_come_with_the_finish_notice(tk, frames[k]);
    }
    let covered = forall|k: int|
        0 <= k < frames.len() ==> opens_without_choice(
            run_steps(t0, frames.take(k)).0,
            #[trigger] frames[k],
        );
    lemma_run_history(t0, frames, covered);
    let (t, events) = run_steps(t0, frames);
    match t.active_session {
        Some(s) => {
            assert(finish_step(t).1.events == finalize(s).events);
            lemma_end_history(s, events, covered);
        },
        None => {
            assert(finish_step(t).1.events.len() == 0);
            assert(events + finish_step(t).1.events =~= events);
        },
    }
}

} // verus!
