//! Properties of the motion session tracker, proved over its model.

use vstd::prelude::*;
use crate::session::{
    AnnotatedView, CaptureView, EventView, SessionModel, TrackerModel, capture_of, closest_frame,
    finalize, finish_step, fold_active, in_cooldown, ingest_active, ingest_step, insert_by_index,
    midpoint_frame, new_session_model, no_output, periodic_measure, periodic_selections,
    record_selection, sorted_unique, summary_of, tracker_inv, with_final_selection, closest_of_pair,
    session_inv, initial_tracker, MotionSessionSummary, distance, abs_diff,
};

verus! {

/// Frame indices strictly increase along `s`.
pub open spec fn strictly_increasing(s: Seq<AnnotatedView>) -> bool {
    forall|i: int, j: int| 0 <= i < j < s.len() ==> s[i].frame.index < s[j].frame.index
}

pub open spec fn captures_increasing(c: Seq<CaptureView>) -> bool {
    forall|i: int, j: int| 0 <= i < j < c.len() ==> c[i].frame.index < c[j].frame.index
}

proof fn lemma_insert_keeps_order(t: Seq<AnnotatedView>, x: AnnotatedView)
    requires
        strictly_increasing(t),
    ensures
        strictly_increasing(insert_by_index(t, x)),
        insert_by_index(t, x).len() > 0,
        t.len() == 0 ==> insert_by_index(t, x)[0] == x,
        t.len() > 0 ==> (insert_by_index(t, x)[0] == x || insert_by_index(t, x)[0] == t[0]),
    decreases t.len(),
{
    if t.len() > 0 && x.frame.index > t[0].frame.index {
        let rest = t.drop_first();
        assert(strictly_increasing(rest)) by {
            assert forall|i: int, j: int| 0 <= i < j < rest.len() implies rest[i].frame.index
                < rest[j].frame.index by {
                assert(rest[i] == t[i + 1] && rest[j] == t[j + 1]);
            }
        }
        lemma_insert_keeps_order(rest, x);
        let r = insert_by_index(rest, x);
        let full = seq![t[0]] + r;
        assert(r.len() > 0);
        if rest.len() > 0 {
            assert(rest[0] == t[1]);
        }
        assert forall|i: int, j: int| 0 <= i < j < full.len() implies full[i].frame.index
            < full[j].frame.index by {
            if i == 0 {
                assert(full[j] == r[j - 1]);
                assert(r[0].frame.index > t[0].frame.index);
                if j > 1 {
                    assert(r[0].frame.index < r[j - 1].frame.index);
                }
            } else {
                assert(full[i] == r[i - 1] && full[j] == r[j - 1]);
            }
        }
    } else if t.len() > 0 && x.frame.index < t[0].frame.index {
        let full = seq![x] + t;
        assert forall|i: int, j: int| 0 <= i < j < full.len() implies full[i].frame.index
            < full[j].frame.index by {
            if i == 0 {
                assert(full[j] == t[j - 1]);
                if j > 1 {
                    assert(t[0].frame.index < t[j - 1].frame.index);
                }
            } else {
                assert(full[i] == t[i - 1] && full[j] == t[j - 1]);
            }
        }
    }
}

/// [`sorted_unique`] lists frames in strictly increasing index order.
pub proof fn lemma_sorted_unique_increasing(s: Seq<AnnotatedView>)
    ensures
        strictly_increasing(sorted_unique(s)),
    decreases s.len(),
{
    if s.len() > 0 {
        lemma_sorted_unique_increasing(s.drop_last());
        lemma_insert_keeps_order(sorted_unique(s.drop_last()), s.last());
    }
}

proof fn lemma_finalize_increasing(s: SessionModel)
    ensures
        captures_increasing(finalize(s).captures),
{
    if s.started_at is Some && s.last_active_at is Some {
        let s1 = with_final_selection(s).0;
        lemma_sorted_unique_increasing(s1.selected_frames);
    }
}

/// Law: the captures handed back by any step are in strictly increasing frame-index order, so
/// no frame is captured twice.
pub proof fn law_captures_in_index_order(t: TrackerModel, a: AnnotatedView)
    ensures
        captures_increasing(ingest_step(t, a).1.captures),
        captures_increasing(finish_step(t).1.captures),
{
    match t.active_session {
        Some(s) => {
            lemma_finalize_increasing(SessionModel { inactive_frames: s.inactive_frames.saturating_add(1), ..s });
            lemma_finalize_increasing(s);
        },
        None => {},
    }
}

/// `|x|`.
pub open spec fn magnitude(x: int) -> int {
    if x < 0 {
        -x
    } else {
        x
    }
}

/// `m` lies halfway from `start` to `end`, rounded down: between them, with `2 m` equal to
/// `start + end` or to `start + end - 1`.
pub open spec fn halfway(start: int, end: int, m: int) -> bool {
    start <= m <= end && (2 * m == start + end || 2 * m == start + end - 1)
}

/// The frame that [`closest_frame`] picks is one of `frames`, and no frame of `frames` is nearer
/// `target`.
proof fn lemma_closest_frame_is_nearest(frames: Seq<AnnotatedView>, target: u64)
    requires
        frames.len() > 0,
    ensures
        exists|i: int| 0 <= i < frames.len() && frames[i] == closest_frame(frames, target),
        forall|j: int|
            0 <= j < frames.len() ==> magnitude(closest_frame(frames, target).frame.index - target)
                <= magnitude((#[trigger] frames[j]).frame.index - target),
    decreases frames.len(),
{
    if frames.len() > 1 {
        let prefix = frames.drop_last();
        lemma_closest_frame_is_nearest(prefix, target);
        let i = choose|i: int| 0 <= i < prefix.len() && prefix[i] == closest_frame(prefix, target);
        assert(frames[i] == prefix[i]);
        assert(frames.last() == frames[frames.len() - 1]);
        assert forall|j: int| 0 <= j < frames.len() implies magnitude(
            closest_frame(frames, target).frame.index - target,
        ) <= magnitude((#[trigger] frames[j]).frame.index - target) by {
            if j < prefix.len() {
                assert(frames[j] == prefix[j]);
            }
        }
    } else {
        assert(frames[0] == closest_frame(frames, target));
    }
}

/// Law: a session that ends before its delayed snapshot is due is captured once, at one of its
/// active frames that is nearest the middle of the session: a point `m` between its first and
/// last active frames with `2 m` equal to their sum, or to their sum less one. This holds when
/// it ends at the end of the input, and when it ends by an inactive frame.
pub proof fn law_short_session_capture_is_nearest_the_middle(t: TrackerModel, a: AnnotatedView)
    requires
        tracker_inv(t),
        t.active_session matches Some(s) && !s.initial_capture_selected,
        t.active_session.unwrap().start_frame_index <= t.active_session.unwrap().last_active_frame_index,
    ensures
        ({
            let s = t.active_session.unwrap();
            let start = s.start_frame_index as int;
            let end = s.last_active_frame_index as int;
            let ends = !a.analysis.spec_is_motion_active() && s.inactive_frames.saturating_add(1)
                >= t.motion_end_grace_frames;
            let by_finish = finish_step(t).1.captures;
            let by_frame = ingest_step(t, a).1.captures;
            &&& by_finish.len() == 1
            &&& ends ==> by_frame == by_finish
            &&& by_finish[0].summary.motion_started_frame_index == start
            &&& by_finish[0].summary.motion_ended_frame_index == end
            &&& exists|i: int|
                0 <= i < s.pre_capture_frames.len() && s.pre_capture_frames[i].frame
                    == by_finish[0].frame
            &&& exists|m: int|
                #[trigger] halfway(start, end, m) && (forall|j: int|
                    0 <= j < s.pre_capture_frames.len() ==> magnitude(by_finish[0].frame.index - m)
                        <= magnitude((#[trigger] s.pre_capture_frames[j]).frame.index - m))
        }),
{
    let s = t.active_session.unwrap();
    law_short_session_uses_middle_frame(t, a);
    let m = midpoint_frame(s.start_frame_index, s.last_active_frame_index);
    assert(2 * m == s.start_frame_index + s.last_active_frame_index || 2 * m
        == s.start_frame_index + s.last_active_frame_index - 1);
    lemma_closest_frame_is_nearest(s.pre_capture_frames, m);
    assert(halfway(s.start_frame_index as int, s.last_active_frame_index as int, m as int));
}

/// Law: a session that ends before its first snapshot was due yields exactly one capture, the
/// frame nearest the middle of the session (the earlier one on a tie), whether it ends by an
/// inactive frame or by the end of the input.
pub proof fn law_short_session_uses_middle_frame(t: TrackerModel, a: AnnotatedView)
    requires
        tracker_inv(t),
        t.active_session matches Some(s) && !s.initial_capture_selected,
    ensures
        ({
            let s = t.active_session.unwrap();
            let chosen = closest_frame(
                s.pre_capture_frames,
                midpoint_frame(s.start_frame_index, s.last_active_frame_index),
            );
            let ends = !a.analysis.spec_is_motion_active() && s.inactive_frames.saturating_add(1)
                >= t.motion_end_grace_frames;
            &&& finish_step(t).1.captures == seq![capture_of(chosen, summary_of(s))]
            &&& ends ==> ingest_step(t, a).1.captures == seq![capture_of(chosen, summary_of(s))]
        }),
{
    let s = t.active_session.unwrap();
    let chosen = closest_frame(
        s.pre_capture_frames,
        midpoint_frame(s.start_frame_index, s.last_active_frame_index),
    );
    let s2 = SessionModel { inactive_frames: s.inactive_frames.saturating_add(1), ..s };
    assert(with_final_selection(s).0.selected_frames =~= seq![chosen]);
    assert(with_final_selection(s2).0.selected_frames =~= seq![chosen]);
    assert(seq![chosen].drop_last() =~= Seq::<AnnotatedView>::empty());
    assert(sorted_unique(seq![chosen].drop_last()) =~= Seq::<AnnotatedView>::empty());
    assert(insert_by_index(Seq::<AnnotatedView>::empty(), chosen) =~= seq![chosen]);
    assert(sorted_unique(seq![chosen]) =~= seq![chosen]);
    assert(summary_of(s2) == summary_of(s));
    assert(seq![chosen].map_values(|x: AnnotatedView| capture_of(x, summary_of(s))) =~= seq![
        capture_of(chosen, summary_of(s)),
    ]);
}

/// Law: the first snapshot of a session is chosen as soon as an active frame reaches
/// `motion_snapshot_delay` frames after the start; it is the frame of the session nearest that
/// point, and it is reported at once.
pub proof fn law_delayed_snapshot_is_reported_when_due(t: TrackerModel, a: AnnotatedView)
    requires
        tracker_inv(t),
        a.frame.index < u64::MAX,
        t.active_session matches Some(s) && !s.initial_capture_selected,
        a.analysis.spec_is_motion_active(),
        a.frame.index >= t.active_session.unwrap().start_frame_index.saturating_add(
            t.initial_capture_delay_frames,
        ),
    ensures
        ({
            let s = t.active_session.unwrap();
            let target = s.start_frame_index.saturating_add(t.initial_capture_delay_frames);
            let chosen = closest_frame(s.pre_capture_frames.push(a), target);
            ingest_step(t, a).1.events == seq![
                EventView::SnapshotSelected {
                    session_id: s.session_id,
                    frame: chosen.frame,
                    event: chosen.analysis.spec_event(),
                },
            ]
        }),
{
}

/// Law: once a session's first snapshot is taken, further snapshots fall every
/// `long_motion_snapshot_interval` frames: an active frame before the next target reports
/// nothing; an active frame that reaches the target, and not yet the one after it, reports one
/// snapshot (the nearer of the previous active frame and itself, the earlier on a tie) and moves
/// the target on by one interval.
pub proof fn law_periodic_snapshots_follow_the_interval(t: TrackerModel, a: AnnotatedView)
    requires
        tracker_inv(t),
        a.frame.index < u64::MAX,
        t.active_session matches Some(s) && s.initial_capture_selected
            && s.next_periodic_target_frame is Some,
        a.analysis.spec_is_motion_active(),
    ensures
        ({
            let s = t.active_session.unwrap();
            let target = s.next_periodic_target_frame.unwrap();
            let interval = t.periodic_capture_interval_frames;
            let (t2, out) = ingest_step(t, a);
            &&& a.frame.index < target ==> (out.events.len() == 0
                && t2.active_session.unwrap().next_periodic_target_frame == Some(target))
            &&& (target <= a.frame.index && a.frame.index < target + interval) ==> ({
                let chosen = closest_of_pair(s.previous_active_frame, a, target);
                &&& out.events == seq![
                    EventView::SnapshotSelected {
                        session_id: s.session_id,
                        frame: chosen.frame,
                        event: chosen.analysis.spec_event(),
                    },
                ]
                &&& t2.active_session.unwrap().next_periodic_target_frame == Some(
                    target.saturating_add(interval),
                )
            })
        }),
{
    let s = t.active_session.unwrap();
    let interval = t.periodic_capture_interval_frames;
    let target = s.next_periodic_target_frame.unwrap();
    let s1 = SessionModel {
        last_active_at: Some(a.frame.captured_at),
        last_active_frame_index: a.frame.index,
        inactive_frames: 0,
        ..s
    };
    if target <= a.frame.index && a.frame.index < target + interval {
        let (r1, e) = record_selection(s1, closest_of_pair(s1.previous_active_frame, a, target));
        let r2 = SessionModel { next_periodic_target_frame: Some(target.saturating_add(interval)), ..r1 };
        assert(periodic_selections(r2, a, interval).1 =~= Seq::<EventView>::empty());
        assert(periodic_selections(s1, a, interval).1 =~= seq![e]);
    }
}

/// Law: before a session's first snapshot is due, an active frame whose index is below the
/// session start plus `motion_snapshot_delay` frames reports nothing and keeps the session open.
pub proof fn law_no_snapshot_before_the_delay(t: TrackerModel, a: AnnotatedView)
    requires
        tracker_inv(t),
        a.frame.index < u64::MAX,
        t.active_session matches Some(s) && !s.initial_capture_selected,
        a.analysis.spec_is_motion_active(),
        (a.frame.index as int) < t.active_session.unwrap().start_frame_index as int
            + t.initial_capture_delay_frames as int,
    ensures
        ingest_step(t, a).1.events.len() == 0,
        ingest_step(t, a).1.captures.len() == 0,
        ingest_step(t, a).0.active_session is Some,
        !ingest_step(t, a).0.active_session.unwrap().initial_capture_selected,
{
}

/// Law: an open session ends on the inactive frame that makes `motion_end_grace` inactive frames
/// in a row, and not before: fewer inactive frames keep it open and report nothing.
pub proof fn law_sessions_end_after_the_grace_frames(t: TrackerModel, a: AnnotatedView)
    requires
        tracker_inv(t),
        t.active_session is Some,
        !a.analysis.spec_is_motion_active(),
        t.active_session.unwrap().inactive_frames < u64::MAX,
    ensures
        (t.active_session.unwrap().inactive_frames + 1 < t.motion_end_grace_frames) ==> (ingest_step(
            t,
            a,
        ).0.active_session is Some && ingest_step(t, a).1.events.len() == 0),
        (t.active_session.unwrap().inactive_frames + 1 >= t.motion_end_grace_frames) ==> (ingest_step(
            t,
            a,
        ).0.active_session is None && ingest_step(t, a).1.events.len() > 0),
{
    lemma_ending_session_reports(t, a);
}

proof fn lemma_ending_session_reports(t: TrackerModel, a: AnnotatedView)
    requires
        tracker_inv(t),
        t.active_session is Some,
    ensures
        finalize(SessionModel {
            inactive_frames: t.active_session.unwrap().inactive_frames.saturating_add(1),
            ..t.active_session.unwrap()
        }).events.len() > 0,
{
    let s = t.active_session.unwrap();
    lemma_finalize_shape(SessionModel { inactive_frames: s.inactive_frames.saturating_add(1), ..s });
}

/// Law: after a session ends, a frame whose index is below the session's last active frame plus
/// `event_cooldown` frames opens nothing and reports nothing; a globally triggered frame at or
/// after that point opens a new session.
pub proof fn law_cooldown_lasts_the_cooldown_frames(t: TrackerModel, a: AnnotatedView, last: u64)
    requires
        tracker_inv(t),
        a.frame.index < u64::MAX,
        t.active_session is None,
        t.next_session_allowed_frame == Some(last.saturating_add(t.session_cooldown_frames)),
        (last as int) + (t.session_cooldown_frames as int) <= u64::MAX,
    ensures
        (a.frame.index as int) < last as int + t.session_cooldown_frames as int ==> (ingest_step(
            t,
            a,
        ).0.active_session is None && ingest_step(t, a).1 == no_output()),
        ((a.frame.index as int) >= last as int + t.session_cooldown_frames as int
            && a.analysis.global_triggered) ==> ingest_step(t, a).0.active_session is Some,
{
}

/// Law: while the cooldown after a session lasts, no frame starts a new session and nothing is
/// reported.
pub proof fn law_cooldown_blocks_new_sessions(t: TrackerModel, a: AnnotatedView)
    requires
        t.active_session is None,
        in_cooldown(t, a.frame.index),
    ensures
        ingest_step(t, a).0.active_session is None,
        ingest_step(t, a).1 == no_output(),
{
}

/// Law: when a session ends, the finish notice is the last event and carries the session's
/// bounds, no session is open afterwards, and the next one may start only
/// `event_cooldown` frames after the session's last active frame.
pub proof fn law_session_end_starts_cooldown(t: TrackerModel, a: AnnotatedView)
    requires
        tracker_inv(t),
        t.active_session is Some,
        !a.analysis.spec_is_motion_active(),
        t.active_session.unwrap().inactive_frames.saturating_add(1) >= t.motion_end_grace_frames,
    ensures
        ({
            let s = t.active_session.unwrap();
            let (t2, out) = ingest_step(t, a);
            &&& t2.active_session is None
            &&& t2.next_session_allowed_frame == Some(
                s.last_active_frame_index.saturating_add(t.session_cooldown_frames),
            )
            &&& out.events.len() > 0
            &&& out.events.last() == EventView::SessionFinished(summary_of(s))
        }),
{
    let s = t.active_session.unwrap();
    let s2 = SessionModel { inactive_frames: s.inactive_frames.saturating_add(1), ..s };
    assert(summary_of(s2) == summary_of(s));
}

/// Law: each new session takes the next session id, and ids count up.
pub proof fn law_new_sessions_take_next_id(t: TrackerModel, a: AnnotatedView)
    requires
        tracker_inv(t),
        a.frame.index < u64::MAX,
        t.active_session is None,
        ingest_step(t, a).0.active_session is Some,
    ensures
        ingest_step(t, a).0.active_session.unwrap().session_id == t.next_session_id,
        ingest_step(t, a).0.next_session_id == t.next_session_id.saturating_add(1),
{
    lemma_fold_keeps_id_and_start(
        new_session_model(t.next_session_id),
        seq![a],
        t.initial_capture_delay_frames,
        t.periodic_capture_interval_frames,
    );
    lemma_fold_keeps_id_and_start(
        new_session_model(t.next_session_id),
        t.pending_local_frames.push(a),
        t.initial_capture_delay_frames,
        t.periodic_capture_interval_frames,
    );
}

proof fn lemma_ingest_active_facts(s: SessionModel, a: AnnotatedView, delay: u64, interval: u64)
    requires
        interval > 0,
        a.frame.index < u64::MAX,
    ensures
        ({
            let r = ingest_active(s, a, delay, interval).0;
            &&& r.session_id == s.session_id
            &&& r.started_at is Some
            &&& r.start_frame_index == (if s.started_at is None {
                a.frame.index
            } else {
                s.start_frame_index
            })
        }),
{
    let s1 = SessionModel {
        started_at: if s.started_at is None {
            Some(a.frame.captured_at)
        } else {
            s.started_at
        },
        start_frame_index: if s.started_at is None {
            a.frame.index
        } else {
            s.start_frame_index
        },
        last_active_at: Some(a.frame.captured_at),
        last_active_frame_index: a.frame.index,
        inactive_frames: 0,
        ..s
    };
    if s1.initial_capture_selected {
        lemma_periodic_keeps_bounds(s1, a, interval);
    }
}

proof fn lemma_periodic_keeps_bounds(s: SessionModel, a: AnnotatedView, interval: u64)
    requires
        interval > 0,
        a.frame.index < u64::MAX,
    ensures
        ({
            let r = periodic_selections(s, a, interval).0;
            &&& r.started_at == s.started_at
            &&& r.start_frame_index == s.start_frame_index
            &&& r.session_id == s.session_id
        }),
    decreases periodic_measure(s, a),
{
    match s.next_periodic_target_frame {
        Some(target) => if a.frame.index >= target {
            let (s1, e) = record_selection(s, closest_of_pair(s.previous_active_frame, a, target));
            let s2 = SessionModel {
                next_periodic_target_frame: Some(target.saturating_add(interval)),
                ..s1
            };
            lemma_periodic_keeps_bounds(s2, a, interval);
        },
        None => {},
    }
}

pub proof fn lemma_fold_keeps_id_and_start(
    s: SessionModel,
    frames: Seq<AnnotatedView>,
    delay: u64,
    interval: u64,
)
    requires
        interval > 0,
        forall|i: int| 0 <= i < frames.len() ==> (#[trigger] frames[i]).frame.index < u64::MAX,
        s.started_at is None,
    ensures
        fold_active(s, frames, delay, interval).session_id == s.session_id,
        frames.len() > 0 ==> fold_active(s, frames, delay, interval).start_frame_index
            == frames[0].frame.index,
        frames.len() > 0 ==> fold_active(s, frames, delay, interval).started_at is Some,
    decreases frames.len(),
{
    if frames.len() > 0 {
        let prefix = frames.drop_last();
        assert forall|i: int| 0 <= i < prefix.len() implies (#[trigger] prefix[i]).frame.index
            < u64::MAX by {
            assert(prefix[i] == frames[i]);
        }
        lemma_fold_keeps_id_and_start(s, prefix, delay, interval);
        assert(frames.last() == frames[frames.len() - 1]);
        lemma_ingest_active_facts(fold_active(s, prefix, delay, interval), frames.last(), delay, interval);
        if prefix.len() > 0 {
            assert(prefix[0] == frames[0]);
        }
    }
}

/// Law: locally triggered frames open a session only once `local_motion_consecutive_frames`
/// of them have come in a row, and the session is dated from the first of them.
pub proof fn law_local_confirmation_backdates_start(t: TrackerModel, a: AnnotatedView)
    requires
        tracker_inv(t),
        a.frame.index < u64::MAX,
        t.active_session is None,
        !in_cooldown(t, a.frame.index),
        !a.analysis.global_triggered,
        a.analysis.local_triggered,
    ensures
        ({
            let pending = t.pending_local_frames.push(a);
            let t2 = ingest_step(t, a).0;
            &&& pending.len() < t.local_confirmation_frames ==> (t2.active_session is None
                && t2.pending_local_frames == pending)
            &&& pending.len() >= t.local_confirmation_frames ==> (t2.active_session is Some
                && t2.active_session.unwrap().start_frame_index == pending[0].frame.index
                && t2.pending_local_frames.len() == 0)
        }),
{
    let pending = t.pending_local_frames.push(a);
    assert forall|i: int| 0 <= i < pending.len() implies (#[trigger] pending[i]).frame.index
        < u64::MAX by {
        if i < t.pending_local_frames.len() {
            assert(pending[i] == t.pending_local_frames[i]);
        }
    }
    lemma_fold_keeps_id_and_start(
        new_session_model(t.next_session_id),
        pending,
        t.initial_capture_delay_frames,
        t.periodic_capture_interval_frames,
    );
}

/// Law: an inactive frame with no session open reports nothing, opens nothing, and breaks any
/// run of locally triggered frames.
pub proof fn law_quiet_frames_do_nothing(t: TrackerModel, a: AnnotatedView)
    requires
        t.active_session is None,
        !a.analysis.spec_is_motion_active(),
    ensures
        ingest_step(t, a).0.active_session is None,
        ingest_step(t, a).0.pending_local_frames.len() == 0,
        ingest_step(t, a).1 == no_output(),
{
}

/// Every event of the periodic snapshots is a snapshot choice.
proof fn lemma_periodic_events_are_selections(s: SessionModel, a: AnnotatedView, interval: u64)
    requires
        interval > 0,
        a.frame.index < u64::MAX,
    ensures
        forall|i: int|
            0 <= i < periodic_selections(s, a, interval).1.len() ==> (
            #[trigger] periodic_selections(s, a, interval).1[i]) is SnapshotSelected,
    decreases periodic_measure(s, a),
{
    match s.next_periodic_target_frame {
        Some(target) => if a.frame.index >= target {
            let (s1, e) = record_selection(s, closest_of_pair(s.previous_active_frame, a, target));
            let s2 = SessionModel {
                next_periodic_target_frame: Some(target.saturating_add(interval)),
                ..s1
            };
            lemma_periodic_events_are_selections(s2, a, interval);
            let rest = periodic_selections(s2, a, interval).1;
            assert forall|i: int| 0 <= i < (seq![e] + rest).len() implies (#[trigger] (seq![e]
                + rest)[i]) is SnapshotSelected by {
                if i > 0 {
                    assert((seq![e] + rest)[i] == rest[i - 1]);
                }
            }
        },
        None => {},
    }
}

/// A session that ends hands back at least one capture, each carrying the session's bounds, and
/// its events are snapshot choices followed by the finish notice.
proof fn lemma_finalize_shape(s: SessionModel)
    requires
        session_inv(s),
    ensures
        ({
            let out = finalize(s);
            &&& out.captures.len() > 0
            &&& out.events.len() > 0
            &&& out.events.last() == EventView::SessionFinished(summary_of(s))
            &&& forall|i: int| 0 <= i < out.events.len() - 1 ==> (#[trigger] out.events[i]) is SnapshotSelected
            &&& forall|i: int|
                0 <= i < out.captures.len() ==> (#[trigger] out.captures[i]).summary == (
                MotionSessionSummary { session_id: 0, ..summary_of(s) })
        }),
{
    let (s1, first) = with_final_selection(s);
    assert(s1.selected_frames.len() > 0);
    let sel = s1.selected_frames;
    assert(sorted_unique(sel) == insert_by_index(sorted_unique(sel.drop_last()), sel.last()));
    assert(sorted_unique(sel).len() > 0);
}

/// Law: a step hands back captures exactly when it reports the end of a session, which comes
/// only on an inactive frame or at the end of the input. The finish notice is the last event,
/// every earlier event is a snapshot choice, and every capture carries the bounds and times of
/// the finished session.
pub proof fn law_captures_come_with_the_finish_notice(t: TrackerModel, a: AnnotatedView)
    requires
        tracker_inv(t),
        a.frame.index < u64::MAX,
    ensures
        ({
            let out = ingest_step(t, a).1;
            &&& out.captures.len() > 0 <==> (out.events.len() > 0
                && out.events.last() is SessionFinished)
            &&& out.captures.len() > 0 ==> !a.analysis.spec_is_motion_active()
            &&& forall|i: int|
                0 <= i < out.events.len() - 1 ==> (#[trigger] out.events[i]) is SnapshotSelected
            &&& (out.events.len() > 0 && out.events.last() is SessionFinished) ==> forall|i: int|
                0 <= i < out.captures.len() ==> (#[trigger] out.captures[i]).summary == (
                MotionSessionSummary { session_id: 0, ..out.events.last()->0 })
        }),
        ({
            let out = finish_step(t).1;
            &&& out.captures.len() > 0 <==> (out.events.len() > 0
                && out.events.last() is SessionFinished)
            &&& out.captures.len() > 0 <==> t.active_session is Some
            &&& forall|i: int|
                0 <= i < out.events.len() - 1 ==> (#[trigger] out.events[i]) is SnapshotSelected
            &&& (out.events.len() > 0 && out.events.last() is SessionFinished) ==> forall|i: int|
                0 <= i < out.captures.len() ==> (#[trigger] out.captures[i]).summary == (
                MotionSessionSummary { session_id: 0, ..out.events.last()->0 })
        }),
{
    match t.active_session {
        Some(s) => {
            lemma_finalize_shape(s);
            let s2 = SessionModel { inactive_frames: s.inactive_frames.saturating_add(1), ..s };
            lemma_finalize_shape(s2);
            if a.analysis.spec_is_motion_active() {
                let s1 = SessionModel {
                    started_at: if s.started_at is None {
                        Some(a.frame.captured_at)
                    } else {
                        s.started_at
                    },
                    start_frame_index: if s.started_at is None {
                        a.frame.index
                    } else {
                        s.start_frame_index
                    },
                    last_active_at: Some(a.frame.captured_at),
                    last_active_frame_index: a.frame.index,
                    inactive_frames: 0,
                    ..s
                };
                lemma_periodic_events_are_selections(s1, a, t.periodic_capture_interval_frames);
                let es = ingest_active(
                    s,
                    a,
                    t.initial_capture_delay_frames,
                    t.periodic_capture_interval_frames,
                ).1;
                assert forall|i: int| 0 <= i < es.len() implies (#[trigger] es[i]) is SnapshotSelected by {
                }
            }
        },
        None => {},
    }
}

/// Law: a freshly built tracker that is finished at once reports nothing.
pub proof fn law_fresh_tracker_finishes_empty(settings: crate::config::MotionDetectionConfig)
    ensures
        finish_step(initial_tracker(settings)).1 == no_output(),
{
}

/// Law: finishing twice reports nothing the second time and changes nothing.
pub proof fn law_finish_is_idempotent(t: TrackerModel)
    ensures
        finish_step(finish_step(t).0) == (finish_step(t).0, no_output()),
{
    assert(finish_step(t).0.pending_local_frames =~= Seq::<AnnotatedView>::empty());
    assert(finish_step(finish_step(t).0).0 =~= finish_step(t).0);
}

} // verus!
