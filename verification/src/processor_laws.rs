//! Properties of snapshot matching and session emission, proved over the processor's model.

use vstd::prelude::*;
use crate::ffmpeg::{EpochNanos, FrameView};
use crate::processor::{
    BufferModel, ProcessorModel, SnapshotView, buffer_push, buffer_resolve, closest_in_time,
    drop_aged, emit_finished, has_pending, insert_capture, max_age_nanos, resolve_all,
    resolve_pending_step, session_batch, sorted_unique_captures, time_distance, try_emit_step,
};
use crate::session::{CaptureView, MotionSessionSummary};
use crate::session_laws::captures_increasing;

verus! {

proof fn lemma_insert_capture_keeps_order(t: Seq<CaptureView>, x: CaptureView)
    requires
        captures_increasing(t),
    ensures
        captures_increasing(insert_capture(t, x)),
        insert_capture(t, x).len() > 0,
        t.len() == 0 ==> insert_capture(t, x)[0] == x,
        t.len() > 0 ==> (insert_capture(t, x)[0] == x || insert_capture(t, x)[0] == t[0]),
    decreases t.len(),
{
    if t.len() > 0 && x.frame.index > t[0].frame.index {
        let rest = t.drop_first();
        assert(captures_increasing(rest)) by {
            assert forall|i: int, j: int| 0 <= i < j < rest.len() implies rest[i].frame.index
                < rest[j].frame.index by {
                assert(rest[i] == t[i + 1] && rest[j] == t[j + 1]);
            }
        }
        lemma_insert_capture_keeps_order(rest, x);
        let r = insert_capture(rest, x);
        let full = seq![t[0]] + r;
        if rest.len() > 0 {
            assert(rest[0] == t[1]);
        }
        assert forall|i: int, j: int| 0 <= i < j < full.len() implies full[i].frame.index
            < full[j].frame.index by {
            if i == 0 {
                assert(full[j] == r[j - 1]);
                assert(r[0].frame.index > t[0].frame.index);
                if j > 1 {
                    assert(r[0].frame.index < r[j - 1].frame.index);
                }
            } else {
                assert(full[i] == r[i - 1] && full[j] == r[j - 1]);
            }
        }
    } else if t.len() > 0 && x.frame.index < t[0].frame.index {
        let full = seq![x] + t;
        assert forall|i: int, j: int| 0 <= i < j < full.len() implies full[i].frame.index
            < full[j].frame.index by {
            if i == 0 {
                assert(full[j] == t[j - 1]);
                if j > 1 {
                    assert(t[0].frame.index < t[j - 1].frame.index);
                }
            } else {
                assert(full[i] == t[i - 1] && full[j] == t[j - 1]);
            }
        }
    }
}

proof fn lemma_sorted_unique_captures_increasing(s: Seq<CaptureView>)
    ensures
        captures_increasing(sorted_unique_captures(s)),
    decreases s.len(),
{
    if s.len() > 0 {
        lemma_sorted_unique_captures_increasing(s.drop_last());
        lemma_insert_capture_keeps_order(sorted_unique_captures(s.drop_last()), s.last());
    }
}

proof fn lemma_emit_finished(pending: Seq<SnapshotView>, resolved: Seq<SnapshotView>, finished: Seq<MotionSessionSummary>)
    ensures
        forall|i: int| 0 <= i < emit_finished(pending, resolved, finished).2.batches.len() ==>
            captures_increasing(#[trigger] emit_finished(pending, resolved, finished).2.batches[i]),
        forall|i: int| 0 <= i < emit_finished(pending, resolved, finished).1.len() ==>
            has_pending(pending, #[trigger] emit_finished(pending, resolved, finished).1[i].session_id),
    decreases finished.len(),
{
    if finished.len() > 0 {
        lemma_emit_finished(pending, resolved, finished.drop_last());
        let (resolved1, kept1, out1) = emit_finished(pending, resolved, finished.drop_last());
        let summary = finished.last();
        let r = emit_finished(pending, resolved, finished);
        if !has_pending(pending, summary.session_id) {
            let mine = crate::processor::session_snapshots(resolved1, summary.session_id);
            if mine.len() > 0 {
                lemma_sorted_unique_captures_increasing(
                    mine.map_values(|x: SnapshotView| crate::processor::snapshot_capture(x, summary)),
                );
                assert forall|i: int| 0 <= i < r.2.batches.len() implies captures_increasing(#[trigger] r.2.batches[i]) by {
                    if i < out1.batches.len() {
                        assert(r.2.batches[i] == out1.batches[i]);
                    } else {
                        assert(r.2.batches[i] == session_batch(mine, summary));
                    }
                }
            } else {
                assert forall|i: int| 0 <= i < r.2.batches.len() implies captures_increasing(#[trigger] r.2.batches[i]) by {
                    assert(r.2.batches[i] == out1.batches[i]);
                }
            }
        } else {
            assert forall|i: int| 0 <= i < r.1.len() implies has_pending(pending, #[trigger] r.1[i].session_id) by {
                if i < kept1.len() {
                    assert(r.1[i] == kept1[i]);
                }
            }
        }
    }
}

/// Law: every batch of captures that the processor hands over is in strictly increasing
/// frame-index order, and a finished session stays unemitted exactly while one of its
/// snapshots still waits for a full-size frame.
pub proof fn law_emitted_batches_in_order_and_complete(p: ProcessorModel)
    ensures
        ({
            let (q, out) = try_emit_step(p);
            &&& forall|i: int| 0 <= i < out.batches.len() ==> captures_increasing(#[trigger] out.batches[i])
            &&& forall|i: int| 0 <= i < q.finished.len() ==> has_pending(p.pending, #[trigger] q.finished[i].session_id)
            &&& q.pending == p.pending
        }),
{
    lemma_emit_finished(p.pending, p.resolved, p.finished);
}

proof fn lemma_resolve_all_forced(b: BufferModel, pending: Seq<SnapshotView>)
    requires
        b.frames.len() > 0,
    ensures
        resolve_all(b, pending, true).1.len() == 0,
        resolve_all(b, pending, true).0.len() == pending.len(),
    decreases pending.len(),
{
    if pending.len() > 0 {
        lemma_resolve_all_forced(b, pending.drop_last());
    }
}

/// Law: at the end of the input, once any full-size frame has been buffered, no snapshot is
/// left waiting.
pub proof fn law_forced_resolution_leaves_nothing_pending(p: ProcessorModel)
    requires
        p.buffer.frames.len() > 0,
    ensures
        resolve_pending_step(p, true).pending.len() == 0,
        resolve_pending_step(p, true).resolved.len() == p.resolved.len() + p.pending.len(),
{
    lemma_resolve_all_forced(p.buffer, p.pending);
}

/// Law: the frame chosen for a time is a buffered frame, and no buffered frame is nearer to
/// that time; of equally near frames, the earliest buffered is chosen.
pub proof fn law_closest_in_time(frames: Seq<FrameView>, target: EpochNanos)
    requires
        frames.len() > 0,
    ensures
        exists|k: int| 0 <= k < frames.len() && frames[k] == closest_in_time(frames, target) && (
        forall|j: int| 0 <= j < k ==> time_distance(#[trigger] frames[j].captured_at, target) > time_distance(
            frames[k].captured_at,
            target,
        )),
        forall|j: int|
            0 <= j < frames.len() ==> time_distance(closest_in_time(frames, target).captured_at, target)
                <= time_distance(#[trigger] frames[j].captured_at, target),
    decreases frames.len(),
{
    if frames.len() > 1 {
        let prefix = frames.drop_last();
        law_closest_in_time(prefix, target);
        let best = closest_in_time(prefix, target);
        let k0 = choose|k: int| 0 <= k < prefix.len() && prefix[k] == best && (forall|j: int| 0 <= j < k ==> time_distance(#[trigger] prefix[j].captured_at, target) > time_distance(prefix[k].captured_at, target));
        if time_distance(frames.last().captured_at, target) < time_distance(best.captured_at, target) {
            let k = frames.len() - 1;
            assert forall|j: int| 0 <= j < k implies time_distance(#[trigger] frames[j].captured_at, target) > time_distance(frames[k].captured_at, target) by {
                assert(frames[j] == prefix[j]);
            }
            assert forall|j: int| 0 <= j < frames.len() implies time_distance(closest_in_time(frames, target).captured_at, target) <= time_distance(#[trigger] frames[j].captured_at, target) by {
                if j < prefix.len() {
                    assert(frames[j] == prefix[j]);
                }
            }
        } else {
            assert(frames[k0] == prefix[k0]);
            assert forall|j: int| 0 <= j < k0 implies time_distance(#[trigger] frames[j].captured_at, target) > time_distance(frames[k0].captured_at, target) by {
                assert(frames[j] == prefix[j]);
            }
            assert forall|j: int| 0 <= j < frames.len() implies time_distance(closest_in_time(frames, target).captured_at, target) <= time_distance(#[trigger] frames[j].captured_at, target) by {
                if j < prefix.len() {
                    assert(frames[j] == prefix[j]);
                }
            }
        }
    } else {
        assert(frames[0] == closest_in_time(frames, target));
    }
}

/// Frames buffered in the order they were captured.
pub open spec fn in_capture_order(frames: Seq<FrameView>) -> bool {
    forall|i: int, j: int| 0 <= i < j < frames.len() ==> frames[i].captured_at <= frames[j].captured_at
}

proof fn lemma_drop_aged(frames: Seq<FrameView>, latest: EpochNanos, max_age: int)
    requires
        in_capture_order(frames),
        frames.len() > 0,
        frames.last().captured_at == latest,
        max_age >= 0,
    ensures
        drop_aged(frames, latest, max_age).len() > 0,
        drop_aged(frames, latest, max_age).last() == frames.last(),
        in_capture_order(drop_aged(frames, latest, max_age)),
        forall|i: int| 0 <= i < drop_aged(frames, latest, max_age).len() ==> latest - (#[trigger] drop_aged(frames, latest, max_age)[i]).captured_at <= max_age,
    decreases frames.len(),
{
    if frames[0].captured_at <= latest && latest - frames[0].captured_at > max_age {
        let rest = frames.drop_first();
        assert(rest.len() > 0);
        assert(rest.last() == frames.last());
        assert(in_capture_order(rest)) by {
            assert forall|i: int, j: int| 0 <= i < j < rest.len() implies rest[i].captured_at <= rest[j].captured_at by {
                assert(rest[i] == frames[i + 1] && rest[j] == frames[j + 1]);
            }
        }
        lemma_drop_aged(rest, latest, max_age);
    } else {
        assert forall|i: int| 0 <= i < frames.len() implies latest - (#[trigger] frames[i]).captured_at <= max_age by {
            assert(frames[0].captured_at <= frames[i].captured_at);
            assert(frames[i].captured_at <= frames[frames.len() - 1].captured_at);
        }
    }
}

/// `drop_aged` removes a prefix of `frames`, each frame of which is more than `max_age` older
/// than `latest`.
proof fn lemma_drop_aged_is_suffix(frames: Seq<FrameView>, latest: EpochNanos, max_age: int) -> (k: int)
    ensures
        0 <= k <= frames.len(),
        drop_aged(frames, latest, max_age) == frames.skip(k),
        forall|i: int| 0 <= i < k ==> (#[trigger] frames[i]).captured_at <= latest && latest
            - frames[i].captured_at > max_age,
    decreases frames.len(),
{
    if frames.len() > 0 && frames[0].captured_at <= latest && latest - frames[0].captured_at
        > max_age {
        let rest = frames.drop_first();
        let j = lemma_drop_aged_is_suffix(rest, latest, max_age);
        assert(rest.skip(j) =~= frames.skip(j + 1));
        assert forall|i: int| 0 <= i < j + 1 implies (#[trigger] frames[i]).captured_at <= latest
            && latest - frames[i].captured_at > max_age by {
            if i > 0 {
                assert(frames[i] == rest[i - 1]);
            }
        }
        j + 1
    } else {
        assert(frames.skip(0) =~= frames);
        0
    }
}

/// Law: with frames arriving in capture order, the buffer keeps the newest frame and only frames
/// at most the buffer age older than it; what it keeps is a suffix of the old frames followed by
/// the new one, and every frame it drops was more than the buffer age older than the new one.
pub proof fn law_buffer_keeps_recent_frames(b: BufferModel, frame: FrameView)
    requires
        in_capture_order(b.frames),
        b.frames.len() > 0 ==> b.frames.last().captured_at <= frame.captured_at,
    ensures
        ({
            let c = buffer_push(b, frame);
            &&& c.frames.len() > 0
            &&& c.frames.last() == frame
            &&& in_capture_order(c.frames)
            &&& forall|i: int| 0 <= i < c.frames.len() ==> frame.captured_at - (#[trigger] c.frames[i]).captured_at <= max_age_nanos(b)
            &&& exists|k: int|
                0 <= k <= b.frames.len() && c.frames == b.frames.push(frame).skip(k) && (forall|i: int|
                    0 <= i < k ==> frame.captured_at - (#[trigger] b.frames[i]).captured_at
                        > max_age_nanos(b))
        }),
{
    let frames = b.frames.push(frame);
    let k = lemma_drop_aged_is_suffix(frames, frame.captured_at, max_age_nanos(b));
    if k > b.frames.len() {
        assert(frames[b.frames.len() as int] == frame);
    }
    assert forall|i: int| 0 <= i < k implies frame.captured_at - (#[trigger] b.frames[i]).captured_at
        > max_age_nanos(b) by {
        assert(frames[i] == b.frames[i]);
    }
    assert(in_capture_order(frames)) by {
        assert forall|i: int, j: int| 0 <= i < j < frames.len() implies frames[i].captured_at <= frames[j].captured_at by {
            if j == frames.len() - 1 {
                if b.frames.len() > 0 {
                    assert(frames[i] == b.frames[i]);
                    assert(b.frames[i].captured_at <= b.frames[b.frames.len() - 1].captured_at);
                }
            } else {
                assert(frames[i] == b.frames[i] && frames[j] == b.frames[j]);
            }
        }
    }
    assert(max_age_nanos(b) >= 0) by (nonlinear_arith)
        requires max_age_nanos(b) == b.max_age_seconds * 1_000_000_000, b.max_age_seconds >= 0;
    lemma_drop_aged(frames, frame.captured_at, max_age_nanos(b));
}

/// Law: a snapshot waits for the full-size stream only while the newest buffered frame is older
/// than the snapshot; once a newer frame is buffered it is matched at once.
pub proof fn law_resolution_waits_only_for_newer_frames(b: BufferModel, target: EpochNanos)
    ensures
        (b.frames.len() > 0 && b.frames.last().captured_at >= target) ==> buffer_resolve(b, target, false) is Some,
        buffer_resolve(b, target, false) is Some ==> (b.frames.len() > 0 && b.frames.last().captured_at >= target),
        b.frames.len() > 0 <==> buffer_resolve(b, target, true) is Some,
{
}

} // verus!
