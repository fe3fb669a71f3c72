use camwatch_motion_detection::config::MotionDetectionConfig;
use camwatch_motion_detection::ffmpeg::VideoFrame;
use camwatch_motion_detection::motion::{MotionEvent, Ratio};
use camwatch_motion_detection::processor::{
    FrameIndexState, OutputFrameBuffer, ProcessorState, abs_time_diff,
};
use camwatch_motion_detection::session::{
    MotionSessionEvent, MotionSessionSummary, MotionSnapshotSelection,
};

const SECOND: i64 = 1_000_000_000;

fn frame_at(index: u64, seconds: i64, width: u32) -> VideoFrame {
    VideoFrame {
        index,
        captured_at: seconds * SECOND,
        width,
        height: 1,
        rgb: vec![0; width as usize * 3],
    }
}

fn event() -> MotionEvent {
    MotionEvent {
        motion_ratio: Ratio { numerator: 1, denominator: 2 },
        local_motion_ratio: Ratio { numerator: 1, denominator: 2 },
    }
}

fn selection(session_id: u64, index: u64, seconds: i64) -> MotionSessionEvent {
    MotionSessionEvent::SnapshotSelected(MotionSnapshotSelection {
        session_id,
        frame: frame_at(index, seconds, 2),
        event: event(),
    })
}

fn finished(session_id: u64, start: u64, end: u64) -> MotionSessionEvent {
    MotionSessionEvent::SessionFinished(MotionSessionSummary {
        session_id,
        motion_started_at: start as i64 * SECOND,
        motion_started_frame_index: start,
        motion_ended_at: end as i64 * SECOND,
        motion_ended_frame_index: end,
    })
}

#[test]
fn normalize_keeps_indices_growing_after_a_restart() {
    let mut state = FrameIndexState::new();
    assert_eq!(state.normalize(frame_at(0, 0, 1)).index, 0);
    assert_eq!(state.normalize(frame_at(1, 0, 1)).index, 1);
    assert_eq!(state.normalize(frame_at(2, 0, 1)).index, 2);
    // The stream restarted.
    assert_eq!(state.normalize(frame_at(0, 0, 1)).index, 3);
    assert_eq!(state.normalize(frame_at(1, 0, 1)).index, 4);
}

#[test]
fn time_distance_is_symmetric() {
    assert_eq!(abs_time_diff(5, 2), 3);
    assert_eq!(abs_time_diff(2, 5), 3);
    assert_eq!(abs_time_diff(i64::MIN, i64::MAX), u64::MAX);
}

#[test]
fn buffer_resolves_the_nearest_frame_once_a_newer_one_exists() {
    let mut buffer = OutputFrameBuffer::new(&MotionDetectionConfig::default());
    assert!(buffer.resolve(0, true).is_none());
    buffer.push(frame_at(0, 10, 4));
    buffer.push(frame_at(1, 12, 4));
    assert!(buffer.resolve(13 * SECOND, false).is_none());
    assert_eq!(buffer.resolve(13 * SECOND, true).unwrap().index, 1);
    assert_eq!(buffer.resolve(11 * SECOND, false).unwrap().index, 0);
    assert_eq!(buffer.resolve(12 * SECOND, false).unwrap().index, 1);
}

#[test]
fn buffer_drops_frames_older_than_its_age() {
    // Default settings keep 5 + 1 + 2 = 8 seconds.
    let mut buffer = OutputFrameBuffer::new(&MotionDetectionConfig::default());
    buffer.push(frame_at(0, 0, 4));
    buffer.push(frame_at(1, 8, 4));
    assert_eq!(buffer.resolve(0, false).unwrap().index, 0);
    buffer.push(frame_at(2, 9, 4));
    assert_eq!(buffer.resolve(0, false).unwrap().index, 1);
}

#[test]
fn session_waits_for_its_full_size_snapshot() {
    let mut processor = ProcessorState::new(&MotionDetectionConfig::default());
    let emitted = processor.handle_session_events(vec![selection(1, 3, 3), finished(1, 0, 6)]);
    assert!(emitted.batches.is_empty());
    assert!(emitted.without_snapshot.is_empty());

    let emitted = processor.push_output_frame(frame_at(40, 2, 8));
    assert!(emitted.batches.is_empty());

    let emitted = processor.push_output_frame(frame_at(41, 4, 8));
    assert_eq!(emitted.batches.len(), 1);
    let batch = &emitted.batches[0];
    assert_eq!(batch.len(), 1);
    assert_eq!(batch[0].frame.width, 8);
    assert_eq!(batch[0].frame.index, 40);
    assert_eq!(batch[0].motion_started_frame_index, 0);
    assert_eq!(batch[0].motion_ended_frame_index, 6);
}

#[test]
fn flush_matches_waiting_snapshots_to_any_frame() {
    let mut processor = ProcessorState::new(&MotionDetectionConfig::default());
    assert!(processor.push_output_frame(frame_at(0, 1, 8)).batches.is_empty());
    let emitted = processor.handle_session_events(vec![selection(7, 9, 9), finished(7, 9, 9)]);
    assert!(emitted.batches.is_empty());
    let emitted = processor.flush();
    assert_eq!(emitted.batches.len(), 1);
    assert_eq!(emitted.batches[0][0].frame.index, 0);
}

#[test]
fn session_without_snapshot_is_reported() {
    let mut processor = ProcessorState::new(&MotionDetectionConfig::default());
    let emitted = processor.handle_session_events(vec![finished(3, 0, 1)]);
    assert!(emitted.batches.is_empty());
    assert_eq!(emitted.without_snapshot, vec![3]);
}

#[test]
fn batches_are_sorted_and_deduplicated() {
    let mut processor = ProcessorState::new(&MotionDetectionConfig::default());
    for seconds in 0..8 {
        let _ = processor.push_output_frame(frame_at(seconds as u64, seconds, 8));
    }
    let emitted = processor.handle_session_events(vec![
        selection(1, 6, 6),
        selection(1, 2, 2),
        selection(1, 6, 6),
        finished(1, 0, 7),
    ]);
    assert_eq!(emitted.batches.len(), 1);
    let indexes: Vec<u64> = emitted.batches[0].iter().map(|c| c.frame.index).collect();
    assert_eq!(indexes, vec![2, 6]);
}
