use camwatch_motion_detection::config::MotionDetectionConfig;
use camwatch_motion_detection::ffmpeg::VideoFrame;
use camwatch_motion_detection::motion::{MotionAnalysis, Ratio};
use camwatch_motion_detection::session::{
    MotionSessionCapture, MotionSessionEvent, MotionSessionTracker,
};

const SECOND: i64 = 1_000_000_000;

fn build_frame(index: u64) -> VideoFrame {
    VideoFrame {
        index,
        captured_at: index as i64 * SECOND,
        width: 2,
        height: 2,
        rgb: vec![0; 12],
    }
}

fn ratio(numerator: u64, denominator: u64) -> Ratio {
    Ratio { numerator, denominator }
}

fn active_analysis() -> MotionAnalysis {
    MotionAnalysis {
        motion_ratio: ratio(20, 100),
        local_motion_ratio: ratio(30, 100),
        global_triggered: true,
        local_triggered: true,
    }
}

fn local_only_analysis() -> MotionAnalysis {
    MotionAnalysis {
        motion_ratio: ratio(0, 100),
        local_motion_ratio: ratio(30, 100),
        global_triggered: false,
        local_triggered: true,
    }
}

fn inactive_analysis() -> MotionAnalysis {
    MotionAnalysis {
        motion_ratio: ratio(0, 100),
        local_motion_ratio: ratio(0, 100),
        global_triggered: false,
        local_triggered: false,
    }
}

fn tracker_config() -> MotionDetectionConfig {
    MotionDetectionConfig {
        frame_rate: 1,
        motion_snapshot_delay_seconds: 5,
        long_motion_snapshot_interval_seconds: 30,
        motion_end_grace_seconds: 1,
        local_motion_consecutive_frames: 3,
        mqtt_host: String::new(),
        mqtt_topic: String::new(),
        output_directory: Some("/tmp/camwatch".into()),
        ..MotionDetectionConfig::default()
    }
}

fn capture_indexes(captures: &[MotionSessionCapture]) -> Vec<u64> {
    captures.iter().map(|capture| capture.frame.index).collect()
}

#[test]
fn short_motion_uses_middle_frame() {
    let mut tracker = MotionSessionTracker::new(&tracker_config());

    assert!(tracker.ingest(build_frame(0), active_analysis()).is_empty());
    assert!(tracker.ingest(build_frame(1), active_analysis()).is_empty());
    assert!(tracker.ingest(build_frame(2), active_analysis()).is_empty());
    let captures = tracker.ingest(build_frame(3), inactive_analysis());

    assert_eq!(captures.len(), 1);
    assert_eq!(captures[0].frame.index, 1);
    assert_eq!(captures[0].motion_started_frame_index, 0);
    assert_eq!(captures[0].motion_ended_frame_index, 2);
}

#[test]
fn longer_motion_uses_five_second_frame() {
    let mut tracker = MotionSessionTracker::new(&tracker_config());

    for index in 0..8 {
        assert!(
            tracker
                .ingest(build_frame(index), active_analysis())
                .is_empty()
        );
    }

    let captures = tracker.ingest(build_frame(8), inactive_analysis());

    assert_eq!(captures.len(), 1);
    assert_eq!(captures[0].frame.index, 5);
}

#[test]
fn very_long_motion_adds_periodic_captures() {
    let mut tracker = MotionSessionTracker::new(&tracker_config());

    for index in 0..65 {
        assert!(
            tracker
                .ingest(build_frame(index), active_analysis())
                .is_empty()
        );
    }

    let captures = tracker.ingest(build_frame(65), inactive_analysis());

    assert_eq!(capture_indexes(&captures), vec![5, 30, 60]);
}

#[test]
fn local_motion_confirmation_backdates_session_start() {
    let mut tracker = MotionSessionTracker::new(&tracker_config());

    assert!(
        tracker
            .ingest(build_frame(0), local_only_analysis())
            .is_empty()
    );
    assert!(
        tracker
            .ingest(build_frame(1), local_only_analysis())
            .is_empty()
    );
    assert!(
        tracker
            .ingest(build_frame(2), local_only_analysis())
            .is_empty()
    );
    let captures = tracker.ingest(build_frame(3), inactive_analysis());

    assert_eq!(captures.len(), 1);
    assert_eq!(captures[0].motion_started_frame_index, 0);
    assert_eq!(captures[0].frame.index, 1);
}

#[test]
fn event_api_emits_snapshot_selection_and_finish() {
    let mut tracker = MotionSessionTracker::new(&tracker_config());
    let mut saw_snapshot = false;

    for index in 0..8 {
        let events = tracker.ingest_events(build_frame(index), active_analysis());
        if index < 5 {
            assert!(events.is_empty());
        } else if index == 5 {
            assert_eq!(events.len(), 1);
            match &events[0] {
                MotionSessionEvent::SnapshotSelected(selection) => {
                    assert_eq!(selection.frame.index, 5);
                    saw_snapshot = true;
                }
                MotionSessionEvent::SessionFinished(_) => {
                    panic!("expected snapshot selection at 5 seconds")
                }
            }
        }
    }

    let events = tracker.ingest_events(build_frame(8), inactive_analysis());

    assert!(saw_snapshot);
    assert_eq!(events.len(), 1);
    match &events[0] {
        MotionSessionEvent::SessionFinished(summary) => {
            assert_eq!(summary.motion_started_frame_index, 0);
            assert_eq!(summary.motion_ended_frame_index, 7);
        }
        MotionSessionEvent::SnapshotSelected(_) => {
            panic!("expected only session finish on finalize")
        }
    }
}

#[test]
fn interrupted_local_run_does_not_start_a_session() {
    let mut tracker = MotionSessionTracker::new(&tracker_config());
    assert!(tracker.ingest(build_frame(0), local_only_analysis()).is_empty());
    assert!(tracker.ingest(build_frame(1), local_only_analysis()).is_empty());
    assert!(tracker.ingest(build_frame(2), inactive_analysis()).is_empty());
    assert!(tracker.ingest(build_frame(3), local_only_analysis()).is_empty());
    assert!(tracker.finish().is_empty());
}

#[test]
fn cooldown_blocks_the_next_session() {
    let mut tracker = MotionSessionTracker::new(&tracker_config());
    assert!(tracker.ingest(build_frame(0), active_analysis()).is_empty());
    assert_eq!(tracker.ingest(build_frame(1), inactive_analysis()).len(), 1);
    // The cooldown is 10 frames after the last active frame 0.
    for index in 2..10 {
        assert!(tracker.ingest(build_frame(index), active_analysis()).is_empty());
    }
    assert!(tracker.finish().is_empty());
    assert!(tracker.ingest(build_frame(10), active_analysis()).is_empty());
    let captures = tracker.finish();
    assert_eq!(capture_indexes(&captures), vec![10]);
    assert_eq!(captures[0].motion_started_frame_index, 10);
}

#[test]
fn finish_closes_an_open_session_once() {
    let mut tracker = MotionSessionTracker::new(&tracker_config());
    for index in 0..4 {
        assert!(tracker.ingest(build_frame(index), active_analysis()).is_empty());
    }
    let events = tracker.finish_events();
    assert_eq!(events.len(), 2);
    match &events[0] {
        MotionSessionEvent::SnapshotSelected(selection) => {
            assert_eq!(selection.frame.index, 1);
            assert_eq!(selection.session_id, 1);
        }
        MotionSessionEvent::SessionFinished(_) => panic!("expected the middle frame first"),
    }
    assert!(matches!(events[1], MotionSessionEvent::SessionFinished(_)));
    assert!(tracker.finish_events().is_empty());
}

#[test]
fn grace_keeps_a_session_open_through_short_gaps() {
    let config = MotionDetectionConfig {
        motion_end_grace_seconds: 3,
        ..tracker_config()
    };
    let mut tracker = MotionSessionTracker::new(&config);
    assert!(tracker.ingest(build_frame(0), active_analysis()).is_empty());
    assert!(tracker.ingest(build_frame(1), inactive_analysis()).is_empty());
    assert!(tracker.ingest(build_frame(2), inactive_analysis()).is_empty());
    assert!(tracker.ingest(build_frame(3), active_analysis()).is_empty());
    assert!(tracker.ingest(build_frame(4), inactive_analysis()).is_empty());
    assert!(tracker.ingest(build_frame(5), inactive_analysis()).is_empty());
    let captures = tracker.ingest(build_frame(6), inactive_analysis());
    assert_eq!(captures.len(), 1);
    assert_eq!(captures[0].motion_started_frame_index, 0);
    assert_eq!(captures[0].motion_ended_frame_index, 3);
    // The middle of frames 0 to 3 is frame 1; of the active frames 0 and 3, frame 0 is nearer.
    assert_eq!(captures[0].frame.index, 0);
}

#[test]
fn capture_carries_event_and_session_times() {
    let mut tracker = MotionSessionTracker::new(&tracker_config());
    assert!(tracker.ingest(build_frame(4), active_analysis()).is_empty());
    let captures = tracker.ingest(build_frame(5), inactive_analysis());
    assert_eq!(captures.len(), 1);
    assert_eq!(captures[0].event.motion_ratio, ratio(20, 100));
    assert_eq!(captures[0].event.local_motion_ratio, ratio(30, 100));
    assert_eq!(captures[0].motion_started_at, 4 * SECOND);
    assert_eq!(captures[0].motion_ended_at, 4 * SECOND);
}

#[test]
fn sessions_are_numbered_and_captures_stay_within_them() {
    let mut tracker = MotionSessionTracker::new(&MotionDetectionConfig {
        event_cooldown_seconds: 0,
        ..tracker_config()
    });
    let mut events = Vec::new();
    let mut captures = Vec::new();
    let pattern = [true, true, true, false, true, true, false, true, true, true, true, true, true, true];
    for (index, active) in pattern.iter().enumerate() {
        let analysis = if *active { active_analysis() } else { inactive_analysis() };
        events.extend(tracker.ingest_events(build_frame(index as u64), analysis));
    }
    events.extend(tracker.finish_events());

    let finished: Vec<u64> = events
        .iter()
        .filter_map(|event| match event {
            MotionSessionEvent::SessionFinished(summary) => Some(summary.session_id),
            MotionSessionEvent::SnapshotSelected(_) => None,
        })
        .collect();
    assert_eq!(finished, vec![1, 2, 3]);

    let mut open_session = 1;
    for event in &events {
        match event {
            MotionSessionEvent::SnapshotSelected(selection) => {
                assert_eq!(selection.session_id, open_session)
            }
            MotionSessionEvent::SessionFinished(summary) => {
                assert_eq!(summary.session_id, open_session);
                open_session += 1;
            }
        }
    }

    let mut replay = MotionSessionTracker::new(&MotionDetectionConfig {
        event_cooldown_seconds: 0,
        ..tracker_config()
    });
    for (index, active) in pattern.iter().enumerate() {
        let analysis = if *active { active_analysis() } else { inactive_analysis() };
        let step = replay.ingest(build_frame(index as u64), analysis);
        if !step.is_empty() {
            assert!(!active);
        }
        captures.extend(step);
    }
    captures.extend(replay.finish());
    assert!(!captures.is_empty());
    for capture in &captures {
        assert!(capture.motion_started_frame_index <= capture.frame.index);
        assert!(capture.frame.index <= capture.motion_ended_frame_index);
    }
}

#[test]
fn every_finished_session_reported_a_snapshot_within_its_bounds() {
    let mut tracker = MotionSessionTracker::new(&MotionDetectionConfig {
        event_cooldown_seconds: 0,
        ..tracker_config()
    });
    let mut events = Vec::new();
    let pattern = [true, true, false, false, true, true, true, true, true, true, true, false, true];
    for (index, active) in pattern.iter().enumerate() {
        let analysis = if *active { active_analysis() } else { inactive_analysis() };
        events.extend(tracker.ingest_events(build_frame(index as u64), analysis));
    }
    events.extend(tracker.finish_events());

    let mut finished = 0;
    for (position, event) in events.iter().enumerate() {
        if let MotionSessionEvent::SessionFinished(summary) = event {
            finished += 1;
            let chosen: Vec<u64> = events[..position]
                .iter()
                .filter_map(|earlier| match earlier {
                    MotionSessionEvent::SnapshotSelected(selection)
                        if selection.session_id == summary.session_id =>
                    {
                        Some(selection.frame.index)
                    }
                    _ => None,
                })
                .collect();
            assert!(!chosen.is_empty());
            for index in chosen {
                assert!(summary.motion_started_frame_index <= index);
                assert!(index <= summary.motion_ended_frame_index);
            }
        }
    }
    assert_eq!(finished, 3);
}

#[test]
fn a_session_that_chooses_while_opening_reports_no_choice() {
    let mut tracker = MotionSessionTracker::new(&MotionDetectionConfig {
        motion_snapshot_delay_seconds: 0,
        ..tracker_config()
    });
    let mut events = tracker.ingest_events(build_frame(0), active_analysis());
    events.extend(tracker.ingest_events(build_frame(1), inactive_analysis()));
    assert_eq!(events.len(), 1);
    assert!(matches!(events[0], MotionSessionEvent::SessionFinished(_)));
}
