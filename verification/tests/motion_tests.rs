use camwatch_motion_detection::ffmpeg::VideoFrame;
use camwatch_motion_detection::motion::{
    MotionAnalysis, Ratio, encode_snapshot_jpeg, sample_rgb_to_luma, score_changes,
};

fn build_frame(width: u32, height: u32, value: u8) -> VideoFrame {
    let mut rgb = Vec::new();
    for _ in 0..(width * height) {
        rgb.extend([value, value, value]);
    }

    VideoFrame {
        index: 0,
        captured_at: 0,
        width,
        height,
        rgb,
    }
}

#[test]
fn samples_source_frame_down_to_detection_resolution() {
    let rgb = vec![
        0, 0, 0, 255, 255, 255, 0, 0, 0, 255, 255, 255, 255, 255, 255, 0, 0, 0, 255, 255, 255,
        0, 0, 0,
    ];

    let grayscale = sample_rgb_to_luma(&rgb, 4, 2, 2, 1);

    assert_eq!(grayscale.len(), 2);
    assert_eq!(grayscale[0], 127);
    assert_eq!(grayscale[1], 127);
}

#[test]
fn sampling_with_equal_sizes_is_plain_luma() {
    let rgb = vec![255, 0, 0, 0, 255, 0, 0, 0, 255, 10, 20, 30];
    let grayscale = sample_rgb_to_luma(&rgb, 2, 2, 2, 2);
    assert_eq!(grayscale, vec![76, 149, 28, 18]);
}

#[test]
fn sampling_up_repeats_source_pixels() {
    let rgb = vec![200, 200, 200];
    let grayscale = sample_rgb_to_luma(&rgb, 1, 1, 3, 2);
    assert_eq!(grayscale, vec![200; 6]);
}

#[test]
fn sampling_zero_sizes_gives_nothing() {
    assert!(sample_rgb_to_luma(&[], 0, 0, 4, 4).is_empty());
    assert!(sample_rgb_to_luma(&[1, 2, 3], 1, 1, 0, 4).is_empty());
}

#[test]
fn encodes_jpeg_snapshot() {
    let frame = build_frame(8, 8, 64);
    let jpeg = match encode_snapshot_jpeg(&frame, 80) {
        Ok(bytes) => bytes,
        Err(error) => panic!("expected jpeg encoding to succeed, got {error}"),
    };

    assert!(!jpeg.is_empty());
    assert_eq!(&jpeg[..2], &[0xFF, 0xD8]);
}

#[test]
fn jpeg_refuses_empty_frames() {
    let frame = build_frame(0, 8, 64);
    assert!(encode_snapshot_jpeg(&frame, 80).is_err());
}

#[test]
fn whole_frame_change_counts_every_pixel() {
    let mask = vec![true; 16];
    let scores = score_changes(&mask, 4, 4);
    assert_eq!(scores.motion_ratio, Ratio { numerator: 16, denominator: 16 });
    assert_eq!(scores.local_motion_ratio, Ratio { numerator: 1, denominator: 1 });
}

#[test]
fn localized_cluster_fills_its_tiles() {
    // A 20x20 frame has 2x2-pixel tiles; a 4x4 changed block fills four of them.
    let mut mask = vec![false; 400];
    for row in 0..4 {
        for column in 0..4 {
            mask[row * 20 + column] = true;
        }
    }
    let scores = score_changes(&mask, 20, 20);
    assert_eq!(scores.motion_ratio, Ratio { numerator: 16, denominator: 400 });
    assert_eq!(scores.local_motion_ratio, Ratio { numerator: 4, denominator: 4 });
}

#[test]
fn sparse_noise_stays_low_in_every_tile() {
    // A 100x100 frame has 10x10-pixel tiles; one changed pixel per diagonal tile.
    let mut mask = vec![false; 10_000];
    for index in (0..100).step_by(10) {
        mask[index * 100 + index] = true;
    }
    let scores = score_changes(&mask, 100, 100);
    assert_eq!(scores.motion_ratio, Ratio { numerator: 10, denominator: 10_000 });
    assert_eq!(scores.local_motion_ratio, Ratio { numerator: 1, denominator: 100 });
}

#[test]
fn strongest_tile_uses_uneven_edge_tiles() {
    // Width 11 gives 2-pixel tiles and a 1-pixel last column; that tile is fully changed.
    let mut mask = vec![false; 11];
    mask[10] = true;
    let scores = score_changes(&mask, 11, 1);
    assert_eq!(scores.local_motion_ratio, Ratio { numerator: 1, denominator: 1 });
    assert_eq!(scores.motion_ratio, Ratio { numerator: 1, denominator: 11 });
}

#[test]
fn quiet_frame_scores_zero() {
    let mask = vec![false; 6];
    let scores = score_changes(&mask, 3, 2);
    assert_eq!(scores.motion_ratio.numerator, 0);
    assert_eq!(scores.local_motion_ratio.numerator, 0);
    assert!(scores.local_motion_ratio.denominator > 0);
}

#[test]
fn analysis_event_carries_ratios() {
    let analysis = MotionAnalysis {
        motion_ratio: Ratio { numerator: 3, denominator: 16 },
        local_motion_ratio: Ratio { numerator: 1, denominator: 4 },
        global_triggered: false,
        local_triggered: true,
    };
    assert!(analysis.is_motion_active());
    let event = analysis.event();
    assert!(event.motion_ratio.numerator > 0);
    assert!(event.local_motion_ratio.numerator > 0);
    assert_eq!(event.local_motion_ratio, Ratio { numerator: 1, denominator: 4 });
}
