use base64::Engine;
use camwatch_motion_detection::config::InputSource;
use camwatch_motion_detection::ffmpeg::VideoFrame;
use camwatch_motion_detection::motion::{MotionEvent, Ratio};
use camwatch_motion_detection::output::{FileOutputWriter, MotionCapture, epoch_millis};
use camwatch_motion_detection::session::MotionSessionCapture;

const SECOND: i64 = 1_000_000_000;

fn build_frame() -> VideoFrame {
    VideoFrame {
        index: 7,
        captured_at: 0,
        width: 2,
        height: 2,
        rgb: vec![255, 255, 255, 0, 0, 0, 255, 255, 255, 0, 0, 0],
    }
}

fn session_capture() -> MotionSessionCapture {
    MotionSessionCapture {
        frame: build_frame(),
        event: MotionEvent {
            motion_ratio: Ratio { numerator: 42, denominator: 100 },
            local_motion_ratio: Ratio { numerator: 73, denominator: 100 },
        },
        motion_started_at: 0,
        motion_started_frame_index: 2,
        motion_ended_at: 6 * SECOND,
        motion_ended_frame_index: 13,
    }
}

#[test]
fn mqtt_payload_contains_expected_fields() {
    let capture = MotionCapture::from_session_capture(
        &InputSource::Rtsp("rtsp://camera/live".to_owned()),
        &session_capture(),
        80,
    )
    .unwrap_or_else(|error| panic!("expected capture to build, got {error:?}"));

    let payload = capture.mqtt_payload_fields();

    assert_eq!(payload.frame_index, 7);
    assert_eq!(payload.captured_at_epoch_ms, 0);
    assert_eq!(payload.motion_duration_ms, 6000);
    assert_eq!(payload.local_motion_ratio, Ratio { numerator: 73, denominator: 100 });
    assert!(!payload.snapshot_jpeg_base64.is_empty());
    assert_eq!(payload.source, "rtsp://camera/live");
}

#[test]
fn snapshot_is_base64_of_the_jpeg() {
    let capture = MotionCapture::from_session_capture(
        &InputSource::File("video.mp4".into()),
        &session_capture(),
        80,
    )
    .unwrap();
    let payload = capture.mqtt_payload_fields();
    // A JPEG starts with FF D8, which Base64 writes as "/9".
    assert!(payload.snapshot_jpeg_base64.starts_with("/9"));
    assert_eq!(capture.snapshot_jpeg[..2], [0xFF, 0xD8]);
    assert_eq!(
        payload.snapshot_jpeg_base64,
        base64::engine::general_purpose::STANDARD.encode(&capture.snapshot_jpeg)
    );
    assert_eq!(payload.snapshot_jpeg_base64.len() % 4, 0);
    assert!(payload.snapshot_jpeg_base64.len() >= capture.snapshot_jpeg.len() * 4 / 3);
}

#[test]
fn file_names_use_the_utc_capture_time() {
    let capture = MotionCapture::from_session_capture(
        &InputSource::File("video.mp4".into()),
        &session_capture(),
        80,
    )
    .unwrap();
    assert_eq!(capture.file_stem(), "motion-19700101-000000");
    assert_eq!(capture.image_file_name(), "motion-19700101-000000.jpg");
    assert_eq!(capture.metadata_file_name(), "motion-19700101-000000.toml");
}

#[test]
fn file_stem_of_a_later_time() {
    let mut session = session_capture();
    // 2024-03-26 13:20:00 UTC
    session.frame.captured_at = 1_711_459_200 * SECOND;
    let capture = MotionCapture::from_session_capture(
        &InputSource::File("video.mp4".into()),
        &session,
        80,
    )
    .unwrap();
    assert_eq!(capture.file_stem(), "motion-20240326-132000");
    assert_eq!(capture.captured_at_epoch_ms, 1_711_459_200_000);
}

#[test]
fn metadata_carries_times_and_snapshot_name() {
    let capture = MotionCapture::from_session_capture(
        &InputSource::File("video.mp4".into()),
        &session_capture(),
        80,
    )
    .unwrap();
    let metadata = capture.file_metadata();
    assert_eq!(metadata.snapshot_file, "motion-19700101-000000.jpg");
    assert_eq!(metadata.captured_at_rfc3339, "1970-01-01T00:00:00+00:00");
    assert_eq!(metadata.motion_ended_at_rfc3339, "1970-01-01T00:00:06+00:00");
    assert_eq!(metadata.motion_duration_ms, 6000);
    assert_eq!(metadata.source, "video.mp4");
}

#[test]
fn epoch_millis_rounds_down_and_clamps_before_the_epoch() {
    assert_eq!(epoch_millis(1_999_999), 1);
    assert_eq!(epoch_millis(-5), 0);
    assert_eq!(epoch_millis(6 * SECOND), 6000);
}

#[test]
fn duration_is_never_negative() {
    let mut session = session_capture();
    session.motion_started_at = 9 * SECOND;
    session.motion_ended_at = 3 * SECOND;
    let capture = MotionCapture::from_session_capture(
        &InputSource::File("video.mp4".into()),
        &session,
        80,
    )
    .unwrap();
    assert_eq!(capture.motion_duration_ms, 0);
}

#[test]
fn oversized_frames_cannot_be_encoded() {
    let mut session = session_capture();
    session.frame = VideoFrame {
        index: 1,
        captured_at: 0,
        width: 70_000,
        height: 1,
        rgb: vec![0; 210_000],
    };
    let result = MotionCapture::from_session_capture(
        &InputSource::File("video.mp4".into()),
        &session,
        80,
    );
    assert!(result.is_err());
}

#[test]
fn file_writer_places_jpeg_and_toml_files_in_its_directory() {
    let writer = FileOutputWriter::new("/var/lib/camwatch/captures".to_owned());
    let capture = MotionCapture::from_session_capture(
        &InputSource::File("video.mp4".into()),
        &session_capture(),
        80,
    )
    .unwrap_or_else(|error| panic!("expected capture to build, got {error:?}"));

    let paths = writer.output_paths(&capture);
    assert_eq!(paths.image_path, "/var/lib/camwatch/captures/motion-19700101-000000.jpg");
    assert_eq!(paths.metadata_path, "/var/lib/camwatch/captures/motion-19700101-000000.toml");

    let trailing = FileOutputWriter::new("out/".to_owned()).output_paths(&capture);
    assert_eq!(trailing.image_path, "out/motion-19700101-000000.jpg");

    let metadata = capture.file_metadata();
    assert_eq!(metadata.snapshot_file, "motion-19700101-000000.jpg");
    assert_eq!(metadata.local_motion_ratio, Ratio { numerator: 73, denominator: 100 });
    assert_eq!(metadata.motion_duration_ms, 6000);
}
