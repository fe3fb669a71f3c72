use camwatch_motion_detection::config::{InputSource, MotionDetectionConfig};
use camwatch_motion_detection::error::AppError;
use camwatch_motion_detection::ffmpeg::{StreamError, StreamSource};
use camwatch_motion_detection::mqtt::{
    MqttError, MqttQos, MqttRuntimeError, map_mqtt_runtime_error, mqtt_credentials, qos_from_u8,
};
use camwatch_motion_detection::worker::{
    ReaderOutcome, ReconnectPolicy, WorkerStep, settle_reader_outcome,
};

fn settings(max_retries: u32) -> MotionDetectionConfig {
    MotionDetectionConfig {
        rtsp_max_retries: max_retries,
        rtsp_retry_delay_seconds: 9,
        ..MotionDetectionConfig::default()
    }
}

#[test]
fn files_are_streamed_once() {
    let mut policy = ReconnectPolicy::new(&InputSource::File("a.mp4".into()), &settings(3));
    assert!(matches!(policy.after_stream(Ok(()), false), WorkerStep::Finish(Ok(()))));
    assert!(matches!(
        policy.after_stream(Err(AppError::ProcessingThread), false),
        WorkerStep::Finish(Err(AppError::ProcessingThread))
    ));
}

#[test]
fn rtsp_streams_retry_up_to_the_limit() {
    let input = InputSource::Rtsp("rtsp://camera/live".to_owned());
    let mut policy = ReconnectPolicy::new(&input, &settings(2));
    assert!(matches!(
        policy.after_stream(Ok(()), false),
        WorkerStep::Reconnect { retry: 1, delay_seconds: 9 }
    ));
    assert!(matches!(
        policy.after_stream(Err(AppError::ProcessingThread), false),
        WorkerStep::Reconnect { retry: 2, delay_seconds: 9 }
    ));
    assert!(matches!(policy.after_stream(Ok(()), false), WorkerStep::GiveUp { retries: 2 }));
    assert_eq!(policy.retries(), 2);
}

#[test]
fn rtsp_stream_ending_at_shutdown_finishes() {
    let input = InputSource::Rtsp("rtsp://camera/live".to_owned());
    let mut policy = ReconnectPolicy::new(&input, &settings(0));
    assert!(matches!(policy.after_stream(Ok(()), true), WorkerStep::Finish(Ok(()))));
    assert!(matches!(policy.after_stream(Ok(()), false), WorkerStep::GiveUp { retries: 0 }));
}

#[test]
fn reader_outcomes_map_to_results() {
    let (result, stop) = settle_reader_outcome(StreamSource::Detection, ReaderOutcome::Completed, false);
    assert!(result.is_ok() && !stop);
    let (result, stop) = settle_reader_outcome(
        StreamSource::Output,
        ReaderOutcome::Failed(StreamError::FrameChannelClosed),
        true,
    );
    assert!(result.is_ok() && !stop);
    let (result, stop) = settle_reader_outcome(
        StreamSource::Output,
        ReaderOutcome::Failed(StreamError::MissingStdout),
        true,
    );
    assert!(matches!(result, Err(AppError::Stream(StreamError::MissingStdout))) && !stop);
    let (result, stop) = settle_reader_outcome(
        StreamSource::Output,
        ReaderOutcome::Failed(StreamError::FfmpegExited(Some(1))),
        false,
    );
    assert!(matches!(result, Err(AppError::Stream(StreamError::FfmpegExited(Some(1))))) && stop);
    let (result, stop) = settle_reader_outcome(StreamSource::Detection, ReaderOutcome::Panicked, false);
    assert!(matches!(result, Err(AppError::DetectionStreamThread)) && stop);
    let (result, _) = settle_reader_outcome(StreamSource::Output, ReaderOutcome::Panicked, false);
    assert!(matches!(result, Err(AppError::OutputStreamThread)));
}

#[test]
fn qos_levels() {
    assert_eq!(qos_from_u8(0), Ok(MqttQos::AtMostOnce));
    assert_eq!(qos_from_u8(1), Ok(MqttQos::AtLeastOnce));
    assert_eq!(qos_from_u8(2), Ok(MqttQos::ExactlyOnce));
    assert_eq!(qos_from_u8(3), Err(MqttError::InvalidQos(3)));
}

#[test]
fn credentials_need_a_username() {
    let mut config = MotionDetectionConfig::default();
    assert_eq!(mqtt_credentials(&config), None);
    config.mqtt_username = Some(String::new());
    assert_eq!(mqtt_credentials(&config), None);
    config.mqtt_username = Some("camera".to_owned());
    assert_eq!(mqtt_credentials(&config), Some(("camera".to_owned(), String::new())));
    config.mqtt_password = Some("SECRET-REDACTED".to_owned());
    assert_eq!(
        mqtt_credentials(&config),
        Some(("camera".to_owned(), "SECRET-REDACTED".to_owned()))
    );
}

#[test]
fn runtime_errors_map_to_program_errors() {
    assert!(matches!(
        map_mqtt_runtime_error(MqttRuntimeError::PublishThread),
        AppError::MqttPublishThread
    ));
    assert!(matches!(
        map_mqtt_runtime_error(MqttRuntimeError::EventThread),
        AppError::MqttEventThread
    ));
}

#[test]
fn shutdown_stops_rtsp_reconnects_but_not_the_first_file_pass() {
    let rtsp = ReconnectPolicy::new(&InputSource::Rtsp("rtsp://camera/live".to_owned()), &settings(2));
    assert!(rtsp.should_attempt(false));
    assert!(!rtsp.should_attempt(true));
    let file = ReconnectPolicy::new(&InputSource::File("a.mp4".into()), &settings(2));
    assert!(file.should_attempt(true));
}
