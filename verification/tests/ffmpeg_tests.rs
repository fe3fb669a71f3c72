use camwatch_motion_detection::config::{InputSource, MotionDetectionConfig, RtspTransport};
use camwatch_motion_detection::ffmpeg::{
    FrameDimensions, StreamError, StreamOptions, build_ffmpeg_args,
    build_ffmpeg_args_for_dimensions, build_ffmpeg_args_with_options,
    configured_output_dimensions, frame_size_bytes, parse_probe_dimensions,
    resolve_output_dimensions, FrameReaderState, ReadOutcome, ReaderStep, settle_ffmpeg_exit,
};
use camwatch_motion_detection::text::parse_decimal_u32;

#[test]
fn file_input_uses_realtime_flag() {
    let args = build_ffmpeg_args(
        &InputSource::File("movie.mp4".into()),
        &MotionDetectionConfig::default(),
    );

    assert!(args.iter().any(|item| item == "-re"));
    assert!(args.iter().any(|item| item == "movie.mp4"));
}

#[test]
fn rtsp_input_uses_transport_settings() {
    let settings = MotionDetectionConfig {
        rtsp_transport: RtspTransport::Udp,
        ..MotionDetectionConfig::default()
    };
    let args = build_ffmpeg_args(
        &InputSource::Rtsp("rtsp://camera/live".to_owned()),
        &settings,
    );

    assert!(args.iter().any(|item| item == "-rtsp_transport"));
    assert!(args.iter().any(|item| item == "udp"));
    assert!(!args.iter().any(|item| item == "-re"));
}

#[test]
fn test_options_can_disable_realtime_file_reading() {
    let args = build_ffmpeg_args_with_options(
        &InputSource::File("movie.mp4".into()),
        &MotionDetectionConfig::default(),
        StreamOptions {
            realtime_for_files: false,
        },
    );

    assert!(!args.iter().any(|item| item == "-re"));
}

#[test]
fn full_argument_list_for_a_file() {
    let args = build_ffmpeg_args(
        &InputSource::File("movie.mp4".into()),
        &MotionDetectionConfig::default(),
    );
    assert_eq!(
        args,
        vec![
            "-hide_banner",
            "-loglevel",
            "error",
            "-nostdin",
            "-re",
            "-i",
            "movie.mp4",
            "-an",
            "-vf",
            "fps=5,scale=320:180:force_original_aspect_ratio=decrease,pad=320:180:(ow-iw)/2:(oh-ih)/2:color=black",
            "-pix_fmt",
            "rgb24",
            "-f",
            "rawvideo",
            "pipe:1",
        ]
    );
}

#[test]
fn output_dimensions_scale_the_snapshot_stream() {
    let args = build_ffmpeg_args_for_dimensions(
        &InputSource::Rtsp("rtsp://camera/live".to_owned()),
        &MotionDetectionConfig::default(),
        FrameDimensions { width: 1280, height: 720 },
        StreamOptions::default(),
    );
    assert_eq!(
        args,
        vec![
            "-hide_banner",
            "-loglevel",
            "error",
            "-nostdin",
            "-rtsp_transport",
            "tcp",
            "-fflags",
            "nobuffer",
            "-flags",
            "low_delay",
            "-i",
            "rtsp://camera/live",
            "-an",
            "-vf",
            "fps=5,scale=1280:720:force_original_aspect_ratio=decrease,pad=1280:720:(ow-iw)/2:(oh-ih)/2:color=black",
            "-pix_fmt",
            "rgb24",
            "-f",
            "rawvideo",
            "pipe:1",
        ]
    );
}

#[test]
fn frame_size_is_three_bytes_per_pixel() {
    assert_eq!(frame_size_bytes(320, 180).unwrap(), 172_800);
    assert_eq!(frame_size_bytes(0, 180).unwrap(), 0);
    if usize::BITS == 32 {
        assert!(matches!(frame_size_bytes(65_536, 65_536), Err(StreamError::FrameTooLarge)));
    } else {
        assert!(matches!(
            frame_size_bytes(u32::MAX, u32::MAX),
            Err(StreamError::FrameTooLarge)
        ));
    }
}

#[test]
fn configured_output_dimensions_need_both_sides() {
    let mut settings = MotionDetectionConfig::default();
    assert_eq!(configured_output_dimensions(&settings), None);
    settings.output_frame_width = Some(1280);
    assert_eq!(configured_output_dimensions(&settings), None);
    settings.output_frame_height = Some(720);
    assert_eq!(
        configured_output_dimensions(&settings),
        Some(FrameDimensions { width: 1280, height: 720 })
    );
}

#[test]
fn probe_answer_gives_the_source_size() {
    assert_eq!(
        parse_probe_dimensions("1920x1080\n"),
        Some(FrameDimensions { width: 1920, height: 1080 })
    );
    assert_eq!(
        parse_probe_dimensions("640x360"),
        Some(FrameDimensions { width: 640, height: 360 })
    );
    assert_eq!(
        parse_probe_dimensions("0640x0360 \r\n"),
        Some(FrameDimensions { width: 640, height: 360 })
    );
}

#[test]
fn malformed_probe_answers_give_no_size() {
    assert_eq!(parse_probe_dimensions(""), None);
    assert_eq!(parse_probe_dimensions("\n"), None);
    assert_eq!(parse_probe_dimensions("1920"), None);
    assert_eq!(parse_probe_dimensions("1920x"), None);
    assert_eq!(parse_probe_dimensions("x1080"), None);
    assert_eq!(parse_probe_dimensions("0x1080"), None);
    assert_eq!(parse_probe_dimensions("1920x0"), None);
    assert_eq!(parse_probe_dimensions(" 1920x1080"), None);
    assert_eq!(parse_probe_dimensions("1920x1080x2"), None);
    assert_eq!(parse_probe_dimensions("4294967296x1"), None);
    assert_eq!(
        parse_probe_dimensions("4294967295x1"),
        Some(FrameDimensions { width: 4_294_967_295, height: 1 })
    );
}

#[test]
fn decimal_ranges_parse_exactly() {
    assert_eq!(parse_decimal_u32("abc123def", 3, 6), Some(123));
    assert_eq!(parse_decimal_u32("abc123def", 3, 3), None);
    assert_eq!(parse_decimal_u32("12a4", 0, 4), None);
    assert_eq!(parse_decimal_u32("99999999999", 0, 11), None);
}

#[test]
fn output_dimensions_prefer_the_configuration() {
    let mut settings = MotionDetectionConfig::default();
    assert_eq!(
        resolve_output_dimensions(&settings, Some("1920x1080")).unwrap(),
        FrameDimensions { width: 1920, height: 1080 }
    );
    assert!(matches!(
        resolve_output_dimensions(&settings, None),
        Err(StreamError::SourceDimensionsUnknown)
    ));
    assert!(matches!(
        resolve_output_dimensions(&settings, Some("garbage")),
        Err(StreamError::SourceDimensionsUnknown)
    ));
    settings.output_frame_width = Some(1280);
    settings.output_frame_height = Some(720);
    assert_eq!(
        resolve_output_dimensions(&settings, None).unwrap(),
        FrameDimensions { width: 1280, height: 720 }
    );
    assert_eq!(
        resolve_output_dimensions(&settings, Some("1920x1080")).unwrap(),
        FrameDimensions { width: 1280, height: 720 }
    );
}

#[test]
fn reader_numbers_frames_and_stops_at_the_end() {
    let mut state = FrameReaderState::new(FrameDimensions { width: 2, height: 1 });
    match state.step(ReadOutcome::Filled(vec![1, 2, 3, 4, 5, 6]), 42) {
        ReaderStep::Deliver(frame) => {
            assert_eq!(frame.index, 0);
            assert_eq!(frame.captured_at, 42);
            assert_eq!((frame.width, frame.height), (2, 1));
            assert_eq!(frame.rgb, vec![1, 2, 3, 4, 5, 6]);
        }
        other => panic!("expected a frame, got {other:?}"),
    }
    match state.step(ReadOutcome::Filled(vec![0; 6]), 43) {
        ReaderStep::Deliver(frame) => assert_eq!(frame.index, 1),
        other => panic!("expected a frame, got {other:?}"),
    }
    assert!(matches!(state.step(ReadOutcome::EndOfStream, 44), ReaderStep::Finish));
    assert_eq!(state.next_index, 2);
    let failure = std::io::Error::new(std::io::ErrorKind::BrokenPipe, "pipe closed");
    assert!(matches!(
        state.step(ReadOutcome::Failed(failure), 45),
        ReaderStep::Abort(StreamError::ReadFrame(_))
    ));
    assert_eq!(state.next_index, 2);
}

#[test]
fn ffmpeg_exit_is_an_error_only_without_shutdown() {
    assert!(settle_ffmpeg_exit(true, Some(0), false).is_ok());
    assert!(settle_ffmpeg_exit(false, Some(255), true).is_ok());
    assert!(matches!(
        settle_ffmpeg_exit(false, Some(1), false),
        Err(StreamError::FfmpegExited(Some(1)))
    ));
    assert!(matches!(
        settle_ffmpeg_exit(false, None, false),
        Err(StreamError::FfmpegExited(None))
    ));
}
