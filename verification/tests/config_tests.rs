use camwatch_motion_detection::config::{
    ConfigError, InputSource, MotionDetectionConfig, RtspTransport, default_config_candidates,
    format_searched_paths, pick_config_path, resolve_config_path_with_home,
};

#[test]
fn parses_rtsp_input() {
    let input = match InputSource::parse("rtsp://camera.local/live") {
        Ok(source) => source,
        Err(error) => panic!("expected rtsp input to parse, got {error:?}"),
    };

    assert!(matches!(input, InputSource::Rtsp(_)));
}

#[test]
fn parses_file_input() {
    let temp_dir = match tempfile::tempdir() {
        Ok(dir) => dir,
        Err(error) => panic!("failed to create temp dir: {error}"),
    };
    let input_file = match tempfile::Builder::new()
        .prefix("example")
        .suffix(".mp4")
        .tempfile_in(temp_dir.path())
    {
        Ok(file) => file,
        Err(error) => panic!("failed to create input file: {error}"),
    };

    let input = match InputSource::parse(&input_file.path().display().to_string()) {
        Ok(source) => source,
        Err(error) => panic!("expected file input to parse, got {error:?}"),
    };

    assert!(matches!(input, InputSource::File(_)));
}

#[test]
fn rejects_missing_input_file() {
    let result = InputSource::parse("/definitely/not/here.mp4");
    match result {
        Err(ConfigError::InputFileNotFound(path)) => assert_eq!(path, "/definitely/not/here.mp4"),
        other => panic!("expected a missing-file error, got {other:?}"),
    }
}

#[test]
fn rtsps_scheme_is_a_stream() {
    let input = InputSource::classify("rtsps://camera/secure", false)
        .unwrap_or_else(|error| panic!("expected stream, got {error:?}"));
    assert!(input.is_rtsp());
    assert_eq!(input.display_value(), "rtsps://camera/secure");
}

#[test]
fn classify_uses_the_existence_answer_for_files() {
    assert!(matches!(InputSource::classify("movie.mp4", true), Ok(InputSource::File(_))));
    assert!(matches!(
        InputSource::classify("movie.mp4", false),
        Err(ConfigError::InputFileNotFound(_))
    ));
    assert!(matches!(InputSource::classify("rtsp:/bad", false), Err(_)));
}

#[test]
fn rejects_invalid_qos() {
    let config = MotionDetectionConfig {
        mqtt_qos: 3,
        ..MotionDetectionConfig::default()
    };

    let result = config.validate();

    assert!(result.is_err());
}

#[test]
fn defaults_match_the_documented_table() {
    let config = MotionDetectionConfig::default();
    assert_eq!(config.frame_width, 320);
    assert_eq!(config.frame_height, 180);
    assert_eq!(config.frame_rate, 5);
    assert_eq!(config.pixel_difference_threshold, 20);
    assert_eq!(f32::from_bits(config.motion_ratio_threshold), 0.015);
    assert_eq!(f32::from_bits(config.local_motion_ratio_threshold), 0.095);
    assert_eq!(f32::from_bits(config.background_alpha), 0.08);
    assert_eq!(config.mqtt_topic, "camwatch/motion");
    assert_eq!(config.rtsp_transport, RtspTransport::Tcp);
    assert_eq!(config.rtsp_max_retries, 12);
    assert!(config.clone().validate().is_ok());
}

fn invalid_message(config: MotionDetectionConfig) -> &'static str {
    match config.validate() {
        Err(ConfigError::InvalidValue(message)) => message,
        other => panic!("expected a validation error, got {other:?}"),
    }
}

#[test]
fn validation_names_the_first_bad_setting() {
    let base = MotionDetectionConfig::default();
    assert_eq!(
        invalid_message(MotionDetectionConfig { frame_width: 0, ..base.clone() }),
        "frame_width must be greater than 0"
    );
    assert_eq!(
        invalid_message(MotionDetectionConfig { frame_rate: 0, ..base.clone() }),
        "frame_rate must be greater than 0"
    );
    assert_eq!(
        invalid_message(MotionDetectionConfig {
            output_frame_width: Some(640),
            ..base.clone()
        }),
        "output_frame_width and output_frame_height must both be set or both be omitted"
    );
    assert_eq!(
        invalid_message(MotionDetectionConfig {
            motion_ratio_threshold: 0.0f32.to_bits(),
            ..base.clone()
        }),
        "motion_ratio_threshold must be between 0.0 and 1.0"
    );
    assert_eq!(
        invalid_message(MotionDetectionConfig {
            local_motion_ratio_threshold: 1.5f32.to_bits(),
            ..base.clone()
        }),
        "local_motion_ratio_threshold must be between 0.0 and 1.0"
    );
    assert_eq!(
        invalid_message(MotionDetectionConfig {
            background_alpha: (-0.5f32).to_bits(),
            ..base.clone()
        }),
        "background_alpha must be between 0.0 and 1.0"
    );
    assert_eq!(
        invalid_message(MotionDetectionConfig { snapshot_jpeg_quality: 101, ..base.clone() }),
        "snapshot_jpeg_quality must be between 1 and 100"
    );
    assert_eq!(
        invalid_message(MotionDetectionConfig {
            mqtt_host: "  ".to_owned(),
            output_directory: None,
            ..base.clone()
        }),
        "at least one output must be configured: mqtt_host and mqtt_topic, or output_directory"
    );
    assert_eq!(
        invalid_message(MotionDetectionConfig { mqtt_keep_alive_seconds: 0, ..base.clone() }),
        "mqtt_keep_alive_seconds must be greater than 0"
    );
    assert_eq!(
        invalid_message(MotionDetectionConfig { rtsp_retry_delay_seconds: 0, ..base }),
        "rtsp_retry_delay_seconds must be greater than 0"
    );
}

#[test]
fn ratio_thresholds_accept_exactly_one() {
    let config = MotionDetectionConfig {
        motion_ratio_threshold: 1.0f32.to_bits(),
        local_motion_ratio_threshold: f32::MIN_POSITIVE.to_bits(),
        ..MotionDetectionConfig::default()
    };
    assert!(config.validate().is_ok());
    let nan = MotionDetectionConfig {
        motion_ratio_threshold: f32::NAN.to_bits(),
        ..MotionDetectionConfig::default()
    };
    assert!(nan.validate().is_err());
}

#[test]
fn file_output_alone_is_enough() {
    let config = MotionDetectionConfig {
        mqtt_host: String::new(),
        mqtt_topic: String::new(),
        output_directory: Some("/tmp/camwatch".to_owned()),
        ..MotionDetectionConfig::default()
    };
    assert!(!config.mqtt_enabled());
    assert!(config.file_output_enabled());
    assert!(config.validate().is_ok());
}

#[test]
fn default_candidates_follow_the_search_order() {
    let with_home = default_config_candidates(Some("/home/user"));
    assert_eq!(
        with_home,
        vec![
            "/home/user/.config/camwatch/camwatch.toml".to_owned(),
            "/home/user/.config/camwatch.toml".to_owned(),
            "/etc/camwatch.toml".to_owned(),
        ]
    );
    let trailing_slash = default_config_candidates(Some("/root/"));
    assert_eq!(trailing_slash[0], "/root/.config/camwatch/camwatch.toml");
    assert_eq!(default_config_candidates(None), vec!["/etc/camwatch.toml".to_owned()]);
}

#[test]
fn pick_prefers_the_cli_path_then_the_first_present_candidate() {
    let candidates = vec!["a".to_owned(), "b".to_owned(), "c".to_owned()];
    let present = vec![false, true, true];
    assert_eq!(
        pick_config_path(Some("cli.toml".to_owned()), candidates.clone(), &present).unwrap(),
        "cli.toml"
    );
    assert_eq!(pick_config_path(None, candidates.clone(), &present).unwrap(), "b");
    match pick_config_path(None, candidates, &vec![false, false, false]) {
        Err(ConfigError::DefaultConfigNotFound { searched }) => {
            assert_eq!(format_searched_paths(&searched), "a, b, c")
        }
        other => panic!("expected missing configuration, got {other:?}"),
    }
}

/// Creates `dir/name` as a directory with exactly that name.
fn exact_dir(dir: &std::path::Path, name: &str) -> tempfile::TempDir {
    tempfile::Builder::new()
        .prefix(name)
        .rand_bytes(0)
        .tempdir_in(dir)
        .unwrap_or_else(|error| panic!("failed to create {name}: {error}"))
}

/// Creates `dir/name` as an empty file with exactly that name.
fn exact_file(dir: &std::path::Path, name: &str) -> tempfile::NamedTempFile {
    tempfile::Builder::new()
        .prefix(name)
        .rand_bytes(0)
        .tempfile_in(dir)
        .unwrap_or_else(|error| panic!("failed to create {name}: {error}"))
}

#[test]
fn prefers_nested_home_config_when_cli_flag_is_missing() {
    let temp_dir =
        tempfile::tempdir().unwrap_or_else(|error| panic!("failed to create temp dir: {error}"));
    let config_dir = exact_dir(temp_dir.path(), ".config");
    let app_dir = exact_dir(config_dir.path(), "camwatch");
    let nested = exact_file(app_dir.path(), "camwatch.toml");

    let home = temp_dir.path().display().to_string();
    let resolved = resolve_config_path_with_home(None, Some(home))
        .unwrap_or_else(|error| panic!("expected config to resolve, got {error:?}"));

    assert_eq!(
        resolved,
        temp_dir.path().join(".config/camwatch/camwatch.toml").display().to_string()
    );
    assert_eq!(resolved, nested.path().display().to_string());
}

#[test]
fn falls_back_to_flat_home_config_when_nested_config_is_missing() {
    let temp_dir =
        tempfile::tempdir().unwrap_or_else(|error| panic!("failed to create temp dir: {error}"));
    let config_dir = exact_dir(temp_dir.path(), ".config");
    let flat = exact_file(config_dir.path(), "camwatch.toml");

    let home = temp_dir.path().display().to_string();
    let resolved = resolve_config_path_with_home(None, Some(home))
        .unwrap_or_else(|error| panic!("expected config to resolve, got {error:?}"));

    assert_eq!(
        resolved,
        temp_dir.path().join(".config/camwatch.toml").display().to_string()
    );
    assert_eq!(resolved, flat.path().display().to_string());
}

#[test]
fn returns_error_when_no_default_config_exists() {
    let temp_dir =
        tempfile::tempdir().unwrap_or_else(|error| panic!("failed to create temp dir: {error}"));

    let home = temp_dir.path().display().to_string();
    let result = resolve_config_path_with_home(None, Some(home));

    assert!(matches!(
        result,
        Err(ConfigError::DefaultConfigNotFound { .. })
    ));
}

#[test]
fn cli_config_path_wins() {
    let result = resolve_config_path_with_home(Some("/custom.toml".to_owned()), None);
    assert_eq!(result.unwrap(), "/custom.toml");
}

#[test]
fn zero_output_sizes_pass_validation_when_both_are_given() {
    let config = MotionDetectionConfig {
        output_frame_width: Some(0),
        output_frame_height: Some(0),
        ..MotionDetectionConfig::default()
    };
    assert!(config.validate().is_ok());
}
