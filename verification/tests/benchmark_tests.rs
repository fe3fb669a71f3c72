use camwatch_motion_detection::benchmark::{
    BenchmarkMode, BenchmarkRequest, build_cases, build_single_case,
};
use camwatch_motion_detection::config::MotionDetectionConfig;
use camwatch_motion_detection::ffmpeg::FrameDimensions;

fn request(mode: BenchmarkMode, output: Option<(u32, u32)>) -> BenchmarkRequest {
    BenchmarkRequest {
        mode,
        detect_width: 320,
        detect_height: 180,
        output_width: output.map(|(width, _)| width),
        output_height: output.map(|(_, height)| height),
        frame_rate: 5,
    }
}

#[test]
fn single_case_uses_the_given_output_size() {
    let cases = build_cases(&request(BenchmarkMode::Single, Some((1280, 720))), None)
        .unwrap_or_else(|error| panic!("expected one case, got {error}"));
    assert_eq!(cases.len(), 1);
    assert_eq!(cases[0].label, "mode=single detection=320x180 output=1280x720");
    assert_eq!(cases[0].output_dimensions, FrameDimensions { width: 1280, height: 720 });
    assert_eq!(cases[0].settings.output_frame_width, Some(1280));
    assert_eq!(cases[0].settings.frame_rate, 5);
    assert_eq!(
        cases[0].settings.event_cooldown_seconds,
        MotionDetectionConfig::default().event_cooldown_seconds
    );
}

#[test]
fn single_case_without_output_size_uses_the_source_size() {
    let cases = build_cases(&request(BenchmarkMode::Single, None), Some("1920x1080\n"))
        .unwrap_or_else(|error| panic!("expected one case, got {error}"));
    assert_eq!(cases[0].label, "mode=single detection=320x180 output=1920x1080");
    assert_eq!(cases[0].settings.output_frame_width, None);

    let error = build_cases(&request(BenchmarkMode::Single, None), None).unwrap_err();
    assert!(error.starts_with("failed to resolve output dimensions"));
}

#[test]
fn output_size_needs_both_sides() {
    let error = build_single_case(320, 180, Some(640), None, 5, "single", Some("1920x1080"))
        .unwrap_err();
    assert_eq!(
        error,
        "--output-width and --output-height must either both be set or both be omitted"
    );
}

#[test]
fn aspect_mode_measures_three_sixteen_by_nine_outputs() {
    let cases = build_cases(&request(BenchmarkMode::Aspect16x9, None), None)
        .unwrap_or_else(|error| panic!("expected three cases, got {error}"));
    let labels: Vec<&str> = cases.iter().map(|case| case.label.as_str()).collect();
    assert_eq!(
        labels,
        vec![
            "mode=aspect16x9 detection=320x180 output=320x180",
            "mode=aspect16x9 detection=320x180 output=640x360",
            "mode=aspect16x9 detection=320x180 output=1280x720",
        ]
    );
    assert_eq!(cases[2].settings.output_frame_height, Some(720));
}

#[test]
fn aspect_mode_refuses_an_explicit_output_size() {
    let error = build_cases(&request(BenchmarkMode::Aspect16x9, Some((640, 360))), None).unwrap_err();
    assert_eq!(error, "do not pass --output-width/--output-height with --mode aspect16x9");
}
