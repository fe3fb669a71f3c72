//! The cases of the resolution benchmark: which detection and output frame sizes are measured,
//! and how each case is labelled.
//!
//! Timing the runs and reading the fixture videos happen outside the library; this module decides
//! the settings of each case.

use vstd::prelude::*;
use crate::config::MotionDetectionConfig;
use crate::ffmpeg::{FrameDimensions, probe_dimensions, resolve_output_dimensions};
use crate::text::{decimal, decimal_string};

verus! {

/// Which resolutions are measured: one given pair, or three 16:9 output sizes.
#[derive(Clone, Copy, Debug, PartialEq, Eq, Structural)]
pub enum BenchmarkMode {
    Single,
    Aspect16x9,
}

/// The benchmark's sizing options.
#[derive(Clone, Copy, Debug)]
pub struct BenchmarkRequest {
    pub mode: BenchmarkMode,
    pub detect_width: u32,
    pub detect_height: u32,
    pub output_width: Option<u32>,
    pub output_height: Option<u32>,
    pub frame_rate: u32,
}

/// One measured configuration.
#[derive(Clone, Debug)]
pub struct BenchmarkCase {
    pub label: String,
    pub settings: MotionDetectionConfig,
    pub output_dimensions: FrameDimensions,
}

/// The text of an optional string slice.
pub open spec fn opt_text(o: Option<&str>) -> Option<Seq<char>> {
    match o {
        Some(t) => Some(t@),
        None => None,
    }
}

/// The output size of a case: the given pair, or else the source size from ffprobe's answer.
pub open spec fn case_output(
    output_width: Option<u32>,
    output_height: Option<u32>,
    probe: Option<Seq<char>>,
) -> Option<FrameDimensions> {
    match (output_width, output_height) {
        (Some(width), Some(height)) => Some(FrameDimensions { width, height }),
        _ => match probe {
            Some(text) => probe_dimensions(text),
            None => None,
        },
    }
}

/// Why a case cannot be built, if it cannot.
pub open spec fn case_error(
    output_width: Option<u32>,
    output_height: Option<u32>,
    probe: Option<Seq<char>>,
) -> Option<Seq<char>> {
    if output_width is Some != output_height is Some {
        Some("--output-width and --output-height must either both be set or both be omitted"@)
    } else if case_output(output_width, output_height, probe) is None {
        Some(
            "failed to resolve output dimensions: could not determine the source resolution for output snapshots"@,
        )
    } else {
        None
    }
}

/// `mode=<mode> detection=<w>x<h> output=<w>x<h>`.
pub open spec fn case_label(
    mode_label: Seq<char>,
    detect_width: u32,
    detect_height: u32,
    output: FrameDimensions,
) -> Seq<char> {
    "mode="@ + mode_label + " detection="@ + decimal(detect_width as nat) + "x"@ + decimal(
        detect_height as nat,
    ) + " output="@ + decimal(output.width as nat) + "x"@ + decimal(output.height as nat)
}

/// `c` is the case for these sizes: the detection size, output size and frame rate are set, every
/// other setting keeps its documented default, and the output size and label follow.
pub open spec fn describes_case(
    c: &BenchmarkCase,
    mode_label: Seq<char>,
    detect_width: u32,
    detect_height: u32,
    output_width: Option<u32>,
    output_height: Option<u32>,
    frame_rate: u32,
    probe: Option<Seq<char>>,
) -> bool {
    &&& case_output(output_width, output_height, probe) == Some(c.output_dimensions)
    &&& c.label@ == case_label(mode_label, detect_width, detect_height, c.output_dimensions)
    &&& c.settings.frame_width == detect_width
    &&& c.settings.frame_height == detect_height
    &&& c.settings.output_frame_width == output_width
    &&& c.settings.output_frame_height == output_height
    &&& c.settings.frame_rate == frame_rate
    &&& (MotionDetectionConfig {
        frame_width: 320,
        frame_height: 180,
        output_frame_width: None,
        output_frame_height: None,
        frame_rate: 5,
        ..c.settings
    }).is_documented_default()
}

fn case_label_string(
    mode_label: &str,
    detect_width: u32,
    detect_height: u32,
    output: FrameDimensions,
) -> (r: String)
    ensures
        r@ == case_label(mode_label@, detect_width, detect_height, output),
{
    let mut label = "mode=".to_owned();
    label.append(mode_label);
    label.append(" detection=");
    label.append(decimal_string(detect_width as u64).as_str());
    label.append("x");
    label.append(decimal_string(detect_height as u64).as_str());
    label.append(" output=");
    label.append(decimal_string(output.width as u64).as_str());
    label.append("x");
    label.append(decimal_string(output.height as u64).as_str());
    label
}

/// Builds one case from the detection size, the optional output size (both or neither) and the
/// frame rate; without an output size the source size from ffprobe's answer `probe_output` is
/// used.
pub fn build_single_case(
    detect_width: u32,
    detect_height: u32,
    output_width: Option<u32>,
    output_height: Option<u32>,
    frame_rate: u32,
    mode_label: &str,
    probe_output: Option<&str>,
) -> (r: Result<BenchmarkCase, String>)
    ensures
        case_error(output_width, output_height, opt_text(probe_output)) matches Some(message) ==> (
        r matches Err(e) && e@ == message),
        case_error(output_width, output_height, opt_text(probe_output)) is None ==> (r matches Ok(
            c,
        ) && describes_case(
            &c,
            mode_label@,
            detect_width,
            detect_height,
            output_width,
            output_height,
            frame_rate,
            opt_text(probe_output),
        )),
{
    if output_width.is_some() != output_height.is_some() {
        return Err(
            "--output-width and --output-height must either both be set or both be omitted".to_owned(),
        );
    }
    let defaults = MotionDetectionConfig::default();
    let settings = MotionDetectionConfig {
        frame_width: detect_width,
        frame_height: detect_height,
        output_frame_width: output_width,
        output_frame_height: output_height,
        frame_rate,
        ..defaults
    };
    let output_dimensions = match resolve_output_dimensions(&settings, probe_output) {
        Ok(dimensions) => dimensions,
        Err(_) => {
            return Err(
                "failed to resolve output dimensions: could not determine the source resolution for output snapshots".to_owned(),
            );
        },
    };
    let label = case_label_string(mode_label, detect_width, detect_height, output_dimensions);
    Ok(BenchmarkCase { label, settings, output_dimensions })
}

/// The cases of a benchmark run: the one requested pair, or the 320x180, 640x360 and 1280x720
/// outputs (which take no output size of their own).
pub fn build_cases(request: &BenchmarkRequest, probe_output: Option<&str>) -> (r: Result<
    Vec<BenchmarkCase>,
    String,
>)
    ensures
        request.mode == BenchmarkMode::Single ==> match case_error(
            request.output_width,
            request.output_height,
            opt_text(probe_output),
        ) {
            Some(message) => r matches Err(e) && e@ == message,
            None => r matches Ok(cases) && cases.len() == 1 && describes_case(
                &cases[0],
                "single"@,
                request.detect_width,
                request.detect_height,
                request.output_width,
                request.output_height,
                request.frame_rate,
                opt_text(probe_output),
            ),
        },
        (request.mode == BenchmarkMode::Aspect16x9 && (request.output_width is Some
            || request.output_height is Some)) ==> (r matches Err(e) && e@
            == "do not pass --output-width/--output-height with --mode aspect16x9"@),
        (request.mode == BenchmarkMode::Aspect16x9 && request.output_width is None
            && request.output_height is None) ==> (r matches Ok(cases) && cases.len() == 3 && (
        forall|i: int|
            #![trigger cases[i]]
            0 <= i < 3 ==> describes_case(
                &cases[i],
                "aspect16x9"@,
                request.detect_width,
                request.detect_height,
                Some(seq![320u32, 640u32, 1280u32][i]),
                Some(seq![180u32, 360u32, 720u32][i]),
                request.frame_rate,
                opt_text(probe_output),
            ))),
{
    match request.mode {
        BenchmarkMode::Single => {
            match build_single_case(
                request.detect_width,
                request.detect_height,
                request.output_width,
                request.output_height,
                request.frame_rate,
                "single",
                probe_output,
            ) {
                Ok(case) => {
                    let mut cases: Vec<BenchmarkCase> = Vec::new();
                    cases.push(case);
                    Ok(cases)
                },
                Err(error) => Err(error),
            }
        },
        BenchmarkMode::Aspect16x9 => {
            if request.output_width.is_some() || request.output_height.is_some() {
                return Err(
                    "do not pass --output-width/--output-height with --mode aspect16x9".to_owned(),
                );
            }
            let widths: [u32; 3] = [320, 640, 1280];
            let heights: [u32; 3] = [180, 360, 720];
            let ghost widths_s = seq![320u32, 640u32, 1280u32];
            let ghost heights_s = seq![180u32, 360u32, 720u32];
            assert(widths@ == widths_s);
            assert(heights@ == heights_s);
            let mut cases: Vec<BenchmarkCase> = Vec::new();
            let mut i: usize = 0;
            while i < 3
                invariant
                    i <= 3,
                    cases.len() == i,
                    widths@ == widths_s,
                    heights@ == heights_s,
                    forall|k: int|
                        #![trigger cases[k]]
                        0 <= k < i ==> describes_case(
                            &cases[k],
                            "aspect16x9"@,
                            request.detect_width,
                            request.detect_height,
                            Some(widths_s[k]),
                            Some(heights_s[k]),
                            request.frame_rate,
                            opt_text(probe_output),
                        ),
                decreases 3 - i,
            {
                let case = match build_single_case(
                    request.detect_width,
                    request.detect_height,
                    Some(widths[i]),
                    Some(heights[i]),
                    request.frame_rate,
                    "aspect16x9",
                    probe_output,
                ) {
                    Ok(case) => case,
                    Err(error) => {
                        return Err(error);
                    },
                };
                cases.push(case);
                i = i + 1;
            }
            Ok(cases)
        },
    }
}

} // verus!
