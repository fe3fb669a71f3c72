//! Frames and ffmpeg invocation.
//!
//! The application runs ffmpeg and reads raw RGB frames from its standard output; this module
//! decides what ffmpeg is asked to do and what a frame holds.

use vstd::prelude::*;
use crate::config::{InputSource, MotionDetectionConfig, RtspTransport};
use crate::text::{
    char_is_white_space, decimal, decimal_string, decimal_u32, is_white_space, lemma_decimal_reads_back,
    parse_decimal_u32,
};

verus! {

/// A point in time, as nanoseconds since the Unix epoch (negative before it).
pub type EpochNanos = i64;

/// One sampled frame: its position in the sampled stream, when it was read, its size and its
/// packed RGB bytes (`width * height * 3`).
#[derive(Debug)]
pub struct VideoFrame {
    pub index: u64,
    pub captured_at: EpochNanos,
    pub width: u32,
    pub height: u32,
    pub rgb: Vec<u8>,
}

/// The mathematical value of a [`VideoFrame`].
pub struct FrameView {
    pub index: u64,
    pub captured_at: EpochNanos,
    pub width: u32,
    pub height: u32,
    pub rgb: Seq<u8>,
}

impl View for VideoFrame {
    type V = FrameView;

    open spec fn view(&self) -> FrameView {
        FrameView {
            index: self.index,
            captured_at: self.captured_at,
            width: self.width,
            height: self.height,
            rgb: self.rgb@,
        }
    }
}

/// A frame whose bytes match its size.
pub open spec fn frame_is_complete(frame: &VideoFrame) -> bool {
    frame.rgb@.len() == frame.width * frame.height * 3
}

impl Clone for VideoFrame {
    fn clone(&self) -> (r: VideoFrame)
        ensures
            r@ == self@,
    {
        let rgb = self.rgb.clone();
        proof {
            assert forall|i: int| 0 <= i < rgb.len() implies rgb@[i] == self.rgb@[i] by {
                assert(cloned::<u8>(self.rgb[i], rgb[i]));
            }
            assert(rgb@ =~= self.rgb@);
        }
        VideoFrame {
            index: self.index,
            captured_at: self.captured_at,
            width: self.width,
            height: self.height,
            rgb,
        }
    }
}


/// Options for reading a stream.
#[derive(Clone, Copy, Debug)]
pub struct StreamOptions {
    /// Read files at their native frame rate (`-re`), as a live camera would deliver them.
    pub realtime_for_files: bool,
}

impl Default for StreamOptions {
    fn default() -> (r: StreamOptions)
        ensures
            r.realtime_for_files,
    {
        StreamOptions { realtime_for_files: true }
    }
}

/// The size of the frames that ffmpeg is asked to deliver.
#[derive(Clone, Copy, Debug, PartialEq, Eq, Structural)]
pub struct FrameDimensions {
    pub width: u32,
    pub height: u32,
}

/// The video filter: sample at `frame_rate`, scale into `width` by `height` keeping the aspect
/// ratio, and pad the rest with black.
pub open spec fn video_filter(frame_rate: u32, width: u32, height: u32) -> Seq<char> {
    "fps="@ + decimal(frame_rate as nat) + ",scale="@ + decimal(width as nat) + ":"@ + decimal(
        height as nat,
    ) + ":force_original_aspect_ratio=decrease,pad="@ + decimal(width as nat) + ":"@ + decimal(
        height as nat,
    ) + ":(ow-iw)/2:(oh-ih)/2:color=black"@
}

/// The ffmpeg command line that streams `input` as raw RGB frames of `dimensions` on standard
/// output.
pub open spec fn ffmpeg_args(
    input: InputSource,
    transport: RtspTransport,
    frame_rate: u32,
    dimensions: FrameDimensions,
    realtime_for_files: bool,
) -> Seq<Seq<char>> {
    seq!["-hide_banner"@, "-loglevel"@, "error"@, "-nostdin"@] + (if realtime_for_files
        && input is File {
        seq!["-re"@]
    } else {
        Seq::empty()
    }) + (if input is Rtsp {
        seq![
            "-rtsp_transport"@,
            transport.spec_ffmpeg_value(),
            "-fflags"@,
            "nobuffer"@,
            "-flags"@,
            "low_delay"@,
        ]
    } else {
        Seq::empty()
    }) + seq!["-i"@, input.spec_value()] + seq![
        "-an"@,
        "-vf"@,
        video_filter(frame_rate, dimensions.width, dimensions.height),
        "-pix_fmt"@,
        "rgb24"@,
        "-f"@,
        "rawvideo"@,
        "pipe:1"@,
    ]
}

/// `f` is a video filter that samples at `rate` frames per second and scales and pads to
/// `width` by `height`, each number written in decimal digits.
pub open spec fn filter_reads(f: Seq<char>, rate: u32, width: u32, height: u32) -> bool {
    exists|r: Seq<char>, w: Seq<char>, h: Seq<char>|
        #![trigger decimal_u32(r), decimal_u32(w), decimal_u32(h)]
        decimal_u32(r) == Some(rate) && decimal_u32(w) == Some(width) && decimal_u32(h) == Some(
            height,
        ) && f == "fps="@ + r + ",scale="@ + w + ":"@ + h
            + ":force_original_aspect_ratio=decrease,pad="@ + w + ":"@ + h
            + ":(ow-iw)/2:(oh-ih)/2:color=black"@
}

/// Law: the ffmpeg command line asks for the configured frame rate and frame size: the argument
/// after `-vf` is a filter whose numbers read back as `frame_rate`, the width and the height.
pub proof fn law_filter_uses_the_frame_rate_and_size(
    input: InputSource,
    transport: RtspTransport,
    frame_rate: u32,
    dimensions: FrameDimensions,
    realtime_for_files: bool,
)
    ensures
        ({
            let args = ffmpeg_args(input, transport, frame_rate, dimensions, realtime_for_files);
            exists|i: int|
                0 <= i && i + 1 < args.len() && #[trigger] args[i] == "-vf"@ && filter_reads(
                    args[i + 1],
                    frame_rate,
                    dimensions.width,
                    dimensions.height,
                )
        }),
{
    let args = ffmpeg_args(input, transport, frame_rate, dimensions, realtime_for_files);
    let head = seq!["-hide_banner"@, "-loglevel"@, "error"@, "-nostdin"@] + (if realtime_for_files
        && input is File {
        seq!["-re"@]
    } else {
        Seq::empty()
    }) + (if input is Rtsp {
        seq![
            "-rtsp_transport"@,
            transport.spec_ffmpeg_value(),
            "-fflags"@,
            "nobuffer"@,
            "-flags"@,
            "low_delay"@,
        ]
    } else {
        Seq::empty()
    }) + seq!["-i"@, input.spec_value()];
    let f = video_filter(frame_rate, dimensions.width, dimensions.height);
    let tail = seq!["-an"@, "-vf"@, f, "-pix_fmt"@, "rgb24"@, "-f"@, "rawvideo"@, "pipe:1"@];
    assert(args == head + tail);
    let i: int = head.len() as int + 1;
    assert(args[i] == tail[1]);
    assert(args[i + 1] == tail[2]);
    lemma_decimal_reads_back(frame_rate as nat);
    lemma_decimal_reads_back(dimensions.width as nat);
    lemma_decimal_reads_back(dimensions.height as nat);
    let r = decimal(frame_rate as nat);
    let w = decimal(dimensions.width as nat);
    let h = decimal(dimensions.height as nat);
    assert(decimal_u32(r) == Some(frame_rate));
    assert(decimal_u32(w) == Some(dimensions.width));
    assert(decimal_u32(h) == Some(dimensions.height));
    assert(f == "fps="@ + r + ",scale="@ + w + ":"@ + h
        + ":force_original_aspect_ratio=decrease,pad="@ + w + ":"@ + h
        + ":(ow-iw)/2:(oh-ih)/2:color=black"@);
}

fn push_str_arg(args: &mut Vec<String>, value: &str)
    ensures
        final(args).deep_view() == old(args).deep_view().push(value@),
{
    args.push(value.to_owned());
    assert(args.deep_view() =~= old(args).deep_view().push(value@));
}

fn video_filter_string(frame_rate: u32, width: u32, height: u32) -> (r: String)
    ensures
        r@ == video_filter(frame_rate, width, height),
{
    let mut filter = "fps=".to_owned();
    filter.append(decimal_string(frame_rate as u64).as_str());
    filter.append(",scale=");
    filter.append(decimal_string(width as u64).as_str());
    filter.append(":");
    filter.append(decimal_string(height as u64).as_str());
    filter.append(":force_original_aspect_ratio=decrease,pad=");
    filter.append(decimal_string(width as u64).as_str());
    filter.append(":");
    filter.append(decimal_string(height as u64).as_str());
    filter.append(":(ow-iw)/2:(oh-ih)/2:color=black");
    filter
}

/// The ffmpeg arguments for `input` at the given frame size.
pub fn build_ffmpeg_args_for_dimensions(
    input: &InputSource,
    settings: &MotionDetectionConfig,
    dimensions: FrameDimensions,
    options: StreamOptions,
) -> (r: Vec<String>)
    ensures
        r.deep_view() == ffmpeg_args(
            *input,
            settings.rtsp_transport,
            settings.frame_rate,
            dimensions,
            options.realtime_for_files,
        ),
{
    let mut args: Vec<String> = Vec::new();
    push_str_arg(&mut args, "-hide_banner");
    push_str_arg(&mut args, "-loglevel");
    push_str_arg(&mut args, "error");
    push_str_arg(&mut args, "-nostdin");
    let ghost head = args.deep_view();

    if options.realtime_for_files && !input.is_rtsp() {
        push_str_arg(&mut args, "-re");
    }
    let ghost with_re = args.deep_view();

    if input.is_rtsp() {
        push_str_arg(&mut args, "-rtsp_transport");
        push_str_arg(&mut args, settings.rtsp_transport.as_ffmpeg_value());
        push_str_arg(&mut args, "-fflags");
        push_str_arg(&mut args, "nobuffer");
        push_str_arg(&mut args, "-flags");
        push_str_arg(&mut args, "low_delay");
    }
    let ghost with_rtsp = args.deep_view();

    push_str_arg(&mut args, "-i");
    let value = input.display_value();
    push_str_arg(&mut args, value.as_str());
    let ghost with_input = args.deep_view();

    push_str_arg(&mut args, "-an");
    push_str_arg(&mut args, "-vf");
    let filter = video_filter_string(settings.frame_rate, dimensions.width, dimensions.height);
    push_str_arg(&mut args, filter.as_str());
    push_str_arg(&mut args, "-pix_fmt");
    push_str_arg(&mut args, "rgb24");
    push_str_arg(&mut args, "-f");
    push_str_arg(&mut args, "rawvideo");
    push_str_arg(&mut args, "pipe:1");
    proof {
        let expected = ffmpeg_args(
            *input,
            settings.rtsp_transport,
            settings.frame_rate,
            dimensions,
            options.realtime_for_files,
        );
        assert(head =~= seq!["-hide_banner"@, "-loglevel"@, "error"@, "-nostdin"@]);
        assert(args.deep_view() =~= expected);
    }
    args
}

/// The ffmpeg arguments for `input` at the motion-analysis frame size.
pub fn build_ffmpeg_args_with_options(
    input: &InputSource,
    settings: &MotionDetectionConfig,
    options: StreamOptions,
) -> (r: Vec<String>)
    ensures
        r.deep_view() == ffmpeg_args(
            *input,
            settings.rtsp_transport,
            settings.frame_rate,
            FrameDimensions { width: settings.frame_width, height: settings.frame_height },
            options.realtime_for_files,
        ),
{
    build_ffmpeg_args_for_dimensions(
        input,
        settings,
        FrameDimensions { width: settings.frame_width, height: settings.frame_height },
        options,
    )
}

/// The ffmpeg arguments for `input` at the motion-analysis frame size, reading files in real
/// time.
pub fn build_ffmpeg_args(input: &InputSource, settings: &MotionDetectionConfig) -> (r: Vec<String>)
    ensures
        r.deep_view() == ffmpeg_args(
            *input,
            settings.rtsp_transport,
            settings.frame_rate,
            FrameDimensions { width: settings.frame_width, height: settings.frame_height },
            true,
        ),
{
    build_ffmpeg_args_with_options(input, settings, StreamOptions::default())
}


/// Failures of the ffmpeg reader.
#[derive(Debug)]
pub enum StreamError {
    SpawnFfmpeg(std::io::Error),
    MissingStdout,
    MissingStderr,
    ReadFrame(std::io::Error),
    WaitForFfmpeg(std::io::Error),
    FfmpegExited(Option<i32>),
    FrameTooLarge,
    FrameChannelClosed,
    /// The source resolution could not be determined for full-size snapshots.
    SourceDimensionsUnknown,
}

/// The byte size of one packed RGB frame, when it fits in memory.
pub fn frame_size_bytes(width: u32, height: u32) -> (r: Result<usize, StreamError>)
    ensures
        width * height * 3 <= usize::MAX ==> (r matches Ok(n) && n == width * height * 3),
        width * height * 3 > usize::MAX ==> (r matches Err(StreamError::FrameTooLarge)),
{
    assert((width as u64) * (height as u64) <= u32::MAX as int * u32::MAX as int) by (nonlinear_arith);
    let pixels = (width as u64) * (height as u64);
    match pixels.checked_mul(3) {
        Some(bytes) => {
            if bytes <= usize::MAX as u64 {
                Ok(bytes as usize)
            } else {
                Err(StreamError::FrameTooLarge)
            }
        },
        None => Err(StreamError::FrameTooLarge),
    }
}

/// The snapshot size set in the configuration, when both dimensions are given; otherwise
/// snapshots keep the source resolution.
pub fn configured_output_dimensions(settings: &MotionDetectionConfig) -> (r: Option<FrameDimensions>)
    ensures
        (settings.output_frame_width is Some && settings.output_frame_height is Some) ==> r == Some(
            FrameDimensions {
                width: settings.output_frame_width.unwrap(),
                height: settings.output_frame_height.unwrap(),
            },
        ),
        (settings.output_frame_width is None || settings.output_frame_height is None) ==> r is None,
{
    match (settings.output_frame_width, settings.output_frame_height) {
        (Some(width), Some(height)) => Some(FrameDimensions { width, height }),
        _ => None,
    }
}

/// `s` without its trailing white space.
pub open spec fn trim_end(s: Seq<char>) -> Seq<char>
    decreases s.len(),
{
    if s.len() > 0 && is_white_space(s.last()) {
        trim_end(s.drop_last())
    } else {
        s
    }
}

/// The position of the first `c` in `s` at or after `from`.
pub open spec fn find_char_from(s: Seq<char>, c: char, from: int) -> Option<int>
    decreases s.len() - from,
{
    if from < 0 || from >= s.len() {
        None
    } else if s[from] == c {
        Some(from)
    } else {
        find_char_from(s, c, from + 1)
    }
}

/// The source size that ffprobe reports as `WIDTHxHEIGHT` (`-of csv=s=x:p=0`): two decimal sizes
/// split at the first `x`, trailing white space ignored, both positive.
pub open spec fn probe_dimensions(text: Seq<char>) -> Option<FrameDimensions> {
    let body = trim_end(text);
    match find_char_from(body, 'x', 0) {
        Some(p) => match (decimal_u32(body.take(p)), decimal_u32(body.skip(p + 1))) {
            (Some(width), Some(height)) => if width > 0 && height > 0 {
                Some(FrameDimensions { width, height })
            } else {
                None
            },
            _ => None,
        },
        None => None,
    }
}

/// Reads ffprobe's `WIDTHxHEIGHT` answer for the source size.
pub fn parse_probe_dimensions(text: &str) -> (r: Option<FrameDimensions>)
    ensures
        r == probe_dimensions(text@),
{
    let n = text.unicode_len();
    let mut end: usize = n;
    assert(text@.take(n as int) =~= text@);
    while end > 0 && char_is_white_space(text.get_char(end - 1))
        invariant
            end <= n,
            n == text@.len(),
            trim_end(text@) == trim_end(text@.take(end as int)),
        decreases end,
    {
        assert(text@.take(end as int).drop_last() =~= text@.take(end - 1));
        end = end - 1;
    }
    let ghost body = text@.take(end as int);
    assert(trim_end(body) == body);
    let mut p: usize = 0;
    while p < end && text.get_char(p) != 'x'
        invariant
            p <= end <= n,
            n == text@.len(),
            body == text@.take(end as int),
            find_char_from(body, 'x', 0) == find_char_from(body, 'x', p as int),
        decreases end - p,
    {
        p = p + 1;
    }
    if p == end {
        return None;
    }
    assert(body.take(p as int) =~= text@.subrange(0, p as int));
    assert(body.skip(p + 1) =~= text@.subrange(p + 1, end as int));
    let width = parse_decimal_u32(text, 0, p);
    let height = parse_decimal_u32(text, p + 1, end);
    match (width, height) {
        (Some(w), Some(h)) => {
            if w > 0 && h > 0 {
                Some(FrameDimensions { width: w, height: h })
            } else {
                None
            }
        },
        _ => None,
    }
}

/// The frame size of the snapshot stream: the configured output size when both dimensions are
/// set, otherwise the source size from ffprobe's answer `probe_output` (absent when ffprobe could
/// not be run). Fails when neither gives a size.
pub fn resolve_output_dimensions(settings: &MotionDetectionConfig, probe_output: Option<&str>) -> (r:
    Result<FrameDimensions, StreamError>)
    ensures
        (settings.output_frame_width is Some && settings.output_frame_height is Some) ==> r
            == Ok::<FrameDimensions, StreamError>(
            FrameDimensions {
                width: settings.output_frame_width.unwrap(),
                height: settings.output_frame_height.unwrap(),
            },
        ),
        !(settings.output_frame_width is Some && settings.output_frame_height is Some) ==> (match (
            probe_output
        ) {
            Some(text) => match probe_dimensions(text@) {
                Some(d) => r == Ok::<FrameDimensions, StreamError>(d),
                None => r matches Err(StreamError::SourceDimensionsUnknown),
            },
            None => r matches Err(StreamError::SourceDimensionsUnknown),
        }),
{
    match configured_output_dimensions(settings) {
        Some(dimensions) => Ok(dimensions),
        None => match probe_output {
            Some(text) => match parse_probe_dimensions(text) {
                Some(dimensions) => Ok(dimensions),
                None => Err(StreamError::SourceDimensionsUnknown),
            },
            None => Err(StreamError::SourceDimensionsUnknown),
        },
    }
}

/// The outcome of one attempt to read a whole frame from ffmpeg's output.
#[derive(Debug)]
pub enum ReadOutcome {
    /// The frame's bytes were read in full.
    Filled(Vec<u8>),
    /// The output ended before another frame began.
    EndOfStream,
    /// Reading failed.
    Failed(std::io::Error),
}

/// What the reader does next.
#[derive(Debug)]
pub enum ReaderStep {
    /// Hand this frame on.
    Deliver(VideoFrame),
    /// Stop reading; the stream is over.
    Finish,
    /// Stop ffmpeg and fail with this error.
    Abort(StreamError),
}

/// Numbers the frames of one ffmpeg run: the first frame read is 0, each next one counts up
/// (staying at `u64::MAX` once there).
pub struct FrameReaderState {
    pub next_index: u64,
    pub dimensions: FrameDimensions,
}

impl FrameReaderState {
    pub fn new(dimensions: FrameDimensions) -> (r: FrameReaderState)
        ensures
            r.next_index == 0,
            r.dimensions == dimensions,
    {
        FrameReaderState { next_index: 0, dimensions }
    }

    /// Decides on one read taken at `captured_at`: a full frame is delivered with the next index
    /// and the frame size; the end of the output finishes; a read error aborts.
    pub fn step(&mut self, outcome: ReadOutcome, captured_at: EpochNanos) -> (r: ReaderStep)
        ensures
            final(self).dimensions == old(self).dimensions,
            outcome matches ReadOutcome::Filled(rgb) ==> ({
                &&& r matches ReaderStep::Deliver(frame) && frame@ == (FrameView {
                    index: old(self).next_index,
                    captured_at,
                    width: old(self).dimensions.width,
                    height: old(self).dimensions.height,
                    rgb: rgb@,
                })
                &&& final(self).next_index == old(self).next_index.saturating_add(1)
            }),
            outcome is EndOfStream ==> (r is Finish && final(self).next_index
                == old(self).next_index),
            outcome matches ReadOutcome::Failed(e) ==> (r matches ReaderStep::Abort(
                StreamError::ReadFrame(x),
            ) && x == e && final(self).next_index == old(self).next_index),
    {
        match outcome {
            ReadOutcome::Filled(rgb) => {
                let frame = VideoFrame {
                    index: self.next_index,
                    captured_at,
                    width: self.dimensions.width,
                    height: self.dimensions.height,
                    rgb,
                };
                self.next_index = self.next_index.saturating_add(1);
                ReaderStep::Deliver(frame)
            },
            ReadOutcome::EndOfStream => ReaderStep::Finish,
            ReadOutcome::Failed(error) => ReaderStep::Abort(StreamError::ReadFrame(error)),
        }
    }
}

/// The result of an ffmpeg run once it has exited: an unsuccessful exit is an error unless
/// shutdown was requested (which stops ffmpeg on purpose).
pub fn settle_ffmpeg_exit(success: bool, code: Option<i32>, shutdown_requested: bool) -> (r: Result<
    (),
    StreamError,
>)
    ensures
        (success || shutdown_requested) ==> r is Ok,
        (!success && !shutdown_requested) ==> (r matches Err(StreamError::FfmpegExited(c)) && c
            == code),
{
    if !success && !shutdown_requested {
        Err(StreamError::FfmpegExited(code))
    } else {
        Ok(())
    }
}

/// Which of the two ffmpeg streams a frame comes from: the small motion-analysis stream or the
/// full-size snapshot stream.
#[derive(Clone, Copy, Debug, PartialEq, Eq, Structural)]
pub enum StreamSource {
    Detection,
    Output,
}

} // verus!
