//! Motion event outputs shared by MQTT and file writing.

use base64::Engine;
use vstd::prelude::*;
use crate::config::{InputSource, join_path, join_path_exec};
use crate::ffmpeg::{EpochNanos, frame_is_complete};
use crate::motion::{Ratio, encode_snapshot_jpeg, jpeg_rgb8};
use crate::session::MotionSessionCapture;

verus! {

/// `serde_json::Error`, from serialising the MQTT payload.
#[verifier::external_type_specification]
#[verifier::external_body]
pub struct ExJsonError(serde_json::Error);

/// `toml::ser::Error`, from serialising the metadata file.
#[verifier::external_type_specification]
#[verifier::external_body]
pub struct ExTomlSerError(toml::ser::Error);

#[derive(Debug)]
pub enum OutputError {
    Snapshot(image::ImageError),
    SerializeJson(serde_json::Error),
    SerializeToml(toml::ser::Error),
    CreateOutputDirectory { path: String, source: std::io::Error },
    WriteFile { path: String, source: std::io::Error },
}


// ---------------------------------------------------------------------------------------------
// Calls into outside crates
// ---------------------------------------------------------------------------------------------

/// The character for a 6-bit value in the standard Base64 alphabet (RFC 4648, table 1).
pub open spec fn base64_char(v: int) -> char {
    if v < 26 {
        ('A' as int + v) as char
    } else if v < 52 {
        ('a' as int + (v - 26)) as char
    } else if v < 62 {
        ('0' as int + (v - 52)) as char
    } else if v == 62 {
        '+'
    } else {
        '/'
    }
}

/// Padded standard Base64 (RFC 4648, section 4): each group of three bytes gives four
/// characters; a last group of one or two bytes gives two or three characters and `=` padding.
pub open spec fn base64_standard(bytes: Seq<u8>) -> Seq<char>
    decreases bytes.len(),
{
    if bytes.len() == 0 {
        Seq::empty()
    } else if bytes.len() == 1 {
        let n = bytes[0] as int;
        seq![base64_char(n / 4), base64_char((n % 4) * 16), '=', '=']
    } else if bytes.len() == 2 {
        let n = bytes[0] as int * 256 + bytes[1] as int;
        seq![base64_char(n / 1024), base64_char((n / 16) % 64), base64_char((n % 16) * 4), '=']
    } else {
        let n = bytes[0] as int * 65536 + bytes[1] as int * 256 + bytes[2] as int;
        seq![
            base64_char(n / 262144),
            base64_char((n / 4096) % 64),
            base64_char((n / 64) % 64),
            base64_char(n % 64),
        ] + base64_standard(bytes.skip(3))
    }
}

/// `base64::engine::general_purpose::STANDARD.encode`: padded Base64 with the standard
/// alphabet, as [`base64_standard`] spells out.
#[verifier::external_body]
fn encode_base64(bytes: &[u8]) -> (r: String)
    ensures
        r@ == base64_standard(bytes@),
{
    base64::engine::general_purpose::STANDARD.encode(bytes)
}

/// The text that `chrono` writes for the UTC instant `nanos` after the epoch with a strftime
/// pattern.
pub uninterp spec fn utc_format(nanos: i64, pattern: Seq<char>) -> Seq<char>;

/// `chrono::DateTime::<Utc>::from_timestamp_nanos(nanos).format(pattern).to_string()`. Every
/// `i64` is a valid instant for `from_timestamp_nanos`; formatting panics on a pattern that
/// cannot be written, so the pattern is limited to the one the library uses, which only holds
/// valid date and time fields. The text is named, not described.
#[verifier::external_body]
fn format_utc(nanos: i64, pattern: &str) -> (r: String)
    requires
        pattern@ == "%Y%m%d-%H%M%S"@,
    ensures
        r@ == utc_format(nanos, pattern@),
{
    chrono::DateTime::<chrono::Utc>::from_timestamp_nanos(nanos).format(pattern).to_string()
}

/// The RFC 3339 text that `chrono` writes for the UTC instant `nanos` after the epoch.
pub uninterp spec fn utc_rfc3339(nanos: i64) -> Seq<char>;

/// `chrono::DateTime::<Utc>::from_timestamp_nanos(nanos).to_rfc3339()`. The text is named, not
/// described.
#[verifier::external_body]
fn format_rfc3339(nanos: i64) -> (r: String)
    ensures
        r@ == utc_rfc3339(nanos),
{
    chrono::DateTime::<chrono::Utc>::from_timestamp_nanos(nanos).to_rfc3339()
}

// ---------------------------------------------------------------------------------------------
// Captures
// ---------------------------------------------------------------------------------------------

/// Milliseconds since the epoch, rounded down; instants before the epoch count as 0.
pub open spec fn epoch_ms(nanos: i64) -> u64 {
    if nanos < 0 {
        0
    } else {
        (nanos / 1_000_000) as u64
    }
}

/// Law: the epoch milliseconds of an instant at or after the epoch are its nanoseconds divided
/// by a million, rounded down; instants before the epoch give 0.
pub proof fn law_epoch_milliseconds_round_down(nanos: i64)
    ensures
        nanos >= 0 ==> epoch_ms(nanos) * 1_000_000 <= nanos < (epoch_ms(nanos) + 1) * 1_000_000,
        nanos < 0 ==> epoch_ms(nanos) == 0,
{
    if nanos >= 0 {
        vstd::arithmetic::div_mod::lemma_fundamental_div_mod(nanos as int, 1_000_000);
        vstd::arithmetic::div_mod::lemma_mod_bound(nanos as int, 1_000_000);
    }
}

pub fn epoch_millis(nanos: EpochNanos) -> (r: u64)
    ensures
        r == epoch_ms(nanos),
{
    if nanos < 0 {
        0
    } else {
        (nanos / 1_000_000) as u64
    }
}

/// Everything published or written about one snapshot of a motion session.
#[derive(Debug)]
pub struct MotionCapture {
    pub source: String,
    pub captured_at: EpochNanos,
    pub captured_at_epoch_ms: u64,
    pub motion_started_at: EpochNanos,
    pub motion_started_at_epoch_ms: u64,
    pub motion_ended_at: EpochNanos,
    pub motion_ended_at_epoch_ms: u64,
    pub motion_duration_ms: u64,
    pub frame_index: u64,
    pub motion_started_frame_index: u64,
    pub motion_ended_frame_index: u64,
    pub motion_ratio: Ratio,
    pub local_motion_ratio: Ratio,
    pub frame_width: u32,
    pub frame_height: u32,
    pub snapshot_jpeg: Vec<u8>,
}

impl MotionCapture {
    /// Builds the capture for `capture` from `input`: times in epoch milliseconds, the session
    /// duration (never negative), the frame's scores and size, and the frame as a JPEG at
    /// `snapshot_quality`. Fails when the JPEG encoder refuses the frame size.
    pub fn from_session_capture(
        input: &InputSource,
        capture: &MotionSessionCapture,
        snapshot_quality: u8,
    ) -> (r: Result<MotionCapture, OutputError>)
        requires
            frame_is_complete(&capture.frame),
        ensures
            r is Ok <==> (1 <= capture.frame.width <= 65535 && 1 <= capture.frame.height <= 65535),
            r matches Ok(c) ==> {
                &&& c.source@ == input.spec_value()
                &&& c.captured_at == capture.frame.captured_at
                &&& c.captured_at_epoch_ms == epoch_ms(capture.frame.captured_at)
                &&& c.motion_started_at == capture.motion_started_at
                &&& c.motion_started_at_epoch_ms == epoch_ms(capture.motion_started_at)
                &&& c.motion_ended_at == capture.motion_ended_at
                &&& c.motion_ended_at_epoch_ms == epoch_ms(capture.motion_ended_at)
                &&& c.motion_duration_ms == epoch_ms(capture.motion_ended_at).saturating_sub(
                    epoch_ms(capture.motion_started_at),
                )
                &&& c.frame_index == capture.frame.index
                &&& c.motion_started_frame_index == capture.motion_started_frame_index
                &&& c.motion_ended_frame_index == capture.motion_ended_frame_index
                &&& c.motion_ratio == capture.event.motion_ratio
                &&& c.local_motion_ratio == capture.event.local_motion_ratio
                &&& c.frame_width == capture.frame.width
                &&& c.frame_height == capture.frame.height
                &&& c.snapshot_jpeg@ == jpeg_rgb8(
                    capture.frame.rgb@,
                    capture.frame.width,
                    capture.frame.height,
                    snapshot_quality,
                )
                &&& c.snapshot_jpeg@.len() >= 2
                &&& c.snapshot_jpeg@[0] == 0xFF
                &&& c.snapshot_jpeg@[1] == 0xD8
            },
            r matches Err(e) ==> e is Snapshot,
    {
        let started_ms = epoch_millis(capture.motion_started_at);
        let ended_ms = epoch_millis(capture.motion_ended_at);
        let jpeg = match encode_snapshot_jpeg(&capture.frame, snapshot_quality) {
            Ok(bytes) => bytes,
            Err(error) => {
                return Err(OutputError::Snapshot(error));
            },
        };
        Ok(
            MotionCapture {
                source: input.display_value(),
                captured_at: capture.frame.captured_at,
                captured_at_epoch_ms: epoch_millis(capture.frame.captured_at),
                motion_started_at: capture.motion_started_at,
                motion_started_at_epoch_ms: started_ms,
                motion_ended_at: capture.motion_ended_at,
                motion_ended_at_epoch_ms: ended_ms,
                motion_duration_ms: ended_ms.saturating_sub(started_ms),
                frame_index: capture.frame.index,
                motion_started_frame_index: capture.motion_started_frame_index,
                motion_ended_frame_index: capture.motion_ended_frame_index,
                motion_ratio: capture.event.motion_ratio,
                local_motion_ratio: capture.event.local_motion_ratio,
                frame_width: capture.frame.width,
                frame_height: capture.frame.height,
                snapshot_jpeg: jpeg,
            },
        )
    }

    pub open spec fn spec_file_stem(&self) -> Seq<char> {
        "motion-"@ + utc_format(self.captured_at, "%Y%m%d-%H%M%S"@)
    }

    /// `motion-YYYYMMDD-HHMMSS`, from the capture time in UTC.
    pub fn file_stem(&self) -> (r: String)
        ensures
            r@ == self.spec_file_stem(),
    {
        let mut stem = "motion-".to_owned();
        stem.append(format_utc(self.captured_at, "%Y%m%d-%H%M%S").as_str());
        stem
    }

    /// The snapshot file name: the stem with `.jpg`.
    pub fn image_file_name(&self) -> (r: String)
        ensures
            r@ == self.spec_file_stem() + ".jpg"@,
    {
        let mut name = self.file_stem();
        name.append(".jpg");
        name
    }

    /// The metadata file name: the stem with `.toml`.
    pub fn metadata_file_name(&self) -> (r: String)
        ensures
            r@ == self.spec_file_stem() + ".toml"@,
    {
        let mut name = self.file_stem();
        name.append(".toml");
        name
    }

    /// The fields of the MQTT message, with the snapshot as Base64 text.
    pub fn mqtt_payload_fields(&self) -> (r: MqttMotionPayload)
        ensures
            r.source@ == self.source@,
            r.captured_at_epoch_ms == self.captured_at_epoch_ms,
            r.motion_started_at_epoch_ms == self.motion_started_at_epoch_ms,
            r.motion_ended_at_epoch_ms == self.motion_ended_at_epoch_ms,
            r.motion_duration_ms == self.motion_duration_ms,
            r.frame_index == self.frame_index,
            r.motion_started_frame_index == self.motion_started_frame_index,
            r.motion_ended_frame_index == self.motion_ended_frame_index,
            r.motion_ratio == self.motion_ratio,
            r.local_motion_ratio == self.local_motion_ratio,
            r.frame_width == self.frame_width,
            r.frame_height == self.frame_height,
            r.snapshot_jpeg_base64@ == base64_standard(self.snapshot_jpeg@),
    {
        MqttMotionPayload {
            source: self.source.clone(),
            captured_at_epoch_ms: self.captured_at_epoch_ms,
            motion_started_at_epoch_ms: self.motion_started_at_epoch_ms,
            motion_ended_at_epoch_ms: self.motion_ended_at_epoch_ms,
            motion_duration_ms: self.motion_duration_ms,
            frame_index: self.frame_index,
            motion_started_frame_index: self.motion_started_frame_index,
            motion_ended_frame_index: self.motion_ended_frame_index,
            motion_ratio: self.motion_ratio,
            local_motion_ratio: self.local_motion_ratio,
            frame_width: self.frame_width,
            frame_height: self.frame_height,
            snapshot_jpeg_base64: encode_base64(self.snapshot_jpeg.as_slice()),
        }
    }

    /// The fields of the metadata file written beside the snapshot.
    pub fn file_metadata(&self) -> (r: FileMotionMetadata)
        ensures
            r.source@ == self.source@,
            r.captured_at_epoch_ms == self.captured_at_epoch_ms,
            r.captured_at_rfc3339@ == utc_rfc3339(self.captured_at),
            r.motion_started_at_epoch_ms == self.motion_started_at_epoch_ms,
            r.motion_started_at_rfc3339@ == utc_rfc3339(self.motion_started_at),
            r.motion_ended_at_epoch_ms == self.motion_ended_at_epoch_ms,
            r.motion_ended_at_rfc3339@ == utc_rfc3339(self.motion_ended_at),
            r.motion_duration_ms == self.motion_duration_ms,
            r.frame_index == self.frame_index,
            r.motion_started_frame_index == self.motion_started_frame_index,
            r.motion_ended_frame_index == self.motion_ended_frame_index,
            r.motion_ratio == self.motion_ratio,
            r.local_motion_ratio == self.local_motion_ratio,
            r.frame_width == self.frame_width,
            r.frame_height == self.frame_height,
            r.snapshot_file@ == self.spec_file_stem() + ".jpg"@,
    {
        FileMotionMetadata {
            source: self.source.clone(),
            captured_at_epoch_ms: self.captured_at_epoch_ms,
            captured_at_rfc3339: format_rfc3339(self.captured_at),
            motion_started_at_epoch_ms: self.motion_started_at_epoch_ms,
            motion_started_at_rfc3339: format_rfc3339(self.motion_started_at),
            motion_ended_at_epoch_ms: self.motion_ended_at_epoch_ms,
            motion_ended_at_rfc3339: format_rfc3339(self.motion_ended_at),
            motion_duration_ms: self.motion_duration_ms,
            frame_index: self.frame_index,
            motion_started_frame_index: self.motion_started_frame_index,
            motion_ended_frame_index: self.motion_ended_frame_index,
            motion_ratio: self.motion_ratio,
            local_motion_ratio: self.local_motion_ratio,
            frame_width: self.frame_width,
            frame_height: self.frame_height,
            snapshot_file: self.image_file_name(),
        }
    }
}

/// The MQTT message, field by field.
#[derive(Debug)]
pub struct MqttMotionPayload {
    pub source: String,
    pub captured_at_epoch_ms: u64,
    pub motion_started_at_epoch_ms: u64,
    pub motion_ended_at_epoch_ms: u64,
    pub motion_duration_ms: u64,
    pub frame_index: u64,
    pub motion_started_frame_index: u64,
    pub motion_ended_frame_index: u64,
    pub motion_ratio: Ratio,
    pub local_motion_ratio: Ratio,
    pub frame_width: u32,
    pub frame_height: u32,
    pub snapshot_jpeg_base64: String,
}

/// The metadata file, field by field.
#[derive(Debug)]
pub struct FileMotionMetadata {
    pub source: String,
    pub captured_at_epoch_ms: u64,
    pub captured_at_rfc3339: String,
    pub motion_started_at_epoch_ms: u64,
    pub motion_started_at_rfc3339: String,
    pub motion_ended_at_epoch_ms: u64,
    pub motion_ended_at_rfc3339: String,
    pub motion_duration_ms: u64,
    pub frame_index: u64,
    pub motion_started_frame_index: u64,
    pub motion_ended_frame_index: u64,
    pub motion_ratio: Ratio,
    pub local_motion_ratio: Ratio,
    pub frame_width: u32,
    pub frame_height: u32,
    pub snapshot_file: String,
}

// ---------------------------------------------------------------------------------------------
// File output
// ---------------------------------------------------------------------------------------------

/// Places each capture's snapshot and metadata files in one directory. Creating the directory
/// and writing the files is left to the caller; this type decides the file locations.
pub struct FileOutputWriter {
    pub directory: String,
}

/// Where one capture's two files go.
#[derive(Debug)]
pub struct FileOutputPaths {
    pub image_path: String,
    pub metadata_path: String,
}

impl FileOutputWriter {
    pub fn new(directory: String) -> (r: FileOutputWriter)
        ensures
            r.directory@ == directory@,
    {
        FileOutputWriter { directory }
    }

    /// The snapshot path `<directory>/<stem>.jpg` and the metadata path
    /// `<directory>/<stem>.toml` for `capture`.
    pub fn output_paths(&self, capture: &MotionCapture) -> (r: FileOutputPaths)
        ensures
            r.image_path@ == join_path(self.directory@, capture.spec_file_stem() + ".jpg"@),
            r.metadata_path@ == join_path(self.directory@, capture.spec_file_stem() + ".toml"@),
    {
        let image_name = capture.image_file_name();
        let metadata_name = capture.metadata_file_name();
        FileOutputPaths {
            image_path: join_path_exec(self.directory.as_str(), image_name.as_str()),
            metadata_path: join_path_exec(self.directory.as_str(), metadata_name.as_str()),
        }
    }
}

} // verus!
