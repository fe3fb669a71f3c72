//! Configuration model: input sources, the `[motion_detection]` settings, their validation, and
//! the search for a configuration file.
//!
//! Reading the TOML file and parsing the command line happen in the application; this module
//! decides what those values mean.

use vstd::prelude::*;
use crate::text::{has_prefix, is_blank, is_white_space, str_has_prefix, str_is_blank};

verus! {

/// `std::io::Error`, carried inside configuration and stream errors.
#[verifier::external_type_specification]
#[verifier::external_body]
pub struct ExIoError(std::io::Error);

/// `toml::de::Error`, carried inside [`ConfigError::ParseConfigFile`].
#[verifier::external_type_specification]
#[verifier::external_body]
pub struct ExTomlDeError(toml::de::Error);

/// The bit pattern of an `f32` (`f32::to_bits`). Thresholds are kept in this form so that the
/// library can check them exactly without floating-point arithmetic.
pub type F32Bits = u32;

/// The bits of `1.0_f32`.
pub const ONE_F32_BITS: u32 = 0x3f80_0000;

/// For the `f32` with bit pattern `bits`: `0.0 < value <= 1.0`. Positive finite floats order like
/// their bit patterns, every negative value, `-0.0` and NaN have bit patterns outside
/// `1..=0x3f80_0000`, and `+0.0` has pattern `0`.
pub open spec fn in_unit_interval(bits: u32) -> bool {
    0 < bits && bits <= ONE_F32_BITS
}

/// Command-line arguments: `--input` and the optional `--config` path.
#[derive(Debug)]
pub struct Cli {
    pub input: String,
    pub config: Option<String>,
}

/// Where frames come from.
#[derive(Clone, Debug)]
pub enum InputSource {
    Rtsp(String),
    File(String),
}

/// Inputs with an `rtsp://` or `rtsps://` scheme are streams; everything else names a file.
pub open spec fn is_rtsp_url(raw: Seq<char>) -> bool {
    has_prefix(raw, "rtsp://"@) || has_prefix(raw, "rtsps://"@)
}

impl InputSource {
    /// The text that the source was given as.
    pub open spec fn spec_value(&self) -> Seq<char> {
        match self {
            InputSource::Rtsp(url) => url@,
            InputSource::File(path) => path@,
        }
    }

    /// Classifies `raw`, given whether a file exists at that path.
    pub fn classify(raw: &str, file_exists: bool) -> (r: Result<InputSource, ConfigError>)
        ensures
            is_rtsp_url(raw@) ==> (r matches Ok(InputSource::Rtsp(u)) && u@ == raw@),
            !is_rtsp_url(raw@) && file_exists ==> (r matches Ok(InputSource::File(p)) && p@
                == raw@),
            !is_rtsp_url(raw@) && !file_exists ==> (r matches Err(ConfigError::InputFileNotFound(p))
                && p@ == raw@),
    {
        if str_has_prefix(raw, "rtsp://") || str_has_prefix(raw, "rtsps://") {
            return Ok(InputSource::Rtsp(raw.to_owned()));
        }
        if !file_exists {
            return Err(ConfigError::InputFileNotFound(raw.to_owned()));
        }
        Ok(InputSource::File(raw.to_owned()))
    }

    /// Parses the `--input` value: RTSP URLs are kept as they are; any other value must name an
    /// existing path.
    pub fn parse(raw: &str) -> (r: Result<InputSource, ConfigError>)
        ensures
            is_rtsp_url(raw@) ==> (r matches Ok(InputSource::Rtsp(u)) && u@ == raw@),
            !is_rtsp_url(raw@) ==> ((r matches Ok(InputSource::File(p)) && p@ == raw@) || (
            r matches Err(ConfigError::InputFileNotFound(p)) && p@ == raw@)),
    {
        if str_has_prefix(raw, "rtsp://") || str_has_prefix(raw, "rtsps://") {
            return InputSource::classify(raw, false);
        }
        let exists = path_exists(raw);
        InputSource::classify(raw, exists)
    }

    /// The URL or path, as given.
    pub fn display_value(&self) -> (r: String)
        ensures
            r@ == self.spec_value(),
    {
        match self {
            InputSource::Rtsp(url) => url.clone(),
            InputSource::File(path) => path.clone(),
        }
    }

    pub fn is_rtsp(&self) -> (r: bool)
        ensures
            r == (self is Rtsp),
    {
        match self {
            InputSource::Rtsp(_) => true,
            InputSource::File(_) => false,
        }
    }
}

/// `std::path::Path::exists`: whether the file system holds something at `path`. The answer
/// depends on the disk at the moment of the call, so nothing is stated about it.
#[verifier::external_body]
fn path_exists(path: &str) -> bool {
    std::path::Path::new(path).exists()
}

/// `std::path::Path::is_file`: whether `path` names a regular file at the moment of the call.
/// Nothing is stated about the answer.
#[verifier::external_body]
fn path_is_file(path: &str) -> bool {
    std::path::Path::new(path).is_file()
}

/// Errors found while assembling the configuration.
#[derive(Debug)]
pub enum ConfigError {
    InputFileNotFound(String),
    ReadConfigFile { path: String, source: std::io::Error },
    ParseConfigFile { path: String, source: toml::de::Error },
    InvalidValue(&'static str),
    DefaultConfigNotFound { searched: Vec<String> },
}


/// `PathBuf::join` on Unix for a relative `rel`: the parts are joined with one `/` unless `base` is
/// empty or already ends with `/`.
pub open spec fn join_path(base: Seq<char>, rel: Seq<char>) -> Seq<char> {
    if base.len() == 0 || base.last() == '/' {
        base + rel
    } else {
        base + "/"@ + rel
    }
}

/// The text of an optional string.
pub open spec fn option_view(o: &Option<String>) -> Option<Seq<char>> {
    match o {
        Some(s) => Some(s@),
        None => None,
    }
}

/// The default configuration locations, in the order they are searched.
pub open spec fn default_candidates(home: Option<Seq<char>>) -> Seq<Seq<char>> {
    match home {
        Some(h) => seq![
            join_path(h, ".config/camwatch/camwatch.toml"@),
            join_path(h, ".config/camwatch.toml"@),
            "/etc/camwatch.toml"@,
        ],
        None => seq!["/etc/camwatch.toml"@],
    }
}

pub(crate) fn join_path_exec(base: &str, rel: &str) -> (r: String)
    ensures
        r@ == join_path(base@, rel@),
{
    let n = base.unicode_len();
    let mut out = base.to_owned();
    if n == 0 || base.get_char(n - 1) == '/' {
        out.append(rel);
    } else {
        proof {
            reveal_strlit("/");
        }
        out.append("/");
        out.append(rel);
    }
    out
}

/// The configuration files searched when `--config` is absent: two under `$HOME/.config`
/// (when `HOME` is known), then `/etc/camwatch.toml`.
pub fn default_config_candidates(home_dir: Option<&str>) -> (r: Vec<String>)
    ensures
        r.deep_view() == default_candidates(
            match home_dir {
                Some(h) => Some(h@),
                None => None,
            },
        ),
{
    let mut candidates: Vec<String> = Vec::new();
    match home_dir {
        Some(home) => {
            candidates.push(join_path_exec(home, ".config/camwatch/camwatch.toml"));
            candidates.push(join_path_exec(home, ".config/camwatch.toml"));
        },
        None => {},
    }
    candidates.push("/etc/camwatch.toml".to_owned());
    let ghost home_view = match home_dir {
        Some(h) => Some(h@),
        None => None::<Seq<char>>,
    };
    assert(candidates.deep_view() =~= default_candidates(home_view));
    candidates
}

/// Chooses the configuration path: the `--config` value when given, else the first candidate
/// whose `present` flag is set; with none set, the error lists every candidate searched.
pub fn pick_config_path(
    cli_path: Option<String>,
    candidates: Vec<String>,
    present: &Vec<bool>,
) -> (r: Result<String, ConfigError>)
    requires
        present.len() == candidates.len(),
    ensures
        cli_path matches Some(p) ==> (r matches Ok(q) && q@ == p@),
        cli_path is None ==> {
            &&& (r matches Ok(c) ==> exists|i: int|
                0 <= i < candidates.len() && present[i] && (forall|j: int| 0 <= j < i ==> !present[j])
                    && c@ == #[trigger] candidates@[i]@)
            &&& (r is Err <==> forall|i: int| 0 <= i < present.len() ==> !present[i])
            &&& (r matches Err(e) ==> (e matches ConfigError::DefaultConfigNotFound { searched }
                && searched.deep_view() == candidates.deep_view()))
        },
{
    if cli_path.is_some() {
        return Ok(cli_path.unwrap());
    }
    let mut i: usize = 0;
    while i < candidates.len()
        invariant
            cli_path is None,
            present.len() == candidates.len(),
            i <= candidates.len(),
            forall|j: int| 0 <= j < i ==> !present[j],
        decreases candidates.len() - i,
    {
        if present[i] {
            let found = candidates[i].clone();
            assert(candidates@[i as int]@ == found@);
            return Ok(found);
        }
        i = i + 1;
    }
    Err(ConfigError::DefaultConfigNotFound { searched: candidates })
}

/// Resolves the configuration path, looking at the file system for each default candidate when
/// `--config` is absent. Which candidate is found depends on the disk; the result is always the
/// `--config` value, one of the default candidates, or the error listing all of them.
pub fn resolve_config_path_with_home(cli_path: Option<String>, home_dir: Option<String>) -> (r:
    Result<String, ConfigError>)
    ensures
        cli_path matches Some(p) ==> (r matches Ok(q) && q@ == p@),
        cli_path is None ==> {
            let expected = default_candidates(option_view(&home_dir));
            &&& (r matches Ok(c) ==> exists|i: int| 0 <= i < expected.len() && c@ == expected[i])
            &&& (r matches Err(e) ==> (e matches ConfigError::DefaultConfigNotFound { searched }
                && searched.deep_view() == expected))
        },
{
    if cli_path.is_some() {
        let present: Vec<bool> = Vec::new();
        return pick_config_path(cli_path, Vec::new(), &present);
    }
    let ghost expected = default_candidates(option_view(&home_dir));
    let candidates = match &home_dir {
        Some(home) => default_config_candidates(Some(home.as_str())),
        None => default_config_candidates(None),
    };
    assert(candidates.deep_view() == expected);
    let mut present: Vec<bool> = Vec::new();
    let mut i: usize = 0;
    while i < candidates.len()
        invariant
            i <= candidates.len(),
            present.len() == i,
        decreases candidates.len() - i,
    {
        present.push(path_is_file(candidates[i].as_str()));
        i = i + 1;
    }
    let r = pick_config_path(None, candidates, &present);
    proof {
        if r is Ok {
            let c = r->Ok_0;
            let k = choose|k: int| 0 <= k < candidates.len() && present[k] && (forall|j: int| 0 <= j < k ==> !present[j])
                    && c@ == #[trigger] candidates@[k]@;
            assert(candidates.deep_view()[k] == candidates@[k]@);
        }
        if r is Err {
            assert(candidates.deep_view() == expected);
        }
    }
    r
}

/// The searched paths joined by `", "`, as the missing-configuration message shows them.
pub open spec fn join_with_comma(paths: Seq<Seq<char>>) -> Seq<char>
    decreases paths.len(),
{
    if paths.len() == 0 {
        Seq::empty()
    } else if paths.len() == 1 {
        paths[0]
    } else {
        join_with_comma(paths.drop_last()) + ", "@ + paths.last()
    }
}

pub fn format_searched_paths(paths: &Vec<String>) -> (r: String)
    ensures
        r@ == join_with_comma(paths.deep_view()),
{
    let mut out = String::new();
    let mut i: usize = 0;
    while i < paths.len()
        invariant
            i <= paths.len(),
            out@ == join_with_comma(paths.deep_view().take(i as int)),
        decreases paths.len() - i,
    {
        assert(paths.deep_view().take(i + 1).drop_last() =~= paths.deep_view().take(i as int));
        if i > 0 {
            out.append(", ");
        }
        out.append(paths[i].as_str());
        i = i + 1;
    }
    assert(paths.deep_view().take(paths.len() as int) =~= paths.deep_view());
    out
}


/// How ffmpeg carries RTSP.
#[derive(Clone, Copy, Debug, PartialEq, Eq, Structural)]
pub enum RtspTransport {
    Tcp,
    Udp,
}

impl Default for RtspTransport {
    fn default() -> (r: RtspTransport)
        ensures
            r == RtspTransport::Tcp,
    {
        RtspTransport::Tcp
    }
}

impl RtspTransport {
    pub open spec fn spec_ffmpeg_value(self) -> Seq<char> {
        match self {
            RtspTransport::Tcp => "tcp"@,
            RtspTransport::Udp => "udp"@,
        }
    }

    /// The value of ffmpeg's `-rtsp_transport` option.
    pub fn as_ffmpeg_value(self) -> (r: &'static str)
        ensures
            r@ == self.spec_ffmpeg_value(),
    {
        match self {
            RtspTransport::Tcp => "tcp",
            RtspTransport::Udp => "udp",
        }
    }
}

/// The `[motion_detection]` settings. Fractional settings hold the bit pattern of their `f32`
/// value (see [`F32Bits`]).
#[derive(Clone, Debug)]
pub struct MotionDetectionConfig {
    pub frame_width: u32,
    pub frame_height: u32,
    pub output_frame_width: Option<u32>,
    pub output_frame_height: Option<u32>,
    pub frame_rate: u32,
    pub pixel_difference_threshold: u8,
    pub motion_ratio_threshold: F32Bits,
    pub local_motion_ratio_threshold: F32Bits,
    pub local_motion_consecutive_frames: u32,
    pub motion_end_grace_seconds: u64,
    pub motion_snapshot_delay_seconds: u64,
    pub long_motion_snapshot_interval_seconds: u64,
    pub background_alpha: F32Bits,
    pub event_cooldown_seconds: u64,
    pub snapshot_jpeg_quality: u8,
    pub output_directory: Option<String>,
    pub mqtt_host: String,
    pub mqtt_port: u16,
    pub mqtt_topic: String,
    pub mqtt_client_id: String,
    pub mqtt_username: Option<String>,
    pub mqtt_password: Option<String>,
    pub mqtt_qos: u8,
    pub mqtt_keep_alive_seconds: u64,
    pub rtsp_transport: RtspTransport,
    pub rtsp_retry_delay_seconds: u64,
    pub rtsp_max_retries: u32,
}

impl MotionDetectionConfig {
    /// Every setting at the value documented for an empty `[motion_detection]` table.
    pub open spec fn is_documented_default(&self) -> bool {
        &&& self.frame_width == 320
        &&& self.frame_height == 180
        &&& self.output_frame_width is None
        &&& self.output_frame_height is None
        &&& self.frame_rate == 5
        &&& self.pixel_difference_threshold == 20
        &&& self.motion_ratio_threshold == 0x3c75_c28fu32  // 0.015
        &&& self.local_motion_ratio_threshold == 0x3dc2_8f5cu32  // 0.095
        &&& self.local_motion_consecutive_frames == 4
        &&& self.motion_end_grace_seconds == 1
        &&& self.motion_snapshot_delay_seconds == 5
        &&& self.long_motion_snapshot_interval_seconds == 30
        &&& self.background_alpha == 0x3da3_d70au32  // 0.08
        &&& self.event_cooldown_seconds == 10
        &&& self.snapshot_jpeg_quality == 80
        &&& self.output_directory is None
        &&& self.mqtt_host@ == "127.0.0.1"@
        &&& self.mqtt_port == 1883
        &&& self.mqtt_topic@ == "camwatch/motion"@
        &&& self.mqtt_client_id@ == "camwatch-motion-detection"@
        &&& self.mqtt_username is None
        &&& self.mqtt_password is None
        &&& self.mqtt_qos == 1
        &&& self.mqtt_keep_alive_seconds == 30
        &&& self.rtsp_transport == RtspTransport::Tcp
        &&& self.rtsp_retry_delay_seconds == 5
        &&& self.rtsp_max_retries == 12
    }
}

impl Default for MotionDetectionConfig {
    /// The documented defaults.
    fn default() -> (r: MotionDetectionConfig)
        ensures
            r.is_documented_default(),
    {
        MotionDetectionConfig {
            frame_width: 320,
            frame_height: 180,
            output_frame_width: None,
            output_frame_height: None,
            frame_rate: 5,
            pixel_difference_threshold: 20,
            motion_ratio_threshold: 0x3c75_c28f,
            local_motion_ratio_threshold: 0x3dc2_8f5c,
            local_motion_consecutive_frames: 4,
            motion_end_grace_seconds: 1,
            motion_snapshot_delay_seconds: 5,
            long_motion_snapshot_interval_seconds: 30,
            background_alpha: 0x3da3_d70a,
            event_cooldown_seconds: 10,
            snapshot_jpeg_quality: 80,
            output_directory: None,
            mqtt_host: "127.0.0.1".to_owned(),
            mqtt_port: 1883,
            mqtt_topic: "camwatch/motion".to_owned(),
            mqtt_client_id: "camwatch-motion-detection".to_owned(),
            mqtt_username: None,
            mqtt_password: None,
            mqtt_qos: 1,
            mqtt_keep_alive_seconds: 30,
            rtsp_transport: RtspTransport::Tcp,
            rtsp_retry_delay_seconds: 5,
            rtsp_max_retries: 12,
        }
    }
}

impl MotionDetectionConfig {
    /// MQTT publishing is on when both the host and the topic hold more than white space.
    pub open spec fn spec_mqtt_enabled(&self) -> bool {
        !is_blank(self.mqtt_host@) && !is_blank(self.mqtt_topic@)
    }

    /// File output is on when `output_directory` names a non-empty path.
    pub open spec fn spec_file_output_enabled(&self) -> bool {
        self.output_directory matches Some(d) && d@.len() > 0
    }

    /// The message of the first setting that fails validation, in the order they are checked.
    pub open spec fn first_violation(&self) -> Option<Seq<char>> {
        if self.frame_width == 0 {
            Some("frame_width must be greater than 0"@)
        } else if self.frame_height == 0 {
            Some("frame_height must be greater than 0"@)
        } else if self.output_frame_width is Some != self.output_frame_height is Some {
            Some("output_frame_width and output_frame_height must both be set or both be omitted"@)
        } else if self.frame_rate == 0 {
            Some("frame_rate must be greater than 0"@)
        } else if !in_unit_interval(self.motion_ratio_threshold) {
            Some("motion_ratio_threshold must be between 0.0 and 1.0"@)
        } else if !in_unit_interval(self.local_motion_ratio_threshold) {
            Some("local_motion_ratio_threshold must be between 0.0 and 1.0"@)
        } else if self.local_motion_consecutive_frames == 0 {
            Some("local_motion_consecutive_frames must be greater than 0"@)
        } else if !in_unit_interval(self.background_alpha) {
            Some("background_alpha must be between 0.0 and 1.0"@)
        } else if self.snapshot_jpeg_quality == 0 || self.snapshot_jpeg_quality > 100 {
            Some("snapshot_jpeg_quality must be between 1 and 100"@)
        } else if !self.spec_mqtt_enabled() && !self.spec_file_output_enabled() {
            Some("at least one output must be configured: mqtt_host and mqtt_topic, or output_directory"@)
        } else if is_blank(self.mqtt_client_id@) {
            Some("mqtt_client_id must not be empty"@)
        } else if self.mqtt_qos > 2 {
            Some("mqtt_qos must be 0, 1, or 2"@)
        } else if self.mqtt_keep_alive_seconds == 0 {
            Some("mqtt_keep_alive_seconds must be greater than 0"@)
        } else if self.rtsp_retry_delay_seconds == 0 {
            Some("rtsp_retry_delay_seconds must be greater than 0"@)
        } else {
            None
        }
    }

    /// The settings pass every check of [`MotionDetectionConfig::validate`].
    pub open spec fn is_valid(&self) -> bool {
        self.first_violation() is None
    }

    pub fn mqtt_enabled(&self) -> (r: bool)
        ensures
            r == self.spec_mqtt_enabled(),
    {
        !str_is_blank(self.mqtt_host.as_str()) && !str_is_blank(self.mqtt_topic.as_str())
    }

    pub fn file_output_enabled(&self) -> (r: bool)
        ensures
            r == self.spec_file_output_enabled(),
    {
        match &self.output_directory {
            Some(directory) => directory.as_str().unicode_len() > 0,
            None => false,
        }
    }

    /// Checks the settings once at startup: they come back unchanged when every check passes,
    /// and otherwise the first failing check names itself.
    pub fn validate(self) -> (r: Result<MotionDetectionConfig, ConfigError>)
        ensures
            self.first_violation() is None ==> (r matches Ok(c) && c == self),
            self.first_violation() matches Some(message) ==> (r matches Err(
                ConfigError::InvalidValue(m),
            ) && m@ == message),
    {
        if self.frame_width == 0 {
            return Err(ConfigError::InvalidValue("frame_width must be greater than 0"));
        }
        if self.frame_height == 0 {
            return Err(ConfigError::InvalidValue("frame_height must be greater than 0"));
        }
        if self.output_frame_width.is_some() != self.output_frame_height.is_some() {
            return Err(
                ConfigError::InvalidValue(
                    "output_frame_width and output_frame_height must both be set or both be omitted",
                ),
            );
        }
        if self.frame_rate == 0 {
            return Err(ConfigError::InvalidValue("frame_rate must be greater than 0"));
        }
        if !(0 < self.motion_ratio_threshold && self.motion_ratio_threshold <= ONE_F32_BITS) {
            return Err(
                ConfigError::InvalidValue("motion_ratio_threshold must be between 0.0 and 1.0"),
            );
        }
        if !(0 < self.local_motion_ratio_threshold && self.local_motion_ratio_threshold
            <= ONE_F32_BITS) {
            return Err(
                ConfigError::InvalidValue(
                    "local_motion_ratio_threshold must be between 0.0 and 1.0",
                ),
            );
        }
        if self.local_motion_consecutive_frames == 0 {
            return Err(
                ConfigError::InvalidValue("local_motion_consecutive_frames must be greater than 0"),
            );
        }
        if !(0 < self.background_alpha && self.background_alpha <= ONE_F32_BITS) {
            return Err(ConfigError::InvalidValue("background_alpha must be between 0.0 and 1.0"));
        }
        if self.snapshot_jpeg_quality == 0 || self.snapshot_jpeg_quality > 100 {
            return Err(ConfigError::InvalidValue("snapshot_jpeg_quality must be between 1 and 100"));
        }
        if !self.mqtt_enabled() && !self.file_output_enabled() {
            return Err(
                ConfigError::InvalidValue(
                    "at least one output must be configured: mqtt_host and mqtt_topic, or output_directory",
                ),
            );
        }
        if str_is_blank(self.mqtt_client_id.as_str()) {
            return Err(ConfigError::InvalidValue("mqtt_client_id must not be empty"));
        }
        if self.mqtt_qos > 2 {
            return Err(ConfigError::InvalidValue("mqtt_qos must be 0, 1, or 2"));
        }
        if self.mqtt_keep_alive_seconds == 0 {
            return Err(ConfigError::InvalidValue("mqtt_keep_alive_seconds must be greater than 0"));
        }
        if self.rtsp_retry_delay_seconds == 0 {
            return Err(ConfigError::InvalidValue("rtsp_retry_delay_seconds must be greater than 0"));
        }
        Ok(self)
    }
}

/// The documented defaults pass validation: an empty `[motion_detection]` table is a working
/// configuration that publishes to MQTT.
pub proof fn law_defaults_are_valid(config: MotionDetectionConfig)
    requires
        config.is_documented_default(),
    ensures
        config.is_valid(),
        config.spec_mqtt_enabled(),
{
    reveal_strlit("127.0.0.1");
    reveal_strlit("camwatch/motion");
    reveal_strlit("camwatch-motion-detection");
    assert(!is_white_space(config.mqtt_host@[0]));
    assert(!is_white_space(config.mqtt_topic@[0]));
    assert(!is_white_space(config.mqtt_client_id@[0]));
}

/// Law: the settings pass validation exactly when every documented rule holds: positive
/// analysis size, frame rate, local run length, keep-alive and retry delay; both output sizes or
/// neither; the three fractions in `(0, 1]`; JPEG quality from 1 to 100; MQTT (host and topic
/// not blank) or a non-empty output directory; a client id that is not blank; QoS 0, 1 or 2.
pub proof fn law_validation_accepts_exactly_the_documented_settings(c: MotionDetectionConfig)
    ensures
        c.is_valid() <==> {
            &&& c.frame_width > 0
            &&& c.frame_height > 0
            &&& (c.output_frame_width is Some <==> c.output_frame_height is Some)
            &&& c.frame_rate > 0
            &&& 0 < c.motion_ratio_threshold <= ONE_F32_BITS
            &&& 0 < c.local_motion_ratio_threshold <= ONE_F32_BITS
            &&& c.local_motion_consecutive_frames > 0
            &&& 0 < c.background_alpha <= ONE_F32_BITS
            &&& 1 <= c.snapshot_jpeg_quality <= 100
            &&& ((!is_blank(c.mqtt_host@) && !is_blank(c.mqtt_topic@)) || (c.output_directory
                matches Some(d) && d@.len() > 0))
            &&& !is_blank(c.mqtt_client_id@)
            &&& c.mqtt_qos <= 2
            &&& c.mqtt_keep_alive_seconds > 0
            &&& c.rtsp_retry_delay_seconds > 0
        },
{
}

/// Law: the MQTT QoS setting is accepted exactly at the levels 0, 1 and 2 that MQTT defines:
/// with every other setting valid, the settings pass validation exactly when `mqtt_qos <= 2`,
/// and a higher level is refused with the QoS message.
pub proof fn law_qos_levels_zero_to_two_are_accepted(config: MotionDetectionConfig, qos: u8)
    requires
        config.is_valid(),
    ensures
        (MotionDetectionConfig { mqtt_qos: qos, ..config }).is_valid() <==> qos <= 2,
        qos > 2 ==> (MotionDetectionConfig { mqtt_qos: qos, ..config }).first_violation() == Some(
            "mqtt_qos must be 0, 1, or 2"@,
        ),
{
}

/// The command line, the resolved configuration path and the validated settings.
#[derive(Clone, Debug)]
pub struct AppConfig {
    pub input: InputSource,
    pub config_path: String,
    pub motion_detection: MotionDetectionConfig,
}

} // verus!
