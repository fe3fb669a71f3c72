//! The error type of the program as a whole.

use vstd::prelude::*;
use crate::config::ConfigError;
use crate::ffmpeg::StreamError;
use crate::mqtt::MqttError;
use crate::output::OutputError;

verus! {

/// `ctrlc::Error`, raised when the interrupt handler cannot be installed.
#[verifier::external_type_specification]
#[verifier::external_body]
pub struct ExCtrlcError(ctrlc::Error);

#[derive(Debug)]
pub enum AppError {
    Config(ConfigError),
    Stream(StreamError),
    Mqtt(MqttError),
    Output(OutputError),
    Io(std::io::Error),
    CtrlC(ctrlc::Error),
    DetectionStreamThread,
    OutputStreamThread,
    ProcessingThread,
    MqttPublishThread,
    MqttEventThread,
    RetryLimitReached { retries: u32 },
}

} // verus!
