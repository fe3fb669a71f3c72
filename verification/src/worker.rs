//! Decisions of the stream workers: how a reader's end is reported, and when an RTSP stream is
//! reconnected.
//!
//! The application runs ffmpeg, threads and sleeps; it asks these functions what to do next.

use vstd::prelude::*;
use crate::config::{InputSource, MotionDetectionConfig};
use crate::error::AppError;
use crate::ffmpeg::{StreamError, StreamSource};

verus! {

/// How the thread that reads frames from ffmpeg ended.
#[derive(Debug)]
pub enum ReaderOutcome {
    Completed,
    Failed(StreamError),
    Panicked,
}

/// The result of one streaming attempt, and whether the whole program should shut down.
/// A reader that failed because shutdown closed its channel ended normally; any other failure
/// after shutdown is reported without asking for shutdown again; a failure before shutdown, or
/// a panicked reader, asks for shutdown.
pub fn settle_reader_outcome(
    source: StreamSource,
    outcome: ReaderOutcome,
    shutdown_requested: bool,
) -> (r: (Result<(), AppError>, bool))
    ensures
        outcome is Completed ==> (r.0 is Ok && !r.1),
        outcome matches ReaderOutcome::Failed(e) ==> ({
            &&& (shutdown_requested && e is FrameChannelClosed) ==> (r.0 is Ok && !r.1)
            &&& (shutdown_requested && !(e is FrameChannelClosed)) ==> (r.0 == Err::<
                (),
                AppError,
            >(AppError::Stream(e)) && !r.1)
            &&& !shutdown_requested ==> (r.0 == Err::<(), AppError>(AppError::Stream(e)) && r.1)
        }),
        (outcome is Panicked && source == StreamSource::Detection) ==> (r.0 matches Err(
            AppError::DetectionStreamThread,
        ) && r.1),
        (outcome is Panicked && source == StreamSource::Output) ==> (r.0 matches Err(
            AppError::OutputStreamThread,
        ) && r.1),
{
    match outcome {
        ReaderOutcome::Completed => (Ok(()), false),
        ReaderOutcome::Failed(error) => {
            if shutdown_requested {
                match error {
                    StreamError::FrameChannelClosed => (Ok(()), false),
                    other => (Err(AppError::Stream(other)), false),
                }
            } else {
                (Err(AppError::Stream(error)), true)
            }
        },
        ReaderOutcome::Panicked => match source {
            StreamSource::Detection => (Err(AppError::DetectionStreamThread), true),
            StreamSource::Output => (Err(AppError::OutputStreamThread), true),
        },
    }
}

/// What a stream worker does after one streaming attempt.
#[derive(Debug)]
pub enum WorkerStep {
    /// Stop with this result.
    Finish(Result<(), AppError>),
    /// Ask the program to shut down, and stop with the retry-limit error.
    GiveUp { retries: u32 },
    /// Wait `delay_seconds` (or until shutdown), then stream again.
    Reconnect { retry: u32, delay_seconds: u64 },
}

/// The reconnect rule: files are streamed once; RTSP streams are retried after every end or
/// failure, up to `rtsp_max_retries` times, unless shutdown was requested.
pub struct ReconnectPolicy {
    is_rtsp: bool,
    max_retries: u32,
    delay_seconds: u64,
    retries: u32,
}

pub struct PolicyModel {
    pub is_rtsp: bool,
    pub max_retries: u32,
    pub delay_seconds: u64,
    pub retries: u32,
}

pub enum StepModel {
    Finish { ok: bool },
    GiveUp { retries: u32 },
    Reconnect { retry: u32, delay_seconds: u64 },
}

impl View for ReconnectPolicy {
    type V = PolicyModel;

    closed spec fn view(&self) -> PolicyModel {
        PolicyModel {
            is_rtsp: self.is_rtsp,
            max_retries: self.max_retries,
            delay_seconds: self.delay_seconds,
            retries: self.retries,
        }
    }
}

/// The policy's next step and state after an attempt that ended `ok` (or not), with shutdown
/// requested (or not).
pub open spec fn policy_step(p: PolicyModel, ok: bool, shutdown_requested: bool) -> (PolicyModel, StepModel) {
    if !p.is_rtsp {
        (p, StepModel::Finish { ok })
    } else if ok && shutdown_requested {
        (p, StepModel::Finish { ok: true })
    } else if p.retries >= p.max_retries {
        (p, StepModel::GiveUp { retries: p.retries })
    } else {
        let retries = (p.retries + 1) as u32;
        (
            PolicyModel { retries, ..p },
            StepModel::Reconnect { retry: retries, delay_seconds: p.delay_seconds },
        )
    }
}

impl WorkerStep {
    pub open spec fn model(&self) -> StepModel {
        match self {
            WorkerStep::Finish(result) => StepModel::Finish { ok: result is Ok },
            WorkerStep::GiveUp { retries } => StepModel::GiveUp { retries: *retries },
            WorkerStep::Reconnect { retry, delay_seconds } => StepModel::Reconnect {
                retry: *retry,
                delay_seconds: *delay_seconds,
            },
        }
    }
}

impl ReconnectPolicy {
    pub fn new(input: &InputSource, settings: &MotionDetectionConfig) -> (r: ReconnectPolicy)
        ensures
            r@ == (PolicyModel {
                is_rtsp: input is Rtsp,
                max_retries: settings.rtsp_max_retries,
                delay_seconds: settings.rtsp_retry_delay_seconds,
                retries: 0,
            }),
    {
        ReconnectPolicy {
            is_rtsp: input.is_rtsp(),
            max_retries: settings.rtsp_max_retries,
            delay_seconds: settings.rtsp_retry_delay_seconds,
            retries: 0,
        }
    }

    /// Whether to start another attempt: a file is always streamed; an RTSP stream is not
    /// reconnected once shutdown was requested.
    pub fn should_attempt(&self, shutdown_requested: bool) -> (r: bool)
        ensures
            r == !(self@.is_rtsp && shutdown_requested),
    {
        !(self.is_rtsp && shutdown_requested)
    }

    pub fn retries(&self) -> (r: u32)
        ensures
            r == self@.retries,
    {
        self.retries
    }

    /// Decides after an attempt: a file's result is final; an RTSP stream that ended after
    /// shutdown finishes; otherwise the stream is retried, or, once `rtsp_max_retries` retries
    /// have been made, given up. A failed RTSP attempt's own error is dropped in favour of the
    /// retry.
    pub fn after_stream(&mut self, result: Result<(), AppError>, shutdown_requested: bool) -> (r:
        WorkerStep)
        ensures
            (final(self)@, r.model()) == policy_step(old(self)@, result is Ok, shutdown_requested),
            r matches WorkerStep::Finish(x) ==> (!old(self)@.is_rtsp ==> x == result),
    {
        if !self.is_rtsp {
            return WorkerStep::Finish(result);
        }
        if result.is_ok() && shutdown_requested {
            return WorkerStep::Finish(Ok(()));
        }
        if self.retries >= self.max_retries {
            return WorkerStep::GiveUp { retries: self.retries };
        }
        self.retries = self.retries + 1;
        WorkerStep::Reconnect { retry: self.retries, delay_seconds: self.delay_seconds }
    }
}

/// Law: an RTSP stream is retried at most `rtsp_max_retries` times: the retry count never
/// passes the limit, each reconnect raises it by one, and the worker gives up only at the limit.
pub proof fn law_retries_are_bounded(p: PolicyModel, ok: bool, shutdown_requested: bool)
    requires
        p.retries <= p.max_retries,
    ensures
        ({
            let (q, step) = policy_step(p, ok, shutdown_requested);
            &&& q.retries <= q.max_retries
            &&& q.max_retries == p.max_retries
            &&& (step matches StepModel::Reconnect { retry, .. } ==> retry == p.retries + 1
                && q.retries == retry)
            &&& (step matches StepModel::GiveUp { retries } ==> retries == p.max_retries)
            &&& (!(step is Reconnect) ==> q == p)
        }),
{
}

} // verus!
