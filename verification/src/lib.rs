//! Motion detection for RTSP streams and video files.
//!
//! The library holds the logic of the detector: configuration checking, ffmpeg argument
//! construction, grayscale sampling and tile scoring, the motion session state machine that picks
//! representative snapshots, and the bookkeeping that pairs selected frames with full-resolution
//! output frames. The program around it (process spawning, threads, MQTT and file writing) lives in
//! the application crate.

pub mod benchmark;
pub mod config;
pub mod error;
pub mod ffmpeg;
pub mod motion;
pub mod mqtt;
pub mod output;
pub mod processor;
pub mod processor_laws;
pub mod session;
pub mod session_bounds;
pub mod session_history;
pub mod session_laws;
pub mod session_runs;
pub mod text;
pub mod worker;
