//! The audio capture and playback pipelines.
pub mod config;
pub mod play;
pub mod record;
