//! Planning for batch media transformations.
//!
//! The library decides what an external media engine is asked to do: which
//! files are selected, where each result is written, the exact argument list
//! of every invocation, and whether the engine's diagnostics mean failure.
//! Running the engine and touching the file system is left to the caller.

pub mod classify;
pub mod cleanup_file_names;
pub mod cli;
pub mod invocation;
pub mod listing;
pub mod merge_videos;
pub mod paths;
pub mod pattern;
pub mod set_default_tracks;
pub mod split_audio;
pub mod text;
pub mod transcode_audio;
pub mod transcode_video;
