//! The operations that the tool offers, with their parameters.

use vstd::prelude::*;

verus! {

/// One call of the tool.
pub struct Cli {
    pub command: Commands,
}

/// The operations and their parameters. Paths are plain strings.
pub enum Commands {
    /// Removes bracketed annotations from the names of a tree.
    CleanupFileNames { path: String },
    /// Transcodes the audio files of a tree, keeping their metadata.
    TranscodeAudio {
        src_path: String,
        src_container: String,
        dest_path: String,
        bitrate: String,
        codec: String,
        container: String,
        overwrite: bool,
        qffmpeg: bool,
    },
    /// Transcodes the video files of a directory to AV1.
    TranscodeVideoAV1 {
        src_path: String,
        dest_path: String,
        preset: u8,
        crf: u8,
        keyframe_interval: u16,
        force_10bit: bool,
        overwrite: bool,
        qffmpeg: bool,
    },
    /// Merges the streams of one file with the metadata of another, for
    /// the files of two directories.
    MergeVideos {
        base_path: String,
        content_path: String,
        dest_path: String,
        video_from_base: bool,
        audio_from_base: bool,
        use_content_names: bool,
        overwrite: bool,
        qffmpeg: bool,
    },
    /// Sets the default audio and subtitle tracks of the video files of a
    /// directory.
    SetDefaultTracks {
        base_path: String,
        dest_path: String,
        audio_stream: u8,
        subtitle_stream: u8,
        overwrite: bool,
        qffmpeg: bool,
    },
    /// Splits an audio file into tracks at listed start times.
    SplitAudio {
        src_file: String,
        dest_path: String,
        timestamps_file: String,
        artist: Option<String>,
        album: Option<String>,
        date: Option<String>,
        overwrite: bool,
        qffmpeg: bool,
    },
}

} // verus!
