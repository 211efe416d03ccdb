use vstd::prelude::*;

verus! {

/// Errors that end the whole run: configuration, login, and source
/// resolution or expansion. Once a batch is running, per-item failures
/// are reported through `DlErrors` instead and never abort the batch.
#[derive(Debug, Clone, Copy, PartialEq, Eq, Structural)]
pub enum Errors {
    ConfigError,
    InvalidArguments,
    Login,
    InvalidPlaylist,
    SongNotFound,
}

/// Per-item outcomes of the download pipeline. `TrackExists` marks a
/// destination file that is already present: the item is skipped, and
/// this is never counted as a failure.
#[derive(Debug, Clone, Copy, PartialEq, Eq, Structural)]
pub enum DlErrors {
    TrackNotFound,
    TrackExists,
    TrackUnavailable,
    NoAudioFiles,
    NoEncryptedAudio,
    BufferWrite,
    Decrypting,
    NoKey,
}

} // verus!
