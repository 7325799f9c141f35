//! Core of a media-download manager: engine registry, stream prober,
//! progress watcher, throughput estimator and task queue, with the
//! process and network plumbing kept outside the library.

use vstd::prelude::*;

pub mod decode;
pub mod downloader;
pub mod json;
pub mod lux;
pub mod tasks;
pub mod text;
pub mod tool;
pub mod utils;
pub mod watch;
pub mod youget;
pub mod youtubedl;

verus! {

/// The error taxonomy of the library. Probing and invocation errors are
/// returned to the immediate caller; worker errors are terminal for one
/// task only.
#[derive(Clone, Copy, Debug, PartialEq, Eq, Structural)]
pub enum DownError {
    /// The engine name is not one of the registered engines.
    EngineNotFound,
    /// The probe process could not be run or exited before producing output.
    ProbeProcessFailed,
    /// The probe process succeeded but its output did not parse.
    MalformedProbeOutput,
    /// The download process could not be spawned.
    SpawnFailed,
    /// A channel read or write failed while a transfer was running.
    IoDuringTransfer,
    /// An operation named a task id that is not in the queue.
    NoSuchTask,
    /// A URL could not be parsed.
    BadUrl,
}

impl DownError {
    /// A short label for the error, for presentation layers.
    pub fn message(&self) -> (r: &'static str)
        ensures
            r@ == self.spec_message(),
    {
        match self {
            DownError::EngineNotFound => "engine is not supported",
            DownError::ProbeProcessFailed => "probe process failed",
            DownError::MalformedProbeOutput => "probe output did not parse",
            DownError::SpawnFailed => "download process failed to start",
            DownError::IoDuringTransfer => "i/o error during transfer",
            DownError::NoSuchTask => "no such task",
            DownError::BadUrl => "url did not parse",
        }
    }

    /// What `message` returns for each variant.
    pub open spec fn spec_message(self) -> Seq<char> {
        match self {
            DownError::EngineNotFound => "engine is not supported"@,
            DownError::ProbeProcessFailed => "probe process failed"@,
            DownError::MalformedProbeOutput => "probe output did not parse"@,
            DownError::SpawnFailed => "download process failed to start"@,
            DownError::IoDuringTransfer => "i/o error during transfer"@,
            DownError::NoSuchTask => "no such task"@,
            DownError::BadUrl => "url did not parse"@,
        }
    }
}

} // verus!
