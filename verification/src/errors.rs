//! The error taxonomy of the core. Each variant carries no payload;
//! `message` gives the fixed human-readable text the host surfaces.

use vstd::prelude::*;

verus! {

#[derive(PartialEq, Eq, Structural, Clone, Copy, Debug)]
pub enum DownloadError {
    /// The external engine could not be located in any search location.
    BinaryNotFound,
    /// The located engine is not a regular executable file.
    BinaryNotExecutable,
    /// The operating system refused to spawn the engine.
    SpawnFailed,
    /// The persistence gateway reported a failure.
    StorageError,
    /// An engine stdout line was not a valid progress object (recovered
    /// silently: the line is dropped).
    MalformedEngineOutput,
    /// The engine exited successfully but the artifacts on disk
    /// contradict it.
    AssemblyVerificationFailed,
    /// An operation named a job id with no row.
    JobNotFound,
}

pub open spec fn spec_message(e: DownloadError) -> Seq<char> {
    match e {
        DownloadError::BinaryNotFound => "Go binary (api-wrapper) not found"@,
        DownloadError::BinaryNotExecutable => "Binary is not executable"@,
        DownloadError::SpawnFailed => "Failed to spawn process"@,
        DownloadError::StorageError => "Database error"@,
        DownloadError::MalformedEngineOutput => "Malformed engine output"@,
        DownloadError::AssemblyVerificationFailed =>
            "Download completed but file assembly failed. Chunk files remain unmerged."@,
        DownloadError::JobNotFound => "Download not found"@,
    }
}

impl DownloadError {
    /// The fixed text for this error.
    pub fn message(&self) -> (r: String)
        ensures
            r@ == spec_message(*self),
    {
        match self {
            DownloadError::BinaryNotFound => "Go binary (api-wrapper) not found".to_owned(),
            DownloadError::BinaryNotExecutable => "Binary is not executable".to_owned(),
            DownloadError::SpawnFailed => "Failed to spawn process".to_owned(),
            DownloadError::StorageError => "Database error".to_owned(),
            DownloadError::MalformedEngineOutput => "Malformed engine output".to_owned(),
            DownloadError::AssemblyVerificationFailed =>
                "Download completed but file assembly failed. Chunk files remain unmerged.".to_owned(),
            DownloadError::JobNotFound => "Download not found".to_owned(),
        }
    }
}

} // verus!
