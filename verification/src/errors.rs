//! The per-request error taxonomy: everything a request can fail with, and
//! the HTTP status class each failure is answered with.  Failures are
//! recovered at the request boundary and converted to status responses;
//! none of them ends the process.  Only the startup-time negotiation
//! failure is fatal, and it never occurs mid-request.

use vstd::prelude::*;

verus! {

/// Everything a request can fail with.
#[derive(Clone, Copy, PartialEq, Eq, Structural, Debug)]
pub enum RequestError {
    /// The path is excluded by the sandbox policy.
    Forbidden,
    /// Nothing exists at the path inside the sandbox root.
    NotFound,
    /// The external compiler could not be started.
    CompilerLaunch,
    /// The external compiler exceeded its time budget.
    CompilerTimeout,
    /// The external compiler exited with a failure.
    CompilerExit,
    /// The compiler reported success but produced no artifact.
    MissingArtifact,
    /// A raw file could not be opened for streaming.
    UnreadableFile,
    /// A directory's children could not be enumerated.
    UnreadableDirectory,
}

/// The status each error is answered with: exclusion is 403 and leaks no
/// filesystem detail, absence is 404, a failure of the external compiler
/// is 502, and any other I/O failure is 500.
pub open spec fn status_of(e: RequestError) -> int {
    match e {
        RequestError::Forbidden => 403,
        RequestError::NotFound => 404,
        RequestError::CompilerLaunch => 502,
        RequestError::CompilerTimeout => 502,
        RequestError::CompilerExit => 502,
        RequestError::MissingArtifact => 502,
        RequestError::UnreadableFile => 500,
        RequestError::UnreadableDirectory => 500,
    }
}

/// Maps a request failure to its HTTP status code.
pub fn error_status(e: RequestError) -> (r: u16)
    ensures
        r as int == status_of(e),
{
    match e {
        RequestError::Forbidden => 403,
        RequestError::NotFound => 404,
        RequestError::CompilerLaunch => 502,
        RequestError::CompilerTimeout => 502,
        RequestError::CompilerExit => 502,
        RequestError::MissingArtifact => 502,
        RequestError::UnreadableFile => 500,
        RequestError::UnreadableDirectory => 500,
    }
}

} // verus!
