//! The error kinds that the streaming core surfaces.

use vstd::prelude::*;

verus! {

/// Every failure the core reports falls under one of these kinds.
#[derive(Debug)]
pub enum StreamError {
    /// A path did not resolve in its file provider.
    ResourceNotFound(String),
    /// A file extension outside the recognized audio set.
    UnsupportedFormat(String),
    /// The duration or size of a track could not be determined.
    ProbeFailure(String),
    /// Transient I/O from a read, write, or socket.
    IoError(String),
    /// A duplicate route, a missing referenced remote client, or malformed
    /// configuration.
    ConfigError(String),
    /// A cache record that cannot be read back or references a missing payload.
    CacheCorruption(String),
}

impl StreamError {
    /// The detail string carried by the error, whatever its kind.
    pub fn detail(&self) -> (r: &String)
        ensures
            r@ == self.spec_detail(),
    {
        match self {
            StreamError::ResourceNotFound(s) => s,
            StreamError::UnsupportedFormat(s) => s,
            StreamError::ProbeFailure(s) => s,
            StreamError::IoError(s) => s,
            StreamError::ConfigError(s) => s,
            StreamError::CacheCorruption(s) => s,
        }
    }

    /// The detail string, at the specification level.
    pub open spec fn spec_detail(&self) -> Seq<char> {
        match self {
            StreamError::ResourceNotFound(s) => s@,
            StreamError::UnsupportedFormat(s) => s@,
            StreamError::ProbeFailure(s) => s@,
            StreamError::IoError(s) => s@,
            StreamError::ConfigError(s) => s@,
            StreamError::CacheCorruption(s) => s@,
        }
    }
}

} // verus!
