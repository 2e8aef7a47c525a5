//! The exporter's failure classes.

use vstd::prelude::*;

verus! {

/// One export attempt fails in exactly one of three ways: the shared
/// connection is unusable, a record could not be encoded, or a write to the
/// transport failed. Each variant carries a human-readable description of the
/// underlying cause. None of them is retried by the library: a failed batch is
/// abandoned and the error is handed to the caller.
#[derive(Debug, Clone, PartialEq, Eq)]
pub enum Error {
    ConnectionError(String),
    SerialisationError(String),
    IOError(String),
}

impl Error {
    /// The name under which this exporter reports its failures.
    pub fn exporter_name(&self) -> (r: &'static str)
        ensures
            r@ == "vsock-exporter"@,
    {
        "vsock-exporter"
    }

    /// The description carried by the error, whichever variant it is.
    pub fn description(self) -> (r: String)
        ensures
            self matches Error::ConnectionError(m) ==> r == m,
            self matches Error::SerialisationError(m) ==> r == m,
            self matches Error::IOError(m) ==> r == m,
    {
        match self {
            Error::ConnectionError(m) => m,
            Error::SerialisationError(m) => m,
            Error::IOError(m) => m,
        }
    }
}

/// An opaque error value naming the exporter; kept for callers that only need
/// a tagged description of a failure.
#[derive(Debug, Clone, PartialEq, Eq)]
pub struct VSockExporterError(pub String);

} // verus!
