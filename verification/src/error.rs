//! Error taxonomy of the dispatch engine.
//!
//! Configuration and input errors are fatal; per-request errors are routed
//! to the failure sink and never abort a run. The variants carry plain
//! values so that contracts can state exactly which error an input earns.

use vstd::prelude::*;

verus! {

/// Errors that can occur during batch processing.
#[derive(Debug)]
pub enum BlazeError {
    /// The input file could not be read.
    InputFileRead {
        /// Path of the file.
        path: String,
        /// Description of the underlying I/O failure.
        message: String,
    },
    /// An output file could not be written.
    OutputFileWrite {
        /// Path of the file.
        path: String,
        /// Description of the underlying I/O failure.
        message: String,
    },
    /// A line of the input was not valid JSON.
    JsonParse {
        /// One-based line number where parsing failed.
        line: usize,
        /// Description of the parse failure.
        message: String,
    },
    /// A record could not be serialized for output.
    JsonSerialize(String),
    /// The HTTP transport failed outside any single request.
    HttpRequest(String),
    /// No endpoints were configured.
    NoEndpoints,
    /// Every endpoint is unhealthy and still inside its cooldown.
    AllEndpointsUnhealthy,
    /// The configuration is invalid.
    InvalidConfig(String),
    /// A request timed out on every attempt.
    Timeout {
        /// Number of attempts made.
        attempts: u32,
    },
    /// An endpoint's rate limit was exceeded.
    RateLimitExceeded {
        /// URL of the endpoint.
        endpoint: String,
    },
    /// The endpoint answered with a body that could not be used.
    InvalidResponse {
        /// Description of what was invalid.
        message: String,
    },
    /// The endpoint answered with an error status.
    EndpointError {
        /// HTTP status code.
        status: u16,
        /// Response body, possibly truncated.
        body: String,
    },
}

} // verus!
