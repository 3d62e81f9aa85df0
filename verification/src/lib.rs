//! Batch-oriented request dispatch engine: a weighted load balancer with
//! health tracking, a per-endpoint concurrency gate, a retry/backoff state
//! machine, and the bookkeeping that couples them.
//!
//! The library holds the decision logic of the dispatcher. Transport
//! (HTTP, file and sink I/O, timers) is supplied by the caller, which hands
//! the library plain values: attempt outcomes, clock readings in
//! milliseconds, and input lines as bytes.

pub mod config;
pub mod endpoint;
pub mod error;
pub mod processor;
pub mod request;
pub mod retry;
pub mod tracker;

pub use config::{Args, Config, EndpointConfig, RequestConfig, RetryConfig};
pub use endpoint::{Endpoint, LoadBalancer};
pub use error::BlazeError;
pub use processor::{ProcessingResult, Processor};
pub use request::{ApiRequest, ApiResponse, ErrorResponse, RequestResult, ResponseMetadata};
pub use retry::{AttemptResult, NextStep, RetrySession};
pub use tracker::{StatsSnapshot, StatsTracker};
