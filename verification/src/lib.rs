//! Test-support library for an event-driven ingestion pipeline
//! (message queue -> function -> key-value store).
//!
//! The library holds the verified core of the harness: the schema of the
//! three collections, the fixture record model, batching of writes and
//! deletes to the backend's 25-request limit, cursor-paginated erasure,
//! and the setup/reset lifecycle, all proved against an explicit model of
//! the store.  The surrounding process plumbing (containers, shared
//! clients, the real network calls) lives outside the library and drives
//! the same plan functions against the emulated backend.

use vstd::prelude::*;

pub mod batch;
pub mod generator;
pub mod item;
pub mod lifecycle;
pub mod record;
pub mod schema;
pub mod store;
pub mod text;
pub mod trusted;

verus! {

/// The backend accepts at most this many put or delete requests in one
/// batch call.
pub const MAX_BATCH_SIZE: usize = 25;

/// The well-known name of the function that consumes the write queue.
pub const LAMBDA_NAME: &'static str = "item_write_lambda";

/// The well-known name of the write queue.
pub const QUEUE_NAME: &'static str = "write_lambda_queue";

/// The well-known URL of the write queue on the emulated backend.
pub const QUEUE_URL: &'static str
    = "http://sqs.eu-central-1.localhost.localstack.cloud:4566/000000000000/write_lambda_queue";

} // verus!
