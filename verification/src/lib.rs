//! Producer-side client for a Redis-backed work queue using the Sidekiq job
//! format: job records, their canonical JSON serialization, the namespaced
//! store keys, the scheduling time arithmetic, and the atomic multi-command
//! plans that enqueue or schedule jobs.

pub mod calc;
pub mod client;
pub mod clock;
pub mod decode;
pub mod digits;
pub mod job;
pub mod json;
pub mod model;
pub mod proto;

pub use calc::{calc_at, SCHEDULE_THRESHOLD};
pub use client::{Client, ClientOpts};
pub use job::{Job, JobOpts};
pub use json::JsonValue;
pub use proto::{StoreCmd, Transaction};
