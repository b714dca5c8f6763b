//! Core of a newsletter delivery service: subscriber naming rules,
//! idempotent publishing, and a retrying fan-out delivery queue.

pub mod domain;
pub mod http;
pub mod delivery;
pub mod directory;
pub mod idempotency;
pub mod issues;
pub mod laws;
pub mod publisher;
pub mod worker;
