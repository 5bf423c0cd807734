//! Block-discovery reconciliation and dispatch coordination.
//!
//! Two independent watchers (a push subscription and a polling loop) observe
//! block-number advancement on a chain and report possibly duplicate,
//! possibly skewed events. This library merges those reports into a single
//! deduplicated trigger stream, decides under a global budget which blocks
//! cause a transaction dispatch, hands each dispatch a distinct monotonically
//! increasing nonce, measures the discovery skew between the two watchers,
//! and aggregates per-dispatch latencies into summary statistics.
//!
//! All network transport (subscribing, polling, submitting transactions)
//! lives outside this crate; the library works on plain block numbers and
//! timestamps handed in by the caller.

pub mod discovery;
pub mod engine;
pub mod event;
pub mod nonce;
pub mod stats;
