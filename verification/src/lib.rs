//! Assignment of relay-chain availability cores to workloads.
//!
//! Two kinds of workloads share a bounded set of availability cores:
//! permanently registered chains ("indracores"), each with a dedicated core,
//! and time-multiplexed collator-submitted workloads ("indrabases") sharing a
//! pool of multiplexer cores through a claim queue. The active validator set
//! is partitioned into one group per core, and the group-to-core binding
//! rotates periodically. Every operation is a deterministic function of the
//! explicit scheduler state and its inputs.

pub mod fill;
pub mod groups;
pub mod hashing;
pub mod model;
pub mod queue;
pub mod rotation;
pub mod scheduler;
pub mod types;
