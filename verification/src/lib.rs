//! A mutation fuzzer's decision logic, verified with Verus.
//!
//! The crate covers the parts of a byte-flipping fuzzer that compute rather
//! than perform: how a seed is corrupted, how an exit status is judged, how
//! the running statistics are kept, how a saved crash is attributed to the
//! seed it came from, and how the bytes responsible for it are singled out.
//! Files, child processes and threads belong to the caller.

pub mod corpus;
pub mod diff;
pub mod matching;
pub mod mutation;
pub mod rng;
pub mod isolation;
pub mod naming;
pub mod oracle;
pub mod telemetry;
