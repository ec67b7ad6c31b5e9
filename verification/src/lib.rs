//! Bulk multi-pattern search over a corpus of compressed log files, with
//! durable, resumable progress.
//!
//! The crate holds the verified core: the per-group pattern matching model
//! (`pattern`), the per-file scanning and batching state (`scanner`), and the
//! checkpoint record with its merge protocol (`checkpoint`). File discovery,
//! decompression, sinks and the worker pool live outside and drive these
//! pieces through their contracts.

pub mod checkpoint;
pub mod errors;
pub mod pattern;
pub mod scanner;
