//! Verified core of a concurrent, range-based file downloader.
//!
//! Given the total size of a remote resource, the library plans contiguous
//! byte-range segments, drives one fetcher state machine per segment, and
//! folds the stream of fetcher events into a single-writer download state
//! machine that decides every positioned write and the terminal outcome.
//! Network and file I/O live outside the library; callers hand in sizes,
//! header bytes and read results, and get back events, write commands and
//! errors.

pub mod decimal;
pub mod errors;
pub mod events;
pub mod fetcher;
pub mod planner;
pub mod probe;
pub mod progress;
pub mod writer;
