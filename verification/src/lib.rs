//! Incremental test re-runner support library.
//!
//! The library holds the logic of a wrapper around a test runner: a
//! line-by-line scanner that extracts failing test names from the runner's
//! output, a rolling hash that keys the failure cache file, the cache's
//! text codec and in-memory model, and the construction of the re-run
//! argument list. All I/O (process spawning, filesystem walks, the cache
//! file itself) lives outside the library and hands plain values in.

pub mod cache;
pub mod cmdline;
pub mod hashing;
pub mod locate;
pub mod scan;
pub mod text;

use vstd::prelude::*;

verus! {

} // verus!
