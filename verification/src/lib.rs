//! Verified core of a page-transcription pipeline that streams chat
//! completions from a pool of Ollama-style inference servers.
//!
//! The library covers the logic of the tool: turning arbitrarily chunked
//! response bytes into discrete newline-delimited records, distributing
//! jobs over weighted endpoints by positional round robin, accumulating
//! streamed text under a token budget, and validating page ranges.
//! Network and file I/O live outside the library and hand it plain values.

pub mod args;
pub mod decoder;
pub mod dispatch;
pub mod job;
pub mod ollama;
pub mod pool;
pub mod record;

use vstd::prelude::*;

verus! {

/// A configuration fault detected before any job is launched: an invalid
/// page range or an empty endpoint pool.
#[derive(Debug, Clone, Copy, PartialEq, Eq, Structural)]
pub enum ConfigError {
    ZeroPageStart,
    PageEndBeforeStart,
    PageEndBeyondCount,
    EmptyPool,
}

} // verus!
