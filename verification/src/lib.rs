//! Attention queue, attention view leases and the client attention widget of a terminal
//! multiplexer, with their contracts.
use vstd::prelude::*;

pub mod seqs;
pub mod shell;
pub mod dock;
pub mod frame;
pub mod handoff;
pub mod laws;
pub mod lease;
pub mod lex;
pub mod pane_ids;
pub mod rebuild;
pub mod remote;
pub mod topology;

verus! {

/// The debounce delay, in milliseconds, before a queued attention entry is shown.
pub const ATTENTION_DEBOUNCE_MS: u64 = 300;

} // verus!
