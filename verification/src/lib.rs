//! Core logic for a build-artifact cleanup scanner.
//!
//! The library decides everything the scanner has to decide: how a
//! human-supplied idle period is read, whether a directory is a cleanable
//! project that has been idle long enough, what the cleanup command's
//! textual summary means, and how per-project results fold into the final
//! totals. Directory walking, process spawning and terminal rendering are
//! left to the thin binary around this crate; they hand plain values in and
//! take plain values back.

pub mod detect;
pub mod duration;
pub mod engine;
pub mod output;
pub mod stats;
