//! A small line-search library: given a pattern of bytes and the lines of a
//! text, it finds every line that contains the pattern as a contiguous
//! substring (literal, case-sensitive), preserves the order of the lines,
//! and renders each match as `Match <index>: <line>` with a zero-based
//! match index.
//!
//! The matching, formatting and per-run bookkeeping are verified; reading a
//! file and writing to the standard streams stay outside the library.

pub mod matcher;
pub mod output;
pub mod runner;
