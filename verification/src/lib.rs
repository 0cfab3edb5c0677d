//! Rewriting of JSONC files as plain, pretty-printed JSON.
//!
//! The `stripper` module removes `//` and `/* ... */` comments from a text
//! without touching the inside of double-quoted strings, and proves the laws
//! that the removal obeys.  The `pipeline` module parses the stripped text
//! as JSON and renders it again with a configurable indentation unit, and
//! decides which file extensions are rewritten at all.

pub mod pipeline;
pub mod stripper;
