//! A recursive keyword and pattern search library: a minimal grep engine.
//!
//! The scanning core matches lines of text against literal keywords and
//! regular expressions, counts matches, falls back to a printable-run scan
//! for non-text content, and winds down promptly when a cancellation flag
//! is raised.  Directory traversal and all file I/O live with the caller,
//! which hands each candidate file to the scanner as plain values.

pub mod args;
pub mod cancel;
pub mod laws;
pub mod matcher;
pub mod pattern;
pub mod report;
pub mod scan;
pub mod style;
pub mod text;
pub mod walk;
pub mod writer;
