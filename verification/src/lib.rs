//! Verified core of a streaming base-backup capture pipeline.
//!
//! The library holds the logic of a single-pass capture of a live,
//! unseekable archive byte stream: a tee that fans the stream out to a
//! persistence path and a label scanner, the scanner itself, the
//! accounting around the compressing persister, and the content-addressed
//! manifest record that the pipeline feeds.  All byte-level data is
//! carried as plain `Vec<u8>` values; the surrounding program converts
//! to and from its own string, file and process types.

pub mod errors;
pub mod hexcode;
pub mod manifest;
pub mod tee;
pub mod scanner;
pub mod capture;
pub mod persist;
