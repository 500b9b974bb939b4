//! A verified streaming codec for RIFF/RF64 WAVE audio containers.
//!
//! The library parses and validates RIFF container structure over an
//! in-memory byte buffer, locates the `fmt ` and `data` chunks (and `ds64`
//! for RF64), and converts scalar samples between their six on-disk
//! encodings and plain integer carriers. The write side emits a header with
//! placeholder size fields, streams encoded samples, and backpatches the
//! real sizes at finalization.
pub mod format;
pub mod loader;
pub mod reader;
pub mod sample;
pub mod saver;
pub mod writer;
pub mod wire;
