//! Encoding-aware, traversal-safe extraction of archive entries: strict
//! decoding of raw entry names, sanitizing of decoded names into safe
//! relative paths, and planning of what each entry becomes on disk.
pub mod codec;
pub mod extract;
pub mod laws;
pub mod listing;
pub mod sanitize;
mod text;
