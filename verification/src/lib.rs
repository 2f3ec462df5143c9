//! Decoder for diagnostic/log bundles: a family of composable text-grammar
//! rules that recognize section headers, typed key/value configuration lines,
//! timestamped multi-line log records, and assemble them into a uniform
//! document of sections.
pub mod common;
pub mod ios;
pub mod model;
pub mod select;
pub mod text;
