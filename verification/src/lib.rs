//! Final rendering stage of a pretty-printer.
//!
//! The library consumes an owned tree of formatting tokens and produces the
//! exact output text. For every breakable group of tokens it decides whether
//! the group fits on one physical line within a fixed width budget, rendering
//! it either as a single compact line or as an indented multi-line block,
//! recursively. The flat sequence of rendered tokens is then written, in
//! order, to an output sink, with the first write failure propagated
//! immediately.

pub mod line_tokens;
pub mod render_queue_writer;
pub mod sink;
pub mod laws;
