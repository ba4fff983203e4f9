//! Blu-ray disc analysis: the metadata parsers, the transport-stream demultiplexer
//! and the summaries built from both.
//!
//! Times are whole ticks of a 90 kHz clock throughout: a playlist's 45 kHz marks
//! are doubled on the way in, a stream's timestamps are taken as they stand.

pub mod bdrom;
pub mod bytes;
pub mod error;
pub mod maps;
pub mod names;
pub mod primitives;
pub mod stream;
pub mod sums;
pub mod text;
