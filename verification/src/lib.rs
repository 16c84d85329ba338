//! An in-memory string-keyed store driven by a small textual command
//! language (SET, GET, DEL, EXISTS, EXPIRE, INCR, DECR, CLEAR, SAVE, LOAD),
//! with lazy per-entry expiration and a line-based snapshot codec.

pub mod command;
pub mod dictionary;
pub mod errors;
pub mod laws;
pub mod numbers;
pub mod parsing;
pub mod persistence;
pub mod text;
pub mod time;
