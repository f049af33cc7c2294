//! A streaming query engine over comma-delimited tabular text.
//!
//! The engine reads a byte stream in chunks of arbitrary size, splits it into
//! fields and records, resolves the first record as a header of column names,
//! and then, for every data record, evaluates equality filters and projects a
//! subset of columns as a comma-joined output line.  All state that must
//! survive a chunk boundary lives in [`engine::ReaderState`], so the observable
//! output is independent of how the input was chunked.

pub mod bytes;
pub mod cursor;
pub mod args;
pub mod engine;
pub mod laws;
