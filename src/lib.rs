//! Incremental CRLF line decoding of a chunked byte stream, and an idle-timeout
//! stream driver built on it.
pub mod buffer;
pub mod lines;
pub mod stream;
pub mod util;
