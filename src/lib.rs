//! An immutable input stream over source text, read byte by byte or
//! character by character by a lexer.
//!
//! Two representations offer the same operations under the same names:
//! [`byte_stream`] holds raw bytes and reads one character per byte, for
//! single-byte source encodings; [`char_stream`] holds decoded characters.
//! The crate root exports the byte-oriented one.

pub mod text;
pub mod byte_stream;
pub mod char_stream;
pub mod concat;

pub use byte_stream::{
    countLines, inputStreamEmpty, inputStreamFromString, inputStreamToString, readInputStream,
    takeByte, takeChar, takeChars, InputStream,
};
