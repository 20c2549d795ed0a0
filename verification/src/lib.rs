//! Byte pattern signatures: bytes whose nibbles may be masked out, patterns
//! built from them, their textual form, merging and searching.
pub mod util;
pub mod byte;
pub mod text;
pub mod pattern;
pub mod cli;
