//! Error kinds raised by the codec.
use vstd::prelude::*;

verus! {

/// An error raised while compiling templates or while decoding or encoding
/// a message.
///
/// `Static` marks a malformed template definition, `Dynamic` malformed or
/// inconsistent wire data, `Runtime` an algorithmic or usage error.  `Eof`
/// signals that the stream ended cleanly between messages; `UnexpectedEof`
/// that it ended in the middle of one.
#[derive(Debug, Clone, PartialEq)]
pub enum Error {
    Static(String),
    Dynamic(String),
    Runtime(String),
    Eof,
    UnexpectedEof,
}

} // verus!
