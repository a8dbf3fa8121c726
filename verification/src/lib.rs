//! A streaming chat-completion client core.
//!
//! The library covers the pure logic of one completion call: encoding a
//! typed conversation into the wire JSON body, classifying the lines of the
//! event stream that comes back, and folding decoded chunks into the final
//! text and tool-call list. The HTTP transport and the JSON value parsing
//! live outside the library and hand it plain values.

pub mod accumulator;
pub mod decoder;
pub mod encoder;
pub mod request;
