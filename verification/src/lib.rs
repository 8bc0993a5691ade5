//! Codec core for the X11 wire format: a schema model for message layouts,
//! a parser that builds it from declarative source text, a size calculator,
//! an interpreter that encodes and decodes values of a schema bit-exactly,
//! and the value-level read/write interfaces that message types implement.

pub mod buffer;
pub mod codec;
pub mod error;
pub mod input;
pub mod message;
pub mod meta;
pub mod parser;
pub mod rw;
pub mod schema;
pub mod sentinel;
pub mod wire;
