//! A verified core of a RESP3 key-value server: the wire codec, the command
//! vocabulary, the in-memory store and the per-connection driver, with the
//! protocol's framing and round-trip behaviour stated as contracts and laws.

pub mod bignum;
pub mod bytes;
pub mod command;
pub mod config;
pub mod decode;
pub mod engine;
pub mod handler;
pub mod double;
pub mod encode;
pub mod error;
pub mod laws;
pub mod num;
pub mod order;
pub mod processor;
pub mod response;
pub mod server;
pub mod reader;
pub mod utf8check;
pub mod writer;
pub mod value;

pub use value::Value;
pub use value::ValueModel;
