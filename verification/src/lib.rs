//! A small Redis-style key/value service: the wire codec, the command
//! grammar and the single-writer command processor, with machine-checked
//! contracts.
//!
//! - [`string`]: binary-safe byte strings.
//! - [`resp`]: the messages of the wire protocol and their encoding.
//! - [`decode`]: what bytes mean as a message, and the parser for it.
//! - [`codec_laws`]: what holds of encoder and decoder together.
//! - [`command`]: commands and responses, to and from messages.
//! - [`server`]: the command processor and the rules of a connection worker.
//! - [`text`]: strings from bytes, for error replies.

pub mod codec_laws;
pub mod command;
pub mod decode;
pub mod resp;
pub mod server;
pub mod string;
pub mod text;
