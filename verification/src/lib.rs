//! Wire-format codec for a DNS-like message protocol.
//!
//! The library encodes and decodes binary messages exchanged over a datagram
//! transport: a fixed 12-byte header with bit-packed control fields, question
//! records, and resource-record answers, with RFC-1035-style domain-name
//! label compression resolved during decoding.

pub mod answer;
pub mod args;
pub mod errors;
pub mod header;
pub mod helpers;
pub mod message;
pub mod parser;
pub mod question;
pub mod respond;
pub mod store;
pub mod types;
