//! Wire codec for the fproc process-supervisor protocol.
//!
//! The daemon and its command-line client exchange flat binary messages
//! over a byte-stream socket. This crate implements the codec that both
//! sides must reproduce exactly: big-endian fixed-width integers,
//! 7-bit-per-byte variable-length integers, length-prefixed UTF-8
//! strings, and the framing of whole request and response messages.
//! Every decoder returns a typed error instead of panicking, so a
//! truncated or malformed message can never crash the caller.

pub mod binary;
pub mod errors;
pub mod message;
pub mod model;
pub mod strings;
pub mod varint;
