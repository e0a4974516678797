//! A verified codec and client core for the RESP wire format (versions 2 and 3).
//!
//! The crate centers on [`Frame`], an in-memory RESP value. Serialization and
//! parsing are specified over a mathematical model of frames and byte
//! sequences, and the executable codec is proved against that model: a
//! serialized frame parses back to an equal frame, a strict prefix of a
//! serialized frame is reported as incomplete rather than invalid, and one
//! parse call consumes exactly one frame from a buffer that holds several.
//!
//! I/O stays outside this crate: the connection and client layers here are the
//! pure halves (buffer management, response coercion, request construction)
//! that an asynchronous transport drives.

pub mod error;
pub use error::RedisError;

pub mod frame;
pub use frame::{BigInt, DoubleValue, Frame};

pub mod dec;

pub mod serialize;

pub mod parse;
pub use parse::ParseOutcome;

pub mod laws;

pub mod connection;
pub use connection::{ReadBuffer, MAX_BUFFER_SIZE};

pub mod cmd;
pub use cmd::{Command, Decr, Del, Exists, Expire, Expiry, Get, GetEx, Hello, Incr, LPop, LPush, LRange, Ping, RPop, RPush, SetCmd, Ttl};

pub mod client;
pub use client::Response;
