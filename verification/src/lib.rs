//! A sans-I/O engine for the memcached wire protocol.
//!
//! The crate turns cache operations into request bytes and turns response
//! bytes back into results, for the binary and the text wire format, and
//! frames messages for the datagram transport. It never touches a socket:
//! the caller moves the bytes.

pub mod client;
pub mod error;
pub mod model;
pub mod protocol;
pub mod stream;
pub mod text;
pub mod wire;

pub use crate::client::{check_key_len, Stats};
pub use crate::error::{
    ClientError, CommandError, MemcacheError, ParseError, ServerError, TransportError,
};
pub use crate::protocol::ascii::AsciiProtocol;
pub use crate::protocol::binary::BinaryProtocol;
pub use crate::protocol::Protocol;
pub use crate::stream::UdpStream;
