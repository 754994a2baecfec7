//! Transports that need framing of their own.

pub mod udp_stream;

pub use self::udp_stream::UdpStream;
