//! Encoding and decoding of the packets of the Minecraft protocol, version 772, for the
//! handshaking, status and login phases. Packets are written to a `Vec<u8>` and read from
//! a byte slice, which advances past what was read.
pub mod encoding;
pub mod handshaking;
pub mod layout;
pub mod login;
pub mod status;
pub mod stream;
pub mod util;
pub mod wire;
