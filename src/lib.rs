//! Protocol-aware proxy core: the VarInt wire codec, handshake framing and
//! parsing, hostname routing and the unknown-host responses.

pub mod error;
pub mod varint;
pub mod packet_utils;
pub mod config;
pub mod session;
