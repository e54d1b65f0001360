//! A library for the Constrained Application Protocol (CoAP, RFC 7252):
//! message headers and codes, packets with their binary encoding, option
//! values, CoAP-over-TCP framing (RFC 8323) and the small pieces of
//! request routing that do not depend on I/O.

pub mod text;
pub mod message;
pub mod wire;
pub mod bytes_codec;
pub mod packet;
pub mod tcp;
pub mod block;
pub mod keyed;
pub mod observer;
pub mod router;
pub mod server;
pub mod client;
pub mod block_transfer;
