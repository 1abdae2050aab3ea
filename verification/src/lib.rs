//! A DNS message codec over a fixed 512-octet datagram buffer, and the
//! decision logic of an iterative resolver that is driven by it.

pub mod message;
pub mod server;
