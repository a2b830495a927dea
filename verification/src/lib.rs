//! A verified core for a single-connection terminal tunnel: a bounded byte
//! queue, an incremental framing codec for the control protocol, the
//! authentication-handshake helpers, and the proxy event-loop state machine.
pub mod auth;
pub mod buffer;
pub mod codec;
pub mod num;
pub mod proxy;
pub mod session;
