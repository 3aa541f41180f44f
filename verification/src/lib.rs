//! Query gateway core: validated value types, a length-prefixed binary wire
//! protocol, a chunked log-fetch pipeline with exact post-filtering, and the
//! per-connection session state machine that drives row streaming.
//!
//! Everything here is pure logic on plain values; the surrounding binary owns
//! the sockets and the upstream HTTP transport and feeds their results in.

pub mod types;
pub mod wire;
pub mod msg;
pub mod codec;
pub mod engine;
pub mod session;
pub mod network;
