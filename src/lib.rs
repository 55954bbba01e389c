//! Connection bridge between clients that speak a length-prefixed TCP framing
//! and a bidirectional controller stream: the framing codec, the decisions of
//! each forwarding direction, and the listener's settings.
pub mod bridge;
pub mod codec;
pub mod error;
pub mod server;
