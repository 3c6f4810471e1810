//! A signaling relay core for WebRTC peer discovery: a connection registry
//! that maps opaque connection identifiers to ordered delivery queues, a pure
//! router from inbound requests to addressed outbound responses, the JSON
//! wire codec for both message directions, and the per-connection session
//! steps that tie them together.

pub mod codec;
pub mod messages;
pub mod registry;
pub mod router;
pub mod session;
