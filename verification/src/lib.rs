//! Relay between a browser extension (native-messaging frames on standard
//! input/output) and a long-lived daemon on a Unix socket.
//!
//! This library holds the verified core: the length-prefixed framing codec,
//! the JSON message codec for the two fixed wire vocabularies, and the relay
//! logic that turns inbound frames into state updates, acknowledgements and
//! outbound daemon messages. Process wiring (threads, sockets, logging) lives
//! in the accompanying binary.

pub mod codec;
pub mod frame;
pub mod json;
pub mod models;
pub mod relay;
pub mod state;

pub use frame::deserialize_length;
pub use frame::serialize_length;
