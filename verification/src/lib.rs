//! A streaming relay for a chat-completion service.
//!
//! The library builds the outbound chat request from a conversation history
//! plus options, and incrementally decodes the server-sent-event byte stream
//! of the response: each arriving byte chunk is split on line boundaries
//! (partial trailing lines are buffered across reads), data lines are decoded
//! as JSON delta payloads, and every text fragment is handed out in arrival
//! order until the terminal marker or the end of the stream.
//!
//! Network reads and the delivery of fragments to a user interface are left
//! to the surrounding application; the decisions the relay takes on each
//! transport event live here, with their contracts.

pub mod decoder;
pub mod relay;
pub mod request;
pub mod sse;
