//! Verified core of a small real-time chat client.
//!
//! The library keeps a client's view of a chat room consistent with the
//! server's: a `transport` connection model carries raw text frames, a
//! process-local `bus` fans inbound frames out to subscribers, a `codec`
//! encodes outgoing intents and decodes inbound frames of the tagged JSON
//! wire protocol, and a `session` state machine reconciles decoded frames
//! into the two UI-facing collections (the user roster and the message log).

pub mod bus;
pub mod codec;
pub mod session;
pub mod transport;
