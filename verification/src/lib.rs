//! Core of a multi-room chat relay: the room registry with its membership and
//! removal rules, the per-room bounded broadcast channel, the per-connection
//! session state machine, the wire-event encoding, and the debounced
//! persistence decision. Transport, storage and scheduling live outside this
//! crate and drive it through plain values.

pub mod broadcast;
pub mod event;
pub mod persist;
pub mod registry;
pub mod session;
