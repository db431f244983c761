//! A fan-out relay for persistent connections: every text payload that one
//! connection sends is handed to every other registered connection, tagged
//! with the sender's identity.
//!
//! The crate holds the decisions of the relay and none of its transport. The
//! [`registry::Registry`] owns the mapping from connection identity to
//! delivery target and answers each event with the work that follows from it;
//! the [`handle::ConnectionHandle`] decides what one connection does with a
//! frame. Whoever embeds the crate performs the sends and writes.

pub mod identity;
pub mod frame;
pub mod registry;
pub mod diagnostics;
pub mod handle;
pub mod history;
