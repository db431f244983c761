//! The messages that travel over one connection, as plain values.

use vstd::prelude::*;

verus! {

/// One piece of a message that was split over several frames.
#[derive(Clone, Debug, PartialEq, Eq)]
pub enum ContinuationItem {
    FirstText(Vec<u8>),
    FirstBinary(Vec<u8>),
    Continue(Vec<u8>),
    Last(Vec<u8>),
}

/// Why a peer closes its connection: the numeric close code and an optional
/// description.
#[derive(Clone, Debug, PartialEq, Eq)]
pub struct CloseReason {
    pub code: u16,
    pub description: Option<String>,
}

/// One message of the transport.
#[derive(Clone, Debug, PartialEq, Eq)]
pub enum Frame {
    /// A text payload.
    Text(String),
    /// A binary payload.
    Binary(Vec<u8>),
    /// A piece of a split message.
    Continuation(ContinuationItem),
    /// A keepalive request with its payload.
    Ping(Vec<u8>),
    /// A keepalive answer with its payload.
    Pong(Vec<u8>),
    /// The peer closes the connection.
    Close(Option<CloseReason>),
    /// Nothing.
    Nop,
}

/// A message that is routed from the registry to one connection.
#[derive(Clone, Debug, PartialEq, Eq)]
pub struct MyWsMessage(pub Frame);

/// The transport could not make a frame of what it read.
#[derive(Clone, Copy, Debug, PartialEq, Eq)]
pub struct TransportFault;

} // verus!
