//! The connection handle: what one connection does with the frames of its
//! transport and with the messages that the registry routes to it.

use vstd::prelude::*;
use crate::frame::{Frame, MyWsMessage, TransportFault};
use crate::identity::ConnectionId;
use crate::registry::InboundEvent;

verus! {

/// Something that a handle writes to its own transport stream.
pub enum Write {
    /// The answer to a keepalive request, with the payload of the request.
    Pong(Vec<u8>),
    /// A text frame.
    Text(String),
    /// A binary frame.
    Binary(Vec<u8>),
}

/// What follows from one inbound frame.
pub enum FrameAction<T> {
    /// Write to the connection's own transport stream; the registry is not
    /// involved.
    Reply(Write),
    /// Send the event to the registry.
    Emit(InboundEvent<T>),
    /// Nothing.
    Ignore,
}

/// What a handle is, for contracts: its identity, and whether it has ended.
pub struct HandleState {
    pub id: u128,
    pub stopped: bool,
}

/// The adapter between one connection's transport stream and the registry.
pub struct ConnectionHandle {
    id: ConnectionId,
    stopped: bool,
}

impl View for ConnectionHandle {
    type V = HandleState;

    closed spec fn view(&self) -> HandleState {
        HandleState { id: self.id@, stopped: self.stopped }
    }
}

/// What a handle with identity `id` does with `input`: a keepalive request
/// is answered on the spot, a text payload goes to the registry under the
/// handle's identity, a binary payload is written back to the sender alone,
/// and everything else, a fault of the transport included, is passed over.
pub open spec fn frame_action<T>(id: u128, input: Result<Frame, TransportFault>) -> FrameAction<T> {
    match input {
        Ok(Frame::Ping(bytes)) => FrameAction::Reply(Write::Pong(bytes)),
        Ok(Frame::Text(payload)) => FrameAction::Emit(
            InboundEvent::Message { id: ConnectionId { raw: id }, payload },
        ),
        Ok(Frame::Binary(bytes)) => FrameAction::Reply(Write::Binary(bytes)),
        _ => FrameAction::Ignore,
    }
}

/// What a handle writes for a routed message: a frame of the kind that came,
/// for the kinds that can be written, and nothing for the others.
pub open spec fn delivery_write(message: MyWsMessage) -> Option<Write> {
    match message.0 {
        Frame::Ping(bytes) => Some(Write::Pong(bytes)),
        Frame::Text(text) => Some(Write::Text(text)),
        Frame::Binary(bytes) => Some(Write::Binary(bytes)),
        _ => None,
    }
}

impl ConnectionHandle {
    /// The handle of a connection that has just been accepted under `id`.
    pub fn new(id: ConnectionId) -> (handle: Self)
        ensures
            handle@ == (HandleState { id: id@, stopped: false }),
    {
        ConnectionHandle { id, stopped: false }
    }

    /// The identity of the connection.
    pub fn id(&self) -> (id: ConnectionId)
        ensures
            id@ == self@.id,
    {
        self.id
    }

    /// Whether the handle has ended.
    pub fn is_stopped(&self) -> (stopped: bool)
        ensures
            stopped == self@.stopped,
    {
        self.stopped
    }

    /// The event by which the handle registers itself: `target` is the way
    /// to write to this connection.
    pub fn on_start<T>(&self, target: T) -> (event: InboundEvent<T>)
        ensures
            event == (InboundEvent::Connect { id: ConnectionId { raw: self@.id }, target }),
    {
        InboundEvent::Connect { id: self.id, target }
    }

    /// Decides what to do with one frame from the transport.
    pub fn on_frame<T>(&self, input: Result<Frame, TransportFault>) -> (action: FrameAction<T>)
        ensures
            action == frame_action::<T>(self@.id, input),
    {
        match input {
            Ok(Frame::Ping(bytes)) => FrameAction::Reply(Write::Pong(bytes)),
            Ok(Frame::Text(payload)) => FrameAction::Emit(
                InboundEvent::Message { id: self.id, payload },
            ),
            Ok(Frame::Binary(bytes)) => FrameAction::Reply(Write::Binary(bytes)),
            _ => FrameAction::Ignore,
        }
    }

    /// Decides what to write for a message that the registry has routed to
    /// this connection.
    pub fn on_delivery(&self, message: MyWsMessage) -> (write: Option<Write>)
        ensures
            write == delivery_write(message),
    {
        match message.0 {
            Frame::Ping(bytes) => Some(Write::Pong(bytes)),
            Frame::Text(text) => Some(Write::Text(text)),
            Frame::Binary(bytes) => Some(Write::Binary(bytes)),
            _ => None,
        }
    }

    /// Ends the handle. The first call returns the event that takes the
    /// connection out of the registry; every later call returns nothing.
    pub fn on_stop<T>(&mut self) -> (event: Option<InboundEvent<T>>)
        ensures
            final(self)@ == (HandleState { id: old(self)@.id, stopped: true }),
            old(self)@.stopped ==> event is None,
            !old(self)@.stopped ==> event == Some(
                InboundEvent::<T>::Disconnect { id: ConnectionId { raw: old(self)@.id } },
            ),
    {
        if self.stopped {
            None
        } else {
            self.stopped = true;
            Some(InboundEvent::Disconnect { id: self.id })
        }
    }
}

} // verus!
