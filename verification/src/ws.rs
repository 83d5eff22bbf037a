//! The live socket of a stage client: what to do on each thing that happens
//! while it is open.
//!
//! On connecting, the client gets the initial snapshot; after that every
//! broadcast event is forwarded, pings are answered, and the session ends
//! when either side closes or a send fails. A client that lags behind the
//! broadcast keeps going and catches up with later events.

use vstd::prelude::*;

verus! {

/// Something that happened on an open socket.
pub enum SocketEvent {
    /// A broadcast event, as JSON text (`None` when it could not be
    /// serialised).
    Broadcast(Option<String>),
    /// The client fell behind the broadcast by this many events.
    Lagged(u64),
    /// The broadcast channel closed.
    ChannelClosed,
    /// The client sent a close frame, or its stream ended.
    ClientClosed,
    /// The client pinged with this payload.
    ClientPing(Vec<u8>),
    /// The client sent text, binary or a pong.
    ClientOther,
    /// Receiving from the client failed.
    ClientError,
}

/// What to do about it.
pub enum SocketAction {
    /// Send this text frame.
    SendText(String),
    /// Answer with a pong carrying this payload.
    SendPong(Vec<u8>),
    /// Nothing; keep going.
    Continue,
    /// End the session.
    Stop,
}

/// The first frame: the initial snapshot when it could be serialised.
pub fn on_open(init: Option<String>) -> (a: SocketAction)
    ensures
        match init {
            Some(t) => a matches SocketAction::SendText(s) && s@ == t@,
            None => a is Continue,
        },
{
    match init {
        Some(t) => SocketAction::SendText(t),
        None => SocketAction::Continue,
    }
}

/// Decide what an event on the open socket calls for.
pub fn on_event(ev: SocketEvent) -> (a: SocketAction)
    ensures
        match ev {
            SocketEvent::Broadcast(Some(t)) => a matches SocketAction::SendText(s) && s@ == t@,
            SocketEvent::Broadcast(None) => a is Continue,
            SocketEvent::Lagged(_) => a is Continue,
            SocketEvent::ChannelClosed => a is Stop,
            SocketEvent::ClientClosed => a is Stop,
            SocketEvent::ClientPing(p) => a matches SocketAction::SendPong(q) && q@ == p@,
            SocketEvent::ClientOther => a is Continue,
            SocketEvent::ClientError => a is Stop,
        },
{
    match ev {
        SocketEvent::Broadcast(Some(t)) => SocketAction::SendText(t),
        SocketEvent::Broadcast(None) => SocketAction::Continue,
        SocketEvent::Lagged(_) => SocketAction::Continue,
        SocketEvent::ChannelClosed => SocketAction::Stop,
        SocketEvent::ClientClosed => SocketAction::Stop,
        SocketEvent::ClientPing(p) => SocketAction::SendPong(p),
        SocketEvent::ClientOther => SocketAction::Continue,
        SocketEvent::ClientError => SocketAction::Stop,
    }
}

} // verus!
