//! Observer session protocol: the decisions a connection makes, separated
//! from the transport that carries them.
//!
//! A connection starts anonymous. Its first text payload is a handshake
//! carrying a player id; once that id is taken the session is bound to it
//! and later handshakes are ignored. Ping and binary frames are echoed.
//! The transport parses frames into `WsFrame` values, hands them to
//! `GameWebSocket::handle_frame`, and performs the returned `WsAction`.

use vstd::prelude::*;

verus! {

/// The typed payload of a move request: a direction name, to be validated
/// by the core itself, not pre-filtered by the transport.
pub struct MoveRequest {
    pub direction: String,
}

/// One inbound frame, already decoded to plain values. A text frame
/// carries the player id its payload named, if it named one.
#[derive(Debug, PartialEq, Eq)]
pub enum WsFrame {
    Ping(Vec<u8>),
    Text(Option<String>),
    Binary(Vec<u8>),
    Other,
}

/// What the transport must do in response to a frame.
#[derive(Debug, PartialEq, Eq)]
pub enum WsAction {
    /// Answer a ping with the same bytes.
    Pong(Vec<u8>),
    /// Bind this session to the id and register it with the world.
    Register(String),
    /// Echo a binary frame back unchanged.
    EchoBinary(Vec<u8>),
    /// Nothing to do.
    Ignore,
}

/// One observer connection's session state: the player id its handshake
/// bound it to, if the handshake happened yet.
pub struct GameWebSocket {
    pub player_id: Option<String>,
}

impl GameWebSocket {
    /// A fresh, still-anonymous session.
    pub fn new() -> (s: GameWebSocket)
        ensures
            s.player_id is None,
    {
        GameWebSocket { player_id: None }
    }

    /// One protocol step: pings are answered with their own bytes, binary
    /// frames are echoed, and the first text frame that names a player id
    /// binds the session to it and asks the transport to register that
    /// player. Every other frame changes nothing and asks for nothing.
    pub fn handle_frame(&mut self, frame: WsFrame) -> (a: WsAction)
        ensures
            frame matches WsFrame::Ping(b) ==> a == WsAction::Pong(b) && final(self).player_id
                == old(self).player_id,
            frame matches WsFrame::Binary(b) ==> a == WsAction::EchoBinary(b)
                && final(self).player_id == old(self).player_id,
            (frame matches WsFrame::Text(p) && p is Some && old(self).player_id is None) ==> (
            final(self).player_id == frame->Text_0 && a == WsAction::Register(frame->Text_0->0)),
            (frame matches WsFrame::Text(p) && !(p is Some && old(self).player_id is None)) ==> a
                == WsAction::Ignore && final(self).player_id == old(self).player_id,
            frame is Other ==> a == WsAction::Ignore && final(self).player_id == old(self).player_id,
    {
        match frame {
            WsFrame::Ping(b) => WsAction::Pong(b),
            WsFrame::Binary(b) => WsAction::EchoBinary(b),
            WsFrame::Text(p) => {
                if self.player_id.is_none() {
                    match p {
                        Some(id) => {
                            self.player_id = Some(id.clone());
                            WsAction::Register(id)
                        },
                        None => WsAction::Ignore,
                    }
                } else {
                    WsAction::Ignore
                }
            },
            WsFrame::Other => WsAction::Ignore,
        }
    }
}

} // verus!
