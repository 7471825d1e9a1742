use vstd::prelude::*;

use crate::player::{PlayerId, WorldCoordinate};

verus! {

/// An event a client sends to the server.
#[derive(Clone, Copy, PartialEq, Eq, Structural, Debug)]
pub enum ClientEvent {
    /// Announce presence; the server answers with a session snapshot.
    Connect,
    /// Leave the session.
    Disconnect,
    /// Report a new position.
    Move { position: WorldCoordinate },
}

/// An event the server sends to clients.
#[derive(PartialEq, Eq, Debug)]
pub enum ServerEvent {
    /// Snapshot sent once to a connecting session: the world seed and the
    /// identifiers known at that moment.
    SessionInfo { seed: u64, known_ids: Vec<PlayerId> },
    PlayerConnected { id: PlayerId },
    PlayerDisconnected { id: PlayerId },
    PlayerMoved { id: PlayerId, position: WorldCoordinate },
}

/// The mathematical shape of a server event, with the id list as a sequence.
pub enum ServerEventModel {
    SessionInfo { seed: u64, known_ids: Seq<PlayerId> },
    PlayerConnected { id: PlayerId },
    PlayerDisconnected { id: PlayerId },
    PlayerMoved { id: PlayerId, position: WorldCoordinate },
}

impl View for ServerEvent {
    type V = ServerEventModel;

    open spec fn view(&self) -> ServerEventModel {
        match *self {
            ServerEvent::SessionInfo { seed, known_ids } => ServerEventModel::SessionInfo {
                seed,
                known_ids: known_ids@,
            },
            ServerEvent::PlayerConnected { id } => ServerEventModel::PlayerConnected { id },
            ServerEvent::PlayerDisconnected { id } => ServerEventModel::PlayerDisconnected { id },
            ServerEvent::PlayerMoved { id, position } => ServerEventModel::PlayerMoved {
                id,
                position,
            },
        }
    }
}

} // verus!
