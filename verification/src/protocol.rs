//! What the nodes of a room tell each other, and what the user asks for.
use vstd::prelude::*;
use crate::player::PlayerId;

verus! {

pub type RoomId = u8;

/// A move in a hand.
#[derive(Debug, Clone, Copy, PartialEq, Eq, Structural)]
pub enum Action {
    Hit { split: bool },
    Stand,
    /// Stand on the split hand and go on with the main hand.
    StandSplit,
    Double,
    Split,
}

/// What the user interface asks of the engine.
#[derive(Debug, Clone, Copy, PartialEq, Eq, Structural)]
pub enum UserAction {
    CreateRoom { room_id: RoomId },
    JoinRoom { room_id: RoomId },
    StartGame,
    PlaceBet { amount: u16 },
    ConfirmReady,
    Quit,
    Play(Action),
}

/// The phases a table goes through.
#[derive(Debug, Clone, Copy, PartialEq, Eq, Structural)]
pub enum GamePhase {
    Lobby,
    Revealing,
    Betting,
    Playing,
    Done,
}

/// An event that nodes broadcast to each other and apply to their tables.
#[derive(Debug, Clone, PartialEq, Eq)]
pub enum GameEvent {
    /// A peer enters the room, committing at once to its seed by its hash.
    Join { player_id: PlayerId, room_id: RoomId, hash: [u8; 16] },
    Leave { player_id: PlayerId },
    /// The room's creator closes the lobby and starts the reveal phase.
    StartGame,
    /// A peer reveals its seed; the others check it against its commitment.
    RevealSeed { player_id: PlayerId, seed: [u8; 16] },
    /// A late joiner asks for the players already in the lobby.
    RequestSync { player_id: PlayerId },
    /// The answer to `RequestSync`: the (id, hash) of the players present.
    /// Only the node with the smallest id answers.
    SyncResponse { players: Vec<(PlayerId, [u8; 16])> },
    /// A peer has placed its bet and is ready to play.
    TurnReady { player_id: PlayerId },
    PlayerAction { player_id: PlayerId, action: Action },
}

/// The envelope of an event on the mesh.
#[derive(Debug, Clone, PartialEq, Eq)]
pub struct MeshMessage {
    pub magic: u8,
    pub msg_id: u32,
    pub room_id: RoomId,
    pub ttl: u8,
    pub event: GameEvent,
}

/// The mathematical value of a `GameEvent`.
pub enum EventModel {
    Join { player_id: PlayerId, room_id: RoomId, hash: [u8; 16] },
    Leave { player_id: PlayerId },
    StartGame,
    RevealSeed { player_id: PlayerId, seed: [u8; 16] },
    RequestSync { player_id: PlayerId },
    SyncResponse { players: Seq<(PlayerId, [u8; 16])> },
    TurnReady { player_id: PlayerId },
    PlayerAction { player_id: PlayerId, action: Action },
}

impl View for GameEvent {
    type V = EventModel;

    open spec fn view(&self) -> EventModel {
        match self {
            GameEvent::Join { player_id, room_id, hash } => EventModel::Join {
                player_id: *player_id,
                room_id: *room_id,
                hash: *hash,
            },
            GameEvent::Leave { player_id } => EventModel::Leave { player_id: *player_id },
            GameEvent::StartGame => EventModel::StartGame,
            GameEvent::RevealSeed { player_id, seed } => EventModel::RevealSeed {
                player_id: *player_id,
                seed: *seed,
            },
            GameEvent::RequestSync { player_id } => EventModel::RequestSync {
                player_id: *player_id,
            },
            GameEvent::SyncResponse { players } => EventModel::SyncResponse { players: players@ },
            GameEvent::TurnReady { player_id } => EventModel::TurnReady { player_id: *player_id },
            GameEvent::PlayerAction { player_id, action } => EventModel::PlayerAction {
                player_id: *player_id,
                action: *action,
            },
        }
    }
}

} // verus!
