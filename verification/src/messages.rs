//! The actions a client may send and the events a room emits, with the
//! per-action authorization classes.

use vstd::prelude::*;
use crate::room_store::RoomUser;
use crate::state::{GameError, PlayerMove};
use crate::team::{PerTeam, PlayerTeam};

verus! {

/// Why an action was refused or a connection request failed.
#[derive(Debug, PartialEq, Eq, Clone)]
pub enum SocketError {
    MessageParsingFailed,
    UserNotRoomOwner,
    UserNotPlaying,
    RoomNotFound(String),
    MissingOpponent,
    RoomStarted,
    RoomNotStarted,
    DecksNotChosen,
    GameError(GameError),
}

/// An inbound client action.
#[derive(Debug, PartialEq, Eq, Clone)]
pub enum SocketAction {
    SetMap(String),
    StartGame,
    RequestRedraw,
    ProposeMove(PlayerMove),
    SetDeck { id: String, cards: Vec<String> },
    ReturnToRoom,
    Ping,
    SetConfig(String),
}

impl SocketAction {
    /// Only the room owner may perform these.
    pub open spec fn spec_is_owner_action(&self) -> bool {
        match self {
            SocketAction::SetMap(_) => true,
            SocketAction::StartGame => true,
            SocketAction::ReturnToRoom => true,
            SocketAction::SetConfig(_) => true,
            _ => false,
        }
    }

    pub fn is_owner_action(&self) -> (r: bool)
        ensures
            r == self.spec_is_owner_action(),
    {
        matches!(
            self,
            SocketAction::SetMap(_) | SocketAction::StartGame | SocketAction::ReturnToRoom
                | SocketAction::SetConfig(_)
        )
    }

    /// Only a player (the owner or the opponent) may perform these.
    pub open spec fn spec_is_player_action(&self) -> bool {
        match self {
            SocketAction::SetDeck { .. } => true,
            SocketAction::ProposeMove(_) => true,
            SocketAction::RequestRedraw => true,
            _ => false,
        }
    }

    pub fn is_player_action(&self) -> (r: bool)
        ensures
            r == self.spec_is_player_action(),
    {
        matches!(
            self,
            SocketAction::SetDeck { .. } | SocketAction::ProposeMove(_)
                | SocketAction::RequestRedraw
        )
    }
}

/// An event a room broadcasts to its members, or hands one member alone
/// (the hand dealt and the card drawn are secret).
#[derive(Debug, PartialEq, Eq)]
pub enum RoomEvent {
    UserJoin { id: u128, user: RoomUser },
    UserUpdate { id: u128, user: RoomUser },
    UserLeave(u128),
    OwnerChange(u128),
    OpponentChange(Option<u128>),
    MapChange(String),
    StartGame,
    MoveReceived { team: PlayerTeam, remaining_turns: usize },
    MovesApplied { moves: PerTeam<PlayerMove>, score: PerTeam<usize> },
    HandAssigned(Vec<String>),
    NextCardDrawn { new_card: String, replacing: String },
    EndGame { score: PerTeam<usize> },
    ReturnToRoom,
    ConfigUpdate(String),
}

/// An outbound message to one connection.
#[derive(Debug)]
pub enum SocketEvent {
    Welcome {
        id: u128,
        room_code: String,
        users: Vec<(u128, RoomUser)>,
        owner: u128,
        opponent: Option<u128>,
        map: String,
        started: bool,
        config: Option<String>,
    },
    Error(SocketError),
    RoomEvent(RoomEvent),
    Pong,
}

} // verus!
