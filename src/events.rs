use vstd::prelude::*;
use crate::ids::PlayerId;

verus! {

/// A change of game state, as sent to an audience.
#[derive(Debug, PartialEq, Eq)]
pub enum GameEvent {
    /// A player joined the game.
    PlayerRegistered { id: PlayerId, name: String },
    /// A player's score or pile of balls changed.
    ScoreChanged { id: PlayerId, score: usize, balls: usize },
    /// A player left the game.
    PlayerEliminated { id: PlayerId },
    /// A player took the crown.
    CrownChanged { id: PlayerId },
}

impl GameEvent {
    /// A copy of this event.
    pub fn duplicate(&self) -> (r: GameEvent)
        ensures
            r == *self,
    {
        match self {
            GameEvent::PlayerRegistered { id, name } => GameEvent::PlayerRegistered {
                id: *id,
                name: name.clone(),
            },
            GameEvent::ScoreChanged { id, score, balls } => GameEvent::ScoreChanged {
                id: *id,
                score: *score,
                balls: *balls,
            },
            GameEvent::PlayerEliminated { id } => GameEvent::PlayerEliminated { id: *id },
            GameEvent::CrownChanged { id } => GameEvent::CrownChanged { id: *id },
        }
    }

    /// Whether players' devices are sent this event; hosts are sent every event.
    pub open spec fn for_players_spec(&self) -> bool {
        !(self is PlayerRegistered)
    }

    /// Whether players' devices are sent this event; hosts are sent every event.
    pub fn for_players(&self) -> (r: bool)
        ensures
            r == self.for_players_spec(),
    {
        match self {
            GameEvent::PlayerRegistered { .. } => false,
            _ => true,
        }
    }
}

} // verus!
