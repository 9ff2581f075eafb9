//! Caller-visible failure outcomes of room store operations.

use vstd::prelude::*;

verus! {

/// The recoverable outcomes a room operation can report.  None of them is a
/// defect: callers decide whether to retry.
#[derive(Clone, Copy, Debug, PartialEq, Eq, Structural)]
pub enum RoomError {
    /// A lookup against an unknown room identifier.
    RoomNotFound,
    /// A vote by a user that is not a member of the room.
    UserNotInRoom,
    /// A vote placed after the cards were revealed and before a reset.
    GameOver,
}

impl RoomError {
    /// The human-readable message reported to callers for this outcome.
    pub fn message(&self) -> (s: String)
        ensures
            *self is RoomNotFound ==> s@ == "Room not found"@,
            *self is UserNotInRoom ==> s@ == "User not in room"@,
            *self is GameOver ==> s@ == "Game is over"@,
    {
        match self {
            RoomError::RoomNotFound => String::from_str("Room not found"),
            RoomError::UserNotInRoom => String::from_str("User not in room"),
            RoomError::GameOver => String::from_str("Game is over"),
        }
    }
}

} // verus!
