//! Room rules applied before a room is stored, and the mapping of storage
//! failures to room errors.
use vstd::prelude::*;

use crate::text::{string_of, trim_white_space, trimmed};

verus! {

/// Errors of room operations.
#[derive(Debug)]
pub enum RoomError {
    Validation(String),
    RoomNotFound,
    DuplicateRoomName,
    Internal(String),
}

/// How the room store failed.
#[derive(Debug, Clone, Copy, PartialEq, Eq, Structural)]
pub enum RoomRepoFailure {
    DuplicateName,
    NotFound,
    Database,
}

/// The name under which a room is stored: the requested name without
/// surrounding whitespace; a name that is empty once trimmed is refused.
pub fn validate_room_name(name: &str) -> (r: Result<&str, RoomError>)
    ensures
        trimmed(name@).len() == 0 <==> r is Err,
        r matches Ok(n) ==> n@ == trimmed(name@),
        r matches Err(e) ==> (e matches RoomError::Validation(m) && m@ == "Room name cannot be empty"@),
{
    let t = trim_white_space(name);
    if t.is_empty() {
        return Err(RoomError::Validation(string_of("Room name cannot be empty")));
    }
    Ok(t)
}

/// The room error reported for a failure of the room store while creating a room.
pub fn create_room_error(failure: RoomRepoFailure) -> (e: RoomError)
    ensures
        failure == RoomRepoFailure::DuplicateName ==> e is DuplicateRoomName,
        failure == RoomRepoFailure::NotFound ==> e is RoomNotFound,
        failure == RoomRepoFailure::Database ==> (e matches RoomError::Internal(m) && m@
            == "Internal server error"@),
{
    match failure {
        RoomRepoFailure::DuplicateName => RoomError::DuplicateRoomName,
        RoomRepoFailure::NotFound => RoomError::RoomNotFound,
        RoomRepoFailure::Database => RoomError::Internal(string_of("Internal server error")),
    }
}

/// The room error reported for a failure of the room store while reading one room.
pub fn get_room_error(failure: RoomRepoFailure) -> (e: RoomError)
    ensures
        failure == RoomRepoFailure::NotFound ==> e is RoomNotFound,
        failure != RoomRepoFailure::NotFound ==> (e matches RoomError::Internal(m) && m@
            == "Internal server error"@),
{
    match failure {
        RoomRepoFailure::NotFound => RoomError::RoomNotFound,
        _ => RoomError::Internal(string_of("Internal server error")),
    }
}

} // verus!
