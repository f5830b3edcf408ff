//! Validation of the HTTP façade's request fields.
use vstd::prelude::*;
use crate::models::LeaveRoomRequest;
use crate::text::{alphanumeric, is_alnum, is_room_code, parse_uuid, room_code_of, trim, trimmed, uppercase, uuid_of};

verus! {

/// Why a leave request was refused before reaching a room.
#[derive(Debug, Clone, Copy, PartialEq, Eq, Structural)]
pub enum LeaveError {
    InvalidRoomCode,
    InvalidPlayerId,
}

impl LeaveError {
    /// Text shown to clients for this error.
    pub fn message(&self) -> (r: String)
        ensures
            r@ == match *self {
                LeaveError::InvalidRoomCode => "Invalid room code format"@,
                LeaveError::InvalidPlayerId => "Invalid player ID format"@,
            },
    {
        match self {
            LeaveError::InvalidRoomCode => "Invalid room code format".to_string(),
            LeaveError::InvalidPlayerId => "Invalid player ID format".to_string(),
        }
    }
}

/// Whether every character of `s` is alphanumeric.
fn all_alphanumeric(s: &str) -> (r: bool)
    ensures
        r == forall|i: int| 0 <= i < s@.len() ==> #[trigger] is_alnum(s@[i]),
{
    let n = s.unicode_len();
    let mut i: usize = 0;
    while i < n
        invariant
            n == s@.len(),
            0 <= i <= n,
            forall|j: int| 0 <= j < i ==> #[trigger] is_alnum(s@[j]),
        decreases n - i,
    {
        if !alphanumeric(s.get_char(i)) {
            return false;
        }
        i = i + 1;
    }
    true
}

/// Whether an already normalized text is a well-formed room code: six
/// characters, all alphanumeric.
pub fn is_valid_room_code(code: &str) -> (r: bool)
    ensures
        r == is_room_code(code@),
{
    code.unicode_len() == 6 && all_alphanumeric(code)
}

/// Normalizes a client room code: trimmed and upper-cased, and accepted only
/// as six alphanumeric characters.
pub fn parse_room_code(raw: &str) -> (r: Option<String>)
    ensures
        r is None <==> room_code_of(raw@) is None,
        r matches Some(c) ==> room_code_of(raw@) == Some(c@),
{
    let code = uppercase(trim(raw));
    if is_valid_room_code(code.as_str()) {
        Some(code)
    } else {
        None
    }
}

/// Reads a player id: the value of the UUID the text spells, if it is one.
pub fn parse_player_id(text: &str) -> (r: Option<u128>)
    ensures
        r == uuid_of(text@),
{
    parse_uuid(text)
}

/// Checks a leave request: the room code as `parse_room_code` reads it, then
/// the player id, trimmed, as a UUID.
pub fn parse_leave_request(req: &LeaveRoomRequest) -> (r: Result<(String, u128), LeaveError>)
    ensures
        room_code_of(req.room_code@) is None ==> r == Err::<(String, u128), LeaveError>(LeaveError::InvalidRoomCode),
        room_code_of(req.room_code@) is Some && uuid_of(trimmed(req.player_id@)) is None
            ==> r == Err::<(String, u128), LeaveError>(LeaveError::InvalidPlayerId),
        r matches Ok((code, id)) ==> room_code_of(req.room_code@) == Some(code@) && uuid_of(
            trimmed(req.player_id@),
        ) == Some(id),
        r is Ok <==> (room_code_of(req.room_code@) is Some && uuid_of(trimmed(req.player_id@)) is Some),
{
    let code = match parse_room_code(req.room_code.as_str()) {
        Some(c) => c,
        None => {
            return Err(LeaveError::InvalidRoomCode);
        },
    };
    match parse_uuid(trim(req.player_id.as_str())) {
        Some(id) => Ok((code, id)),
        None => Err(LeaveError::InvalidPlayerId),
    }
}

} // verus!
