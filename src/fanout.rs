//! Fan-out policy: which connections receive a message, and what a recipient
//! may learn of the chosen word.
use vstd::prelude::*;
use crate::room::Room;
use crate::text::same_text;

verus! {

/// The recipients a message is meant for within one room.
#[derive(Debug, Clone, Copy, PartialEq, Eq, Structural)]
pub enum Audience {
    /// Every member.
    Everyone,
    /// Every member but the one given.
    EveryoneExcept(u128),
    /// The artist and the players who guessed the word.
    Winners,
    /// Everyone still guessing.
    NonWinners,
}

/// Whether `player` belongs to `audience` in `room`.
pub open spec fn in_audience(room: Room, audience: Audience, player: u128) -> bool {
    match audience {
        Audience::Everyone => true,
        Audience::EveryoneExcept(x) => player != x,
        Audience::Winners => room.is_winner(player),
        Audience::NonWinners => !room.is_winner(player),
    }
}

/// Whether a connection of `conn_player` registered for room `conn_room`
/// receives a message sent to `audience` in `room`.
pub fn delivers_to(room: &Room, audience: Audience, conn_room: &str, conn_player: u128) -> (r: bool)
    ensures
        r == (conn_room@ == room.code@ && in_audience(*room, audience, conn_player)),
{
    if !same_text(conn_room, room.code.as_str()) {
        return false;
    }
    match audience {
        Audience::Everyone => true,
        Audience::EveryoneExcept(x) => conn_player != x,
        Audience::Winners => room.is_player_winner(conn_player),
        Audience::NonWinners => !room.is_player_winner(conn_player),
    }
}

/// The word announced to `viewer` when a word is chosen: winners learn it,
/// everyone else gets an empty text that only starts their clock.
pub fn announced_word(room: &Room, viewer: u128, word: &String) -> (r: String)
    ensures
        room.is_winner(viewer) ==> r@ == word@,
        !room.is_winner(viewer) ==> r@.len() == 0,
{
    if room.is_player_winner(viewer) {
        word.clone()
    } else {
        String::new()
    }
}

} // verus!
