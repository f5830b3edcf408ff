//! Data types of the room runtime.
//!
//! Identities are 128-bit values (the numeric form of a UUID), instants are
//! milliseconds since the Unix epoch, and stroke coordinates are carried as the
//! bit patterns of 32-bit floats, which the library never interprets beyond
//! recognising zero.
use vstd::prelude::*;

verus! {

/// Lifecycle of a room.
#[derive(Debug, Clone, Copy, PartialEq, Eq, Structural)]
pub enum GameState {
    Waiting,
    Playing,
    Finished,
}

/// Role of a player.
#[derive(Debug, Clone, Copy, PartialEq, Eq, Structural)]
pub enum PlayerState {
    Spectator,
    Drawing,
    Guessing,
    Disconnected,
}

/// Named palette colour of a drawing path.
#[derive(Debug, Clone, Copy, PartialEq, Eq, Structural)]
pub enum Color {
    Black,
    Red,
    Green,
    Blue,
    Yellow,
    Purple,
    Orange,
    Brown,
    Pink,
    Gray,
}

/// Categorical brush size.
#[derive(Debug, Clone, Copy, PartialEq, Eq, Structural)]
pub enum BrushSize {
    Small,
    Medium,
    Large,
}

/// A member of a room.
#[derive(Debug)]
pub struct Player {
    pub id: u128,
    pub username: String,
    pub score: u32,
    pub state: PlayerState,
    pub is_connected: bool,
    pub is_drawing: bool,
    /// Join instant in milliseconds since the epoch.
    pub joined_at_ms: i64,
    /// Consecutive strong rounds as artist, between 0 and the streak cap.
    pub artist_streak: u32,
}

impl Clone for Player {
    fn clone(&self) -> (r: Self)
        ensures
            r == *self,
    {
        Player {
            id: self.id,
            username: self.username.clone(),
            score: self.score,
            state: self.state,
            is_connected: self.is_connected,
            is_drawing: self.is_drawing,
            joined_at_ms: self.joined_at_ms,
            artist_streak: self.artist_streak,
        }
    }
}

impl Player {
    /// A fresh spectator with no score and no streak.
    pub fn new(id: u128, username: String, joined_at_ms: i64) -> (r: Player)
        ensures
            r.id == id,
            r.username == username,
            r.score == 0,
            r.state == PlayerState::Spectator,
            r.is_connected,
            !r.is_drawing,
            r.joined_at_ms == joined_at_ms,
            r.artist_streak == 0,
    {
        Player {
            id,
            username,
            score: 0,
            state: PlayerState::Spectator,
            is_connected: true,
            is_drawing: false,
            joined_at_ms,
            artist_streak: 0,
        }
    }
}

/// One sampled point of a drawing path.
#[derive(Debug)]
pub struct DrawStroke {
    /// Bit pattern of the x coordinate (an `f32`).
    pub x_bits: u32,
    /// Bit pattern of the y coordinate (an `f32`).
    pub y_bits: u32,
    /// Seconds since the epoch at which the server took the stroke.
    pub timestamp: u64,
    pub color_hex: String,
    /// Bit pattern of the opacity (an `f32` in 0..=1).
    pub alpha_bits: u32,
    pub is_eraser: bool,
    pub brush_px: u32,
    pub brush_size: BrushSize,
}

impl Clone for DrawStroke {
    fn clone(&self) -> (r: Self)
        ensures
            r == *self,
    {
        DrawStroke {
            x_bits: self.x_bits,
            y_bits: self.y_bits,
            timestamp: self.timestamp,
            color_hex: self.color_hex.clone(),
            alpha_bits: self.alpha_bits,
            is_eraser: self.is_eraser,
            brush_px: self.brush_px,
            brush_size: self.brush_size,
        }
    }
}

/// A complete path drawn by the artist.
#[derive(Debug, Clone)]
pub struct DrawPath {
    pub id: u128,
    pub player_id: u128,
    pub color: Color,
    pub color_hex: String,
    pub brush_size: BrushSize,
    pub strokes: Vec<DrawStroke>,
    pub created_at_ms: i64,
}

/// A line of room chat.
#[derive(Debug)]
pub struct ChatMessage {
    pub id: u128,
    pub player_id: u128,
    pub username: String,
    pub message: String,
    pub timestamp_ms: i64,
    /// Visible to winners (the artist and correct guessers) only.
    pub is_winners_only: bool,
}

impl Clone for ChatMessage {
    fn clone(&self) -> (r: Self)
        ensures
            r == *self,
    {
        ChatMessage {
            id: self.id,
            player_id: self.player_id,
            username: self.username.clone(),
            message: self.message.clone(),
            timestamp_ms: self.timestamp_ms,
            is_winners_only: self.is_winners_only,
        }
    }
}

/// A correct guess recorded for scoring.
///
/// The guess's normalized time is `min(time_remaining, T) / T` for the round
/// duration `T` (zero when `T` is zero); it is derived, not stored.
#[derive(Debug)]
pub struct Guess {
    pub player_id: u128,
    pub username: String,
    pub word: String,
    pub timestamp_ms: i64,
    /// Whole seconds left in the round when the guess arrived.
    pub time_remaining: u32,
}

impl Clone for Guess {
    fn clone(&self) -> (r: Self)
        ensures
            r == *self,
    {
        Guess {
            player_id: self.player_id,
            username: self.username.clone(),
            word: self.word.clone(),
            timestamp_ms: self.timestamp_ms,
            time_remaining: self.time_remaining,
        }
    }
}

/// Outcome of scoring one round.
#[derive(Debug)]
pub struct RoundScores {
    pub round_number: u32,
    pub word: String,
    /// One entry per correct guess, in the order of `correct_guesses`.
    pub guesser_scores: Vec<(u128, u32)>,
    pub artist_score: u32,
    /// The artist's streak before this round is applied.
    pub artist_streak: u32,
    pub round_duration: u32,
    pub correct_guesses: Vec<Guess>,
    /// Twice the median of the guesses' clamped remaining seconds; the median
    /// normalized time is this value divided by `2 * round_duration`.
    pub median_remaining_x2: u64,
    /// Number of players who could have guessed; the fraction guessed is
    /// `correct_guesses.len() / potential_guessers`.
    pub potential_guessers: u32,
}

/// Body of a room-creation request.
#[derive(Debug)]
pub struct CreateRoomRequest {
    pub username: String,
    pub round_duration: u32,
}

/// Body of a join request.
#[derive(Debug)]
pub struct JoinRoomRequest {
    pub room_code: String,
    pub username: String,
}

/// Body of a leave request.
#[derive(Debug)]
pub struct LeaveRoomRequest {
    pub room_code: String,
    pub player_id: String,
}

/// Reply of the health endpoint.
#[derive(Debug)]
pub struct HealthResponse {
    pub status: String,
    pub message: String,
}

/// A stroke as a client sends it.
#[derive(Debug)]
pub struct FrontendDrawStroke {
    /// Bit pattern of the x coordinate (an `f32`).
    pub x_bits: u32,
    /// Bit pattern of the y coordinate (an `f32`).
    pub y_bits: u32,
    pub color: String,
    pub brush_size: u32,
    /// Bit pattern of the opacity (an `f32`); zero means "not given".
    pub alpha_bits: u32,
    pub is_eraser: bool,
    pub brush_px: u32,
}

/// A complete path as a client sends it.
#[derive(Debug)]
pub struct FrontendDrawPath {
    pub id: String,
    pub strokes: Vec<FrontendDrawStroke>,
}

} // verus!
