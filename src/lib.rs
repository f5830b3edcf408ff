//! Room runtime of a multiplayer drawing-and-guessing game server.
//!
//! The library holds the game's own logic: the room state machine with its
//! drawer rotation and cycle counting, guess adjudication, the scoring engine,
//! the per-recipient visibility filter and the conversion of drawing payloads.
//! Transport, the shared concurrent store, timers and JSON encoding live in the
//! application around it.
pub mod models;
pub mod color;
pub mod text;
pub mod scoring;
pub mod room;
pub mod chat;
pub mod round;
pub mod fanout;
pub mod drawing;
pub mod requests;
pub mod laws;
