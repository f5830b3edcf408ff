use skribbl_backend::fanout::{announced_word, delivers_to, Audience};
use skribbl_backend::models::{ChatMessage, GameState, Player};
use skribbl_backend::chat::{ChatRoute, GuessOutcome};
use skribbl_backend::room::{Room, RoomError};

const A: u128 = 0xA;
const B: u128 = 0xB;
const C: u128 = 0xC;
const D: u128 = 0xD;

fn room_with(ids: &[(u128, &str)], round_duration: u32) -> Room {
    let mut room = Room::new(1, "ABC123".to_string(), round_duration, 8, ids[0].0, 0);
    for (i, (id, name)) in ids.iter().enumerate() {
        room.add_player(Player::new(*id, name.to_string(), i as i64), 0).unwrap();
    }
    room
}

fn chat(id: u128, player_id: u128, text: &str, winners_only: bool) -> ChatMessage {
    ChatMessage {
        id,
        player_id,
        username: "x".to_string(),
        message: text.to_string(),
        timestamp_ms: 0,
        is_winners_only: winners_only,
    }
}

fn score_of(room: &Room, id: u128) -> u32 {
    room.players.iter().find(|p| p.id == id).unwrap().score
}

#[test]
fn two_player_flow() {
    let mut room = room_with(&[(A, "A"), (B, "B")], 60);
    assert_eq!(room.start_game(), Ok(A));
    assert_eq!(room.winners, vec![A]);
    let t0 = 1_700_000_000_000i64;
    assert!(room.select_word("cat".to_string(), t0));
    assert_eq!(room.round_end_ms, Some(t0 + 60_000));
    assert_eq!(room.classify_chat(B, "cat"), ChatRoute::CorrectGuess);
    let out = room.record_correct_guess(B, "B".to_string(), "cat".to_string(), t0 + 30_000);
    assert_eq!(out, GuessOutcome::AllGuessed);
    assert_eq!(room.current_round_guesses.len(), 1);
    assert_eq!(room.current_round_guesses[0].time_remaining, 30);
    let scores = room.end_round().unwrap();
    assert_eq!(scores.guesser_scores, vec![(B, 400)]);
    assert_eq!(scores.artist_score, 240);
    assert_eq!(score_of(&room, B), 400);
    assert_eq!(score_of(&room, A), 240);
    assert_eq!(room.current_drawer, Some(B));
    assert_eq!(room.cycle_number, 1);
    assert_eq!(room.round_number, 2);
    assert_eq!(room.winners, vec![B]);
    assert!(room.word.is_none());
    assert!(room.current_round_guesses.is_empty());
    assert_eq!(room.game_state, GameState::Playing);
}

#[test]
fn timer_expiry_with_no_guesses() {
    let mut room = room_with(&[(A, "A"), (B, "B"), (C, "C")], 60);
    room.start_game().unwrap();
    room.players[0].artist_streak = 3;
    assert!(room.select_word("dog".to_string(), 0));
    assert!(room.timer_should_fire(A, &"dog".to_string()));
    let scores = room.end_round().unwrap();
    assert!(scores.guesser_scores.is_empty());
    assert_eq!(scores.artist_score, 0);
    assert!(room.players.iter().all(|p| p.score == 0));
    assert_eq!(room.players[0].artist_streak, 0);
    assert_eq!(room.current_drawer, Some(B));
    // The old deadline no longer applies.
    assert!(!room.timer_should_fire(A, &"dog".to_string()));
}

#[test]
fn stale_timer_does_not_fire_for_a_new_word() {
    let mut room = room_with(&[(A, "A"), (B, "B")], 60);
    room.start_game().unwrap();
    assert!(room.select_word("dog".to_string(), 0));
    assert!(!room.timer_should_fire(A, &"cat".to_string()));
    assert!(!room.timer_should_fire(B, &"dog".to_string()));
}

#[test]
fn visibility_after_a_correct_guess() {
    let mut room = room_with(&[(A, "A"), (B, "B"), (C, "C"), (D, "D")], 60);
    room.start_game().unwrap();
    room.select_word("cat".to_string(), 0);
    assert_eq!(room.classify_chat(B, " CAT "), ChatRoute::CorrectGuess);
    assert_eq!(
        room.record_correct_guess(B, "B".to_string(), " CAT ".to_string(), 5_000),
        GuessOutcome::Recorded
    );
    // B's next line stays among winners.
    assert_eq!(room.classify_chat(B, "nice one"), ChatRoute::WinnersOnly);
    room.push_chat(chat(1, B, "nice one", true));
    assert_eq!(room.classify_chat(C, "is it a dog?"), ChatRoute::Public);
    room.push_chat(chat(2, C, "is it a dog?", false));

    let for_c = room.clone().view_for(C);
    assert!(for_c.word.is_none());
    assert_eq!(for_c.chat_messages.len(), 1);
    assert!(for_c.chat_messages.iter().all(|m| !m.is_winners_only));

    let for_b = room.clone().view_for(B);
    assert_eq!(for_b.word, Some("cat".to_string()));
    assert_eq!(for_b.chat_messages.len(), 2);
}

#[test]
fn repeated_guess_is_ignored() {
    let mut room = room_with(&[(A, "A"), (B, "B"), (C, "C")], 60);
    room.start_game().unwrap();
    room.select_word("cat".to_string(), 0);
    room.record_correct_guess(B, "B".to_string(), "cat".to_string(), 1_000);
    let again = room.record_correct_guess(B, "B".to_string(), "cat".to_string(), 2_000);
    assert_eq!(again, GuessOutcome::Ignored);
    assert_eq!(room.current_round_guesses.len(), 1);
    // The artist cannot guess either.
    assert_eq!(room.record_correct_guess(A, "A".to_string(), "cat".to_string(), 2_000), GuessOutcome::Ignored);
}

#[test]
fn host_transfer_on_leave() {
    let mut room = room_with(&[(A, "A"), (B, "B"), (C, "C")], 60);
    assert_eq!(room.host_id, A);
    let dep = room.remove_player(A, 10).unwrap();
    assert_eq!(dep.player.id, A);
    assert!(dep.host_changed);
    assert!(!dep.room_empty);
    assert_eq!(room.host_id, B);
    assert_eq!(room.players.len(), 2);
}

#[test]
fn last_player_leaving_empties_room() {
    let mut room = room_with(&[(A, "A")], 60);
    let dep = room.remove_player(A, 10).unwrap();
    assert!(dep.room_empty);
    assert!(room.players.is_empty());
    assert_eq!(room.remove_player(A, 11).err(), Some(RoomError::PlayerNotFound));
}

#[test]
fn drawer_leaving_passes_the_turn() {
    let mut room = room_with(&[(A, "A"), (B, "B"), (C, "C")], 60);
    room.start_game().unwrap();
    room.select_word("cat".to_string(), 0);
    let dep = room.remove_player(A, 10).unwrap();
    assert!(dep.turn_passed);
    assert_eq!(room.current_drawer, Some(B));
    assert_eq!(room.round_number, 1);
    assert!(room.word.is_none());
    assert_eq!(room.winners, vec![B]);
}

#[test]
fn earlier_player_leaving_keeps_round_number_in_step() {
    let mut room = room_with(&[(A, "A"), (B, "B"), (C, "C")], 60);
    room.start_game().unwrap();
    room.end_round().unwrap();
    assert_eq!(room.current_drawer, Some(B));
    assert_eq!(room.round_number, 2);
    room.remove_player(A, 10).unwrap();
    assert_eq!(room.current_drawer, Some(B));
    assert_eq!(room.round_number, 1);
}

#[test]
fn leaving_guesser_loses_their_guess() {
    let mut room = room_with(&[(A, "A"), (B, "B"), (C, "C")], 60);
    room.start_game().unwrap();
    room.select_word("cat".to_string(), 0);
    room.record_correct_guess(B, "B".to_string(), "cat".to_string(), 1_000);
    room.remove_player(B, 2_000).unwrap();
    assert!(room.current_round_guesses.is_empty());
}

#[test]
fn cycle_wraparound_finishes_game() {
    let mut room = room_with(&[(A, "A"), (B, "B")], 60);
    assert!(room.update_settings(A, 1));
    room.start_game().unwrap();
    room.end_round().unwrap();
    assert_eq!(room.game_state, GameState::Playing);
    assert_eq!(room.cycle_number, 1);
    room.end_round().unwrap();
    assert_eq!(room.cycle_number, 2);
    assert_eq!(room.round_number, 1);
    assert_eq!(room.game_state, GameState::Finished);
    // A finished game has no round to end.
    assert!(room.end_round().is_none());
}

#[test]
fn full_rotation_advances_cycle_once() {
    let mut room = room_with(&[(A, "A"), (B, "B"), (C, "C")], 60);
    room.start_game().unwrap();
    for _ in 0..3 {
        room.end_round().unwrap();
    }
    assert_eq!(room.cycle_number, 2);
    assert_eq!(room.round_number, 1);
    assert_eq!(room.current_drawer, Some(A));
}

#[test]
fn start_game_needs_two_players() {
    let mut room = room_with(&[(A, "A")], 60);
    assert_eq!(room.start_game(), Err(RoomError::NotEnoughPlayers));
    assert_eq!(room.game_state, GameState::Waiting);
    assert_eq!(RoomError::NotEnoughPlayers.message(), "Need at least 2 players to start");
}

#[test]
fn add_player_rejections() {
    let mut room = Room::new(1, "ABC123".to_string(), 60, 2, A, 0);
    assert_eq!(room.add_player(Player::new(A, "A".to_string(), 0), 0), Ok(()));
    assert_eq!(
        room.add_player(Player::new(B, "A".to_string(), 1), 0),
        Err(RoomError::UsernameTaken)
    );
    assert_eq!(
        room.add_player(Player::new(A, "other".to_string(), 1), 0),
        Err(RoomError::DuplicatePlayer)
    );
    assert_eq!(room.add_player(Player::new(B, "B".to_string(), 1), 0), Ok(()));
    assert_eq!(
        room.add_player(Player::new(C, "C".to_string(), 2), 0),
        Err(RoomError::RoomFull)
    );
    assert_eq!(RoomError::RoomFull.message(), "Room is full");
    // Username matching is case-sensitive.
    let mut other = Room::new(2, "XYZ789".to_string(), 60, 8, A, 0);
    other.add_player(Player::new(A, "alice".to_string(), 0), 0).unwrap();
    assert_eq!(other.add_player(Player::new(B, "Alice".to_string(), 0), 0), Ok(()));
}

#[test]
fn transfer_host_of_empty_room_fails() {
    let mut room = Room::new(1, "ABC123".to_string(), 60, 8, A, 0);
    assert_eq!(room.transfer_host_ownership(5), Err(RoomError::NoPlayers));
    let mut room = room_with(&[(A, "A"), (B, "B")], 60);
    room.host_id = B;
    assert_eq!(room.transfer_host_ownership(5), Ok(A));
}

#[test]
fn chat_ring_keeps_last_ten() {
    let mut room = room_with(&[(A, "A"), (B, "B")], 60);
    for i in 0..15u128 {
        room.push_chat(chat(i, A, "hi", false));
    }
    assert_eq!(room.chat_messages.len(), 10);
    assert_eq!(room.chat_messages[0].id, 5);
    assert_eq!(room.chat_messages[9].id, 14);
}

#[test]
fn settings_are_clamped() {
    let mut room = room_with(&[(A, "A"), (B, "B")], 60);
    assert!(room.update_settings(A, 0));
    assert_eq!(room.max_rounds, 1);
    assert!(room.update_settings(A, 9));
    assert_eq!(room.max_rounds, 5);
    assert!(room.update_settings(A, 4));
    assert_eq!(room.max_rounds, 4);
    // Only the host may change settings.
    assert!(!room.update_settings(B, 2));
    assert_eq!(room.max_rounds, 4);
}

#[test]
fn word_selection_preconditions() {
    let mut room = room_with(&[(A, "A"), (B, "B")], 60);
    assert!(!room.select_word("cat".to_string(), 0));
    room.start_game().unwrap();
    assert!(room.select_word("cat".to_string(), 0));
    assert!(!room.select_word("dog".to_string(), 0));
    assert_eq!(room.word, Some("cat".to_string()));
}

#[test]
fn fan_out_audiences() {
    let mut room = room_with(&[(A, "A"), (B, "B"), (C, "C")], 60);
    room.start_game().unwrap();
    room.select_word("cat".to_string(), 0);
    room.record_correct_guess(B, "B".to_string(), "cat".to_string(), 0);
    assert!(delivers_to(&room, Audience::Winners, "ABC123", B));
    assert!(!delivers_to(&room, Audience::Winners, "ABC123", C));
    assert!(delivers_to(&room, Audience::NonWinners, "ABC123", C));
    assert!(!delivers_to(&room, Audience::EveryoneExcept(C), "ABC123", C));
    assert!(delivers_to(&room, Audience::Everyone, "ABC123", C));
    assert!(!delivers_to(&room, Audience::Everyone, "OTHER1", C));
    let w = "cat".to_string();
    assert_eq!(announced_word(&room, A, &w), "cat");
    assert_eq!(announced_word(&room, C, &w), "");
}

#[test]
fn new_winner_sees_full_snapshots() {
    let mut room = room_with(&[(A, "A"), (B, "B"), (C, "C")], 60);
    room.start_game().unwrap();
    room.select_word("cat".to_string(), 0);
    assert!(room.clone().view_for(B).word.is_none());
    room.record_correct_guess(B, "B".to_string(), "cat".to_string(), 0);
    assert!(room.is_player_winner(B));
    room.push_chat(chat(7, A, "well done", true));
    let v = room.clone().view_for(B);
    assert_eq!(v.word, Some("cat".to_string()));
    assert_eq!(v.chat_messages.len(), 1);
}

#[test]
fn connections_attach_to_existing_players() {
    let room = room_with(&[(A, "alice"), (B, "bob")], 60);
    assert_eq!(room.connection_target("bob"), Ok(B));
    assert_eq!(room.connection_target("Bob"), Err(RoomError::PlayerNotFound));
    let mut full = Room::new(2, "FULL01".to_string(), 60, 1, A, 0);
    full.add_player(Player::new(A, "alice".to_string(), 0), 0).unwrap();
    assert_eq!(full.connection_target("alice"), Err(RoomError::RoomFull));
}
