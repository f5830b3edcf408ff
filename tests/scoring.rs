use skribbl_backend::models::Guess;
use skribbl_backend::scoring::{
    calculate_artist_score, calculate_guesser_scores, calculate_rank_bonuses, calculate_round_scores,
    calculate_time_score, should_increment_artist_streak, sorted_copy, update_artist_streak, PMAX, PMIN,
};

fn guess(player_id: u128, name: &str, timestamp_ms: i64, time_remaining: u32) -> Guess {
    Guess {
        player_id,
        username: name.to_string(),
        word: "test".to_string(),
        timestamp_ms,
        time_remaining,
    }
}

#[test]
fn test_time_score_calculation() {
    // Early guess (high score): normalized time 1.0
    let early_score = calculate_time_score(100, 100);
    assert_eq!(early_score, PMAX);

    // Late guess (low score): normalized time 0.0
    let late_score = calculate_time_score(0, 100);
    assert_eq!(late_score, PMIN);

    // Middle guess: normalized time 0.5
    let middle_score = calculate_time_score(50, 100);
    let expected = PMIN + (PMAX - PMIN) / 2;
    assert_eq!(middle_score, expected);
}

#[test]
fn test_rank_bonuses() {
    // Two guesses well outside the tie window of each other.
    let bonuses = calculate_rank_bonuses(&vec![1_000, 2_000]);
    assert_eq!(bonuses[0], 100); // 1st place
    assert_eq!(bonuses[1], 60); // 2nd place
}

#[test]
fn test_artist_score_calculation() {
    // fraction guessed 0.8 (4 of 5), median normalized time 0.6 (6 of 10 s),
    // top guesser 500, streak 2.
    let score = calculate_artist_score(4, 5, 12, 10, 500, 2);
    assert!(score > 0);
    assert!(score <= 400); // capped at 80% of the top guesser
    // 320 * 0.8 * 0.8 = 204.8, plus 100 for the streak, rounds to 305.
    assert_eq!(score, 305);
}

#[test]
fn test_streak_increment_logic() {
    let round_duration = 120;
    let potential_guessers = 4;
    let guesses = vec![
        guess(1, "Player1", 0, 70),
        guess(2, "Player2", 0, 80),
        guess(3, "Player3", 0, 90),
    ];
    let should_increment = should_increment_artist_streak(&guesses, round_duration, potential_guessers);
    assert!(should_increment);
}

#[test]
fn time_score_is_monotone_in_time_left() {
    let mut last = 0;
    for t in 0..=60u32 {
        let s = calculate_time_score(t, 60);
        assert!(s >= last);
        last = s;
    }
    assert_eq!(calculate_time_score(60, 60), 500);
    assert_eq!(calculate_time_score(0, 60), 100);
    // More than the round counts as the whole round.
    assert_eq!(calculate_time_score(90, 60), 500);
    // floor(100 + 400 * 1/3) = 233
    assert_eq!(calculate_time_score(20, 60), 233);
}

#[test]
fn time_score_of_zero_length_round_is_minimum() {
    assert_eq!(calculate_time_score(0, 0), 100);
    assert_eq!(calculate_time_score(5, 0), 100);
}

#[test]
fn tie_at_the_wire() {
    // Remaining 50 s, 49.9 s (150 ms later) and 40 s.
    let bonuses = calculate_rank_bonuses(&vec![0, 150, 10_000]);
    assert_eq!(bonuses, vec![100, 100, 30]);
}

#[test]
fn tie_run_is_measured_from_its_first_guess() {
    // 0 and 150 tie; 300 is more than 200 ms after the run's first guess.
    let bonuses = calculate_rank_bonuses(&vec![0, 150, 300, 301, 2_000]);
    assert_eq!(bonuses, vec![100, 100, 30, 30, 0]);
}

#[test]
fn rank_bonuses_of_no_guesses_are_empty() {
    assert!(calculate_rank_bonuses(&vec![]).is_empty());
}

#[test]
fn sorted_copy_sorts_ascending() {
    assert_eq!(sorted_copy(&vec![5, -3, 9, 0, 5]), vec![-3, 0, 5, 5, 9]);
}

#[test]
fn guesser_scores_follow_time_order_not_list_order() {
    // Listed out of time order: player 2 guessed first.
    let gs = vec![guess(1, "a", 5_000, 40), guess(2, "b", 1_000, 50)];
    let scores = calculate_guesser_scores(&gs, 60);
    // player 1: floor(100 + 400*40/60) = 366, second place 60
    // player 2: floor(100 + 400*50/60) = 433, first place 100
    assert_eq!(scores, vec![(1, 426), (2, 533)]);
}

#[test]
fn two_player_round_scores() {
    let gs = vec![guess(2, "B", 30_000, 30)];
    let r = calculate_round_scores(1, "cat", 60, gs, 1, 0);
    assert_eq!(r.guesser_scores, vec![(2, 400)]);
    assert_eq!(r.artist_score, 240);
    assert_eq!(r.median_remaining_x2, 60);
    assert_eq!(r.word, "cat");
    assert_eq!(r.potential_guessers, 1);
}

#[test]
fn artist_score_is_capped_by_top_guesser() {
    // Everybody guessed instantly and the artist holds a full streak:
    // 320 + 250 = 570, capped at floor(0.8 * 600) = 480.
    let gs = vec![guess(2, "B", 0, 60)];
    let r = calculate_round_scores(1, "cat", 60, gs, 1, 5);
    assert_eq!(r.guesser_scores, vec![(2, 600)]);
    assert_eq!(r.artist_score, 480);
}

#[test]
fn median_of_even_count_averages_middles() {
    let gs = vec![
        guess(1, "a", 0, 10),
        guess(2, "b", 300, 40),
        guess(3, "c", 600, 20),
        guess(4, "d", 900, 30),
    ];
    let r = calculate_round_scores(1, "w", 60, gs, 4, 0);
    // Sorted remaining: 10, 20, 30, 40; median 25 -> twice is 50.
    assert_eq!(r.median_remaining_x2, 50);
}

#[test]
fn zero_guess_round_scores_nothing() {
    let r = calculate_round_scores(3, "dog", 60, vec![], 3, 4);
    assert!(r.guesser_scores.is_empty());
    assert_eq!(r.artist_score, 0);
    assert_eq!(r.artist_streak, 4);
    let inc = should_increment_artist_streak(&r.correct_guesses, 60, 3);
    assert!(!inc);
    assert_eq!(update_artist_streak(4, inc), 0);
}

#[test]
fn streak_needs_strictly_more_than_half() {
    // N = 4: two early guesses are exactly half, not enough.
    let two = vec![guess(1, "a", 0, 70), guess(2, "b", 0, 60), guess(3, "c", 0, 10)];
    assert!(!should_increment_artist_streak(&two, 120, 4));
    // N = 3: two early guesses are more than half.
    assert!(should_increment_artist_streak(&two, 120, 3));
}

#[test]
fn streak_steps_and_caps() {
    assert_eq!(update_artist_streak(0, true), 1);
    assert_eq!(update_artist_streak(4, true), 5);
    assert_eq!(update_artist_streak(5, true), 5);
    assert_eq!(update_artist_streak(3, false), 0);
}

#[test]
fn artist_score_without_potential_guessers_is_the_cap() {
    assert_eq!(calculate_artist_score(1, 0, 0, 60, 500, 0), 400);
    assert_eq!(calculate_artist_score(0, 3, 0, 60, 500, 0), 0);
}

#[test]
fn streak_half_way_point_is_exact() {
    // A 61 s round: 30 s left is less than half of it, 31 s is more.
    let late = vec![guess(1, "a", 0, 30)];
    assert!(!should_increment_artist_streak(&late, 61, 1));
    let early = vec![guess(1, "a", 0, 31)];
    assert!(should_increment_artist_streak(&early, 61, 1));
    // In an even round exactly half counts.
    let half = vec![guess(1, "a", 0, 30)];
    assert!(should_increment_artist_streak(&half, 60, 1));
}
