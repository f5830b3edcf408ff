//! Laws of the room runtime, stated over the models the operations' contracts
//! use and proved from them.
use vstd::prelude::*;
use crate::models::{GameState, Guess, RoundScores};
use crate::room::{guessers_of, Room};
use crate::round::{sat_inc, turn_after, turn_moved};
use crate::room::lemma_index_of_unique;
use crate::scoring::{
    ascending, bonuses_from, early_count, find_from, guess_times, guesser_score, isort, lemma_isort,
    lemma_isort_permutes, earns_streak, lemma_bonuses_from, next_streak, rank_bonus,
    run_end, scores_of_round, time_score, top_score, CAP_PERCENT, MAX_STREAK, PMAX, PMIN,
    TIE_WINDOW_MS,
};

verus! {

/// Every well-formed room satisfies the room invariants: a non-empty room's
/// host is a member; while playing, the drawer is a member and a winner and the
/// round number is between 1 and the number of members; the cycle number is at
/// least 1; the chat holds at most ten lines; every guess comes from a member
/// other than the drawer; and no player guesses twice.
pub proof fn lemma_room_invariants(room: Room)
    requires
        room.wf(),
    ensures
        room.players@.len() > 0 ==> room.has_player(room.host_id),
        room.game_state == GameState::Playing ==> room.current_drawer is Some && room.has_player(
            room.current_drawer.unwrap(),
        ) && room.winners@.contains(room.current_drawer.unwrap()),
        room.chat_messages@.len() <= 10,
        forall|k: int|
            0 <= k < room.current_round_guesses@.len() ==> room.has_player(
                (#[trigger] room.current_round_guesses@[k]).player_id,
            ) && room.current_drawer != Some(room.current_round_guesses@[k].player_id),
        room.game_state == GameState::Playing ==> 1 <= room.round_number <= room.players@.len(),
        room.cycle_number >= 1,
        room.current_drawer matches Some(d) ==> room.winners@.contains(d),
        forall|i: int, j: int|
            0 <= i < j < room.current_round_guesses@.len() ==> (#[trigger] room.current_round_guesses@[i]).player_id
                != (#[trigger] room.current_round_guesses@[j]).player_id,
{
    if room.game_state == GameState::Playing {
        let d = room.current_drawer.unwrap();
        let ids = room.player_ids();
        assert(0 <= ids.index_of(d) < ids.len());
    }
    assert forall|i: int, j: int| 0 <= i < j < room.current_round_guesses@.len() implies (
    #[trigger] room.current_round_guesses@[i]).player_id != (
    #[trigger] room.current_round_guesses@[j]).player_id by {
        assert(guessers_of(room.current_round_guesses@)[i] != guessers_of(room.current_round_guesses@)[j]);
    }
}

/// A guess with the whole round left scores `PMAX`, one with nothing left
/// scores `PMIN`, and the time score never falls as the time left grows.
pub proof fn lemma_time_score_laws(round_duration: u32, a: u32, b: u32)
    requires
        round_duration > 0,
    ensures
        time_score(round_duration, round_duration) == PMAX,
        time_score(0, round_duration) == PMIN,
        a <= b ==> time_score(a, round_duration) <= time_score(b, round_duration),
{
    let t = round_duration as int;
    assert((400 * t) / t == 400) by (nonlinear_arith)
        requires
            t > 0,
    ;
    if a <= b {
        let ca: int = if a <= round_duration {
            a as int
        } else {
            t
        };
        let cb: int = if b <= round_duration {
            b as int
        } else {
            t
        };
        assert((400 * ca) / t <= (400 * cb) / t) by (nonlinear_arith)
            requires
                0 <= ca <= cb,
                t > 0,
        ;
        assert((400 * ca) / t <= 400) by (nonlinear_arith)
            requires
                0 <= ca <= t,
                t > 0,
        ;
        assert((400 * cb) / t <= 400) by (nonlinear_arith)
            requires
                0 <= cb <= t,
                t > 0,
        ;
        assert((400 * ca) / t >= 0) by (nonlinear_arith)
            requires
                0 <= ca,
                t > 0,
        ;
    }
}

/// The artist never scores more than `floor(0.8 * top guesser score)`.
pub proof fn lemma_artist_score_capped(
    r: RoundScores,
    round_number: u32,
    word: Seq<char>,
    round_duration: u32,
    gs: Seq<Guess>,
    potential_guessers: u32,
    artist_streak: u32,
)
    requires
        scores_of_round(r, round_number, word, round_duration, gs, potential_guessers, artist_streak),
    ensures
        r.artist_score <= (CAP_PERCENT * top_score(r.guesser_scores@)) / 100,
{
    let top = top_score(r.guesser_scores@) as int;
    let m2 = crate::scoring::median_remaining_x2(gs, round_duration);
    let g = gs.len() as int;
    let n = potential_guessers as int;
    let t = round_duration as int;
    let tt = if t == 0 {
        1
    } else {
        t
    };
    let m = if t == 0 {
        0
    } else {
        m2
    };
    if g != 0 && n != 0 {
        let bonus = 50 * (if artist_streak <= MAX_STREAK {
            artist_streak
        } else {
            MAX_STREAK
        }) as int;
        let den = 4 * n * tt;
        let num = crate::scoring::BASE * g * (2 * tt + m) + bonus * den;
        let rounded = (2 * num + den) / (2 * den);
        assert(r.artist_score == if rounded <= (CAP_PERCENT * top) / 100 {
            rounded
        } else {
            (CAP_PERCENT * top) / 100
        });
    }
}

/// A round without correct guesses scores nobody, and the artist's streak
/// then resets to 0.
pub proof fn lemma_zero_guess_round(
    r: RoundScores,
    round_number: u32,
    word: Seq<char>,
    round_duration: u32,
    potential_guessers: u32,
    artist_streak: u32,
)
    requires
        scores_of_round(r, round_number, word, round_duration, Seq::empty(), potential_guessers, artist_streak),
    ensures
        r.guesser_scores@.len() == 0,
        r.artist_score == 0,
        next_streak(artist_streak, earns_streak(r.correct_guesses@, round_duration, potential_guessers)) == 0,
{
    assert(early_count(Seq::<Guess>::empty(), round_duration) == 0);
}

/// Tie window: when the second-earliest guess is within the window of the
/// first, both get the same bonus; every guess of the first tie run gets the
/// first bonus, and the next guess after the run gets the bonus at the index
/// equal to the run's size.
pub proof fn lemma_tie_window(times: Seq<i64>)
    requires
        ascending(times),
        times.len() >= 1,
    ensures
        ({
            let b = bonuses_from(times, 0);
            let e = run_end(times, 0, 1);
            &&& times.len() >= 2 && times[1] - times[0] <= TIE_WINDOW_MS ==> b[0] == b[1]
            &&& forall|j: int| 0 <= j < e ==> #[trigger] b[j] == rank_bonus(0)
            &&& e < times.len() ==> b[e] == rank_bonus(e)
        }),
{
    let b = bonuses_from(times, 0);
    let e = run_end(times, 0, 1);
    lemma_run_end_bounds(times, 1);
    let head = Seq::new(e as nat, |k: int| rank_bonus(0));
    assert(b == head + bonuses_from(times, e));
    if times.len() >= 2 && times[1] - times[0] <= TIE_WINDOW_MS {
        assert(e >= 2) by {
            assert(run_end(times, 0, 1) == run_end(times, 0, 2));
            lemma_run_end_bounds(times, 2);
        }
    }
    if e < times.len() {
        lemma_bonuses_from(times, e);
        lemma_run_end_bounds_from(times, e, e + 1);
        assert(bonuses_from(times, e)[0] == rank_bonus(e));
        assert(b[e] == bonuses_from(times, e)[0]);
    }
}

proof fn lemma_run_end_bounds(s: Seq<i64>, j: int)
    requires
        1 <= j <= s.len(),
    ensures
        j <= run_end(s, 0, j) <= s.len(),
    decreases s.len() - j,
{
    if j < s.len() && s[j] - s[0] <= TIE_WINDOW_MS {
        lemma_run_end_bounds(s, j + 1);
    }
}

proof fn lemma_run_end_bounds_from(s: Seq<i64>, i: int, j: int)
    requires
        0 <= i < j <= s.len(),
    ensures
        j <= run_end(s, i, j) <= s.len(),
    decreases s.len() - j,
{
    if j < s.len() && s[j] - s[i] <= TIE_WINDOW_MS {
        lemma_run_end_bounds_from(s, i, j + 1);
    }
}

/// The streak steps up exactly when strictly more than half of the potential
/// guessers guessed with at least half of the round left, and otherwise resets.
pub proof fn lemma_streak_rule(gs: Seq<Guess>, round_duration: u32, potential: u32, streak: u32)
    ensures
        earns_streak(gs, round_duration, potential) <==> 2 * early_count(gs, round_duration) > potential,
        next_streak(streak, earns_streak(gs, round_duration, potential)) == if 2 * early_count(
            gs,
            round_duration,
        ) > potential {
            if streak >= MAX_STREAK {
                MAX_STREAK
            } else {
                (streak + 1) as u32
            }
        } else {
            0
        },
{
}

/// After a player is added to the winners, the player counts as a winner, so
/// every later snapshot sent to them is the full room.
pub proof fn lemma_new_winner_sees_all(before: Room, after: Room, p: u128)
    requires
        after.winners@ == before.winners@.push(p),
    ensures
        after.is_winner(p),
{
    assert(after.winners@[after.winners@.len() - 1] == p);
}

/// `m` turns in a row from position `idx` of `n` in cycle `cycle`.
pub open spec fn turns(idx: int, n: int, cycle: u32, m: nat) -> (int, u32)
    decreases m,
{
    if m == 0 {
        (idx, cycle)
    } else {
        let t = turns(idx, n, cycle, (m - 1) as nat);
        turn_after(t.0, n, t.1)
    }
}

proof fn lemma_turns_within_cycle(idx: int, n: int, cycle: u32, m: nat)
    requires
        0 <= idx,
        idx + m < n,
    ensures
        turns(idx, n, cycle, m) == (idx + m, cycle),
    decreases m,
{
    if m > 0 {
        lemma_turns_within_cycle(idx, n, cycle, (m - 1) as nat);
        vstd::arithmetic::div_mod::lemma_small_mod((idx + m) as nat, n as nat);
    }
}

proof fn lemma_turns_compose(idx: int, n: int, cycle: u32, a: nat, b: nat)
    ensures
        turns(idx, n, cycle, a + b) == turns(turns(idx, n, cycle, a).0, n, turns(idx, n, cycle, a).1, b),
    decreases b,
{
    if b > 0 {
        lemma_turns_compose(idx, n, cycle, a, (b - 1) as nat);
        assert((a + b - 1) as nat == a + (b - 1) as nat);
    }
}

/// After as many round ends as there are members, the drawer and the round
/// number are back where they were (round 1 when starting a cycle) and the
/// cycle number has grown by exactly one.
pub proof fn lemma_full_rotation(idx: int, n: int, cycle: u32)
    requires
        0 <= idx < n,
        cycle < u32::MAX,
    ensures
        turns(idx, n, cycle, n as nat) == (idx, (cycle + 1) as u32),
        turns(0, n, cycle, n as nat).0 + 1 == 1,
{
    let a = (n - 1 - idx) as nat;
    lemma_turns_within_cycle(idx, n, cycle, a);
    lemma_turns_compose(idx, n, cycle, a, 1);
    assert(turns(n - 1, n, cycle, 1) == turn_after(n - 1, n, cycle));
    vstd::arithmetic::div_mod::lemma_mod_self_0(n);
    assert(sat_inc(cycle) == cycle + 1);
    lemma_turns_compose(idx, n, cycle, a + 1, idx as nat);
    lemma_turns_within_cycle(0, n, (cycle + 1) as u32, idx as nat);
    assert(a + 1 + idx == n);
    lemma_turns_within_cycle(0, n, cycle, 0);
    lemma_turns_compose(0, n, cycle, (n - 1) as nat, 1);
    lemma_turns_within_cycle(0, n, cycle, (n - 1) as nat);
    lemma_turns_compose(0, n, cycle, n as nat, 0);
}


proof fn lemma_round_ends_follow_turns(rooms: Seq<Room>, i: int)
    requires
        rooms.len() >= 1,
        rooms[0].game_state == GameState::Playing,
        0 <= i < rooms.len(),
        forall|k: int| 0 <= k < rooms.len() ==> (#[trigger] rooms[k]).wf(),
        forall|k: int|
            0 <= k < rooms.len() - 1 ==> (#[trigger] rooms[k]).game_state == GameState::Playing && turn_moved(
                rooms[k],
                rooms[k + 1],
            ),
    ensures
        rooms[i].player_ids() == rooms[0].player_ids(),
        rooms[i].current_drawer is Some,
        rooms[i].player_ids()[rooms[i].drawer_index()] == rooms[i].current_drawer.unwrap(),
        0 <= rooms[i].drawer_index() < rooms[0].players@.len(),
        (rooms[i].drawer_index(), rooms[i].cycle_number) == turns(
            rooms[0].drawer_index(),
            rooms[0].players@.len() as int,
            rooms[0].cycle_number,
            i as nat,
        ),
    decreases i,
{
    let n = rooms[0].players@.len() as int;
    if i == 0 {
        let d = rooms[0].current_drawer.unwrap();
        assert(rooms[0].player_ids().contains(d));
    } else {
        lemma_round_ends_follow_turns(rooms, i - 1);
        let before = rooms[i - 1];
        let after = rooms[i];
        assert(turn_moved(before, after));
        let t = turn_after(before.drawer_index(), n, before.cycle_number);
        assert(before.players@.len() == n) by {
            assert(before.player_ids().len() == rooms[0].player_ids().len());
        }
        assert(0 <= t.0 < n);
        assert(after.player_ids()[t.0] == before.players@[t.0].id);
        lemma_index_of_unique(after.player_ids(), t.0);
        assert((i - 1) as nat + 1 == i as nat);
    }
}

/// After as many round ends in a row as there are members, with the game
/// still playing before each, the cycle number has grown by exactly one and
/// the drawer and round number are back where they started (round 1 when the
/// first of them began a cycle).
pub proof fn lemma_cycle_after_round_ends(rooms: Seq<Room>)
    requires
        rooms.len() == rooms[0].players@.len() + 1,
        rooms[0].game_state == GameState::Playing,
        rooms[0].cycle_number < u32::MAX,
        forall|k: int| 0 <= k < rooms.len() ==> (#[trigger] rooms[k]).wf(),
        forall|k: int|
            0 <= k < rooms.len() - 1 ==> (#[trigger] rooms[k]).game_state == GameState::Playing && turn_moved(
                rooms[k],
                rooms[k + 1],
            ),
    ensures
        ({
            let last = rooms[rooms.len() - 1];
            &&& last.cycle_number == rooms[0].cycle_number + 1
            &&& last.round_number == rooms[0].round_number
            &&& last.current_drawer == rooms[0].current_drawer
        }),
{
    let n = rooms[0].players@.len() as int;
    lemma_round_ends_follow_turns(rooms, 0);
    lemma_round_ends_follow_turns(rooms, n);
    lemma_full_rotation(rooms[0].drawer_index(), n, rooms[0].cycle_number);
    let last = rooms[n];
    let before = rooms[n - 1];
    lemma_round_ends_follow_turns(rooms, n - 1);
    assert(turn_moved(before, last));
    assert(last.round_number == last.drawer_index() + 1);
}

/// Whether a tie run starts at index `i` when runs are formed one after the
/// other from index `from`.
pub open spec fn starts_run(s: Seq<i64>, i: int, from: int) -> bool
    decreases s.len() - from,
{
    if from == i {
        true
    } else if from > i || from < 0 || from >= s.len() {
        false
    } else {
        let e = run_end(s, from, from + 1);
        if e <= from || e > s.len() {
            false
        } else {
            starts_run(s, i, e)
        }
    }
}

proof fn lemma_bonuses_suffix(s: Seq<i64>, i: int, from: int, k: int)
    requires
        0 <= from <= i < s.len(),
        starts_run(s, i, from),
        0 <= k < s.len() - i,
    ensures
        bonuses_from(s, from)[(i - from) + k] == bonuses_from(s, i)[k],
    decreases s.len() - from,
{
    if from < i {
        let e = run_end(s, from, from + 1);
        lemma_run_end_bounds_from(s, from, from + 1);
        let head = Seq::new((e - from) as nat, |j: int| rank_bonus(from));
        assert(bonuses_from(s, from) == head + bonuses_from(s, e));
        assert(starts_run(s, i, e));
        assert(e <= i);
        lemma_bonuses_suffix(s, i, e, k);
        lemma_bonuses_from(s, e);
    }
}

/// Tie window, for every tie run: when runs are formed one after the other
/// from the earliest guess, every guess of the run that starts at index `i`
/// gets the bonus of index `i`, and the first guess after the run gets the
/// bonus of the index equal to `i` plus the run's size, where the next run
/// starts.
pub proof fn lemma_tie_runs(times: Seq<i64>, i: int)
    requires
        0 <= i < times.len(),
        starts_run(times, i, 0),
    ensures
        ({
            let b = bonuses_from(times, 0);
            let e = run_end(times, i, i + 1);
            &&& b.len() == times.len()
            &&& forall|j: int| i <= j < e ==> #[trigger] b[j] == rank_bonus(i)
            &&& forall|j: int| i <= j < e ==> times[j] - times[i] <= TIE_WINDOW_MS
            &&& e < times.len() ==> b[e] == rank_bonus(e) && starts_run(times, e, 0)
        }),
{
    let b = bonuses_from(times, 0);
    let e = run_end(times, i, i + 1);
    lemma_bonuses_from(times, 0);
    lemma_bonuses_from(times, i);
    lemma_run_end_range_law(times, i, i + 1);
    let head = Seq::new((e - i) as nat, |j: int| rank_bonus(i));
    assert(bonuses_from(times, i) == head + bonuses_from(times, e));
    assert forall|j: int| i <= j < e implies #[trigger] b[j] == rank_bonus(i) by {
        lemma_bonuses_suffix(times, i, 0, j - i);
    }
    if e < times.len() {
        lemma_bonuses_suffix(times, i, 0, e - i);
        lemma_bonuses_from(times, e);
        lemma_run_end_bounds_from(times, e, e + 1);
        assert(bonuses_from(times, e)[0] == rank_bonus(e));
        lemma_starts_run_next(times, i, 0);
    }
}

proof fn lemma_run_end_range_law(s: Seq<i64>, i: int, j: int)
    requires
        0 <= i < j <= s.len(),
    ensures
        j <= run_end(s, i, j) <= s.len(),
        forall|k: int| j <= k < run_end(s, i, j) ==> s[k] - s[i] <= TIE_WINDOW_MS,
    decreases s.len() - j,
{
    if j < s.len() && s[j] - s[i] <= TIE_WINDOW_MS {
        lemma_run_end_range_law(s, i, j + 1);
    }
}

proof fn lemma_starts_run_next(s: Seq<i64>, i: int, from: int)
    requires
        0 <= from <= i < s.len(),
        starts_run(s, i, from),
        run_end(s, i, i + 1) < s.len(),
    ensures
        starts_run(s, run_end(s, i, i + 1), from),
    decreases s.len() - from,
{
    lemma_run_end_bounds_from(s, i, i + 1);
    let e = run_end(s, from, from + 1);
    lemma_run_end_bounds_from(s, from, from + 1);
    if from < i {
        assert(starts_run(s, i, e));
        assert(e <= i);
        lemma_starts_run_next(s, i, e);
    } else {
        assert(starts_run(s, e, e));
    }
}

proof fn lemma_find_from(s: Seq<i64>, t: i64, i: int)
    requires
        0 <= i <= s.len(),
        exists|j: int| i <= j < s.len() && s[j] == t,
    ensures
        i <= find_from(s, t, i) < s.len(),
        s[find_from(s, t, i)] == t,
    decreases s.len() - i,
{
    if s[i] != t {
        let j = choose|j: int| i <= j < s.len() && s[j] == t;
        assert(j != i);
        lemma_find_from(s, t, i + 1);
    }
}

/// Each correct guess scores its time score plus the bonus that the rank
/// bonuses give, in ascending time order, to the first guess made at its
/// time (all guesses made at one time share a tie run).
pub proof fn lemma_guess_bonus_in_time_order(gs: Seq<Guess>, round_duration: u32, k: int)
    requires
        0 <= k < gs.len(),
    ensures
        ({
            let sorted = isort(guess_times(gs));
            let p = find_from(sorted, gs[k].timestamp_ms, 0);
            &&& ascending(sorted)
            &&& 0 <= p < sorted.len()
            &&& sorted[p] == gs[k].timestamp_ms
            &&& guesser_score(gs, round_duration, k) == time_score(gs[k].time_remaining, round_duration)
                + bonuses_from(sorted, 0)[p]
        }),
{
    let ts = guess_times(gs);
    let sorted = isort(ts);
    let t = gs[k].timestamp_ms;
    lemma_isort(ts, 0, 0);
    lemma_isort_permutes(ts);
    ts.to_multiset_ensures();
    sorted.to_multiset_ensures();
    assert(ts[k] == t);
    assert(ts.contains(t));
    assert(ts.to_multiset().count(t) > 0);
    assert(sorted.to_multiset() == ts.to_multiset());
    assert(sorted.to_multiset().count(t) > 0);
    assert(sorted.contains(t));
    let j = choose|j: int| 0 <= j < sorted.len() && sorted[j] == t;
    lemma_find_from(sorted, t, 0);
    lemma_bonuses_from(sorted, 0);
    let p = find_from(sorted, t, 0);
    assert(bonuses_from(sorted, 0)[p] <= 100);
    crate::scoring::lemma_time_score_bounds(gs[k].time_remaining, round_duration);
}
} // verus!
