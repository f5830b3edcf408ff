//! The game lifecycle: starting a game, choosing the word, the round
//! deadline, crediting scores and rotating the drawer through cycles.
use vstd::prelude::*;
use crate::models::{DrawPath, GameState, Guess, Player, RoundScores};
use crate::room::{guessers_of, lemma_index_of_unique, Room, RoomError, MIN_PLAYERS_TO_START};
use crate::scoring::{
    calculate_round_scores, earns_streak, next_streak, scores_of_round, should_increment_artist_streak,
    update_artist_streak,
};

verus! {

/// Round deadline: `round_duration` seconds after `now_ms`, saturating.
pub open spec fn deadline(now_ms: i64, round_duration: u32) -> i64 {
    if now_ms + round_duration * 1000 <= i64::MAX {
        (now_ms + round_duration * 1000) as i64
    } else {
        i64::MAX
    }
}

/// `a + 1`, saturating at `u32::MAX`.
pub open spec fn sat_inc(a: u32) -> u32 {
    if a == u32::MAX {
        a
    } else {
        (a + 1) as u32
    }
}

/// The turn after the drawer at join-order position `idx` among `n` members
/// in cycle `cycle`: the next position, wrapping to the first member, and the
/// cycle, which advances (saturating) exactly on the wrap.
pub open spec fn turn_after(idx: int, n: int, cycle: u32) -> (int, u32) {
    let next = (idx + 1) % n;
    (next, if next == 0 {
        sat_inc(cycle)
    } else {
        cycle
    })
}

/// How ending a round moves the turn: the same members in the same order, the
/// drawer and round number advance as `turn_after` says, and the game is
/// finished exactly when the cycle number has passed `max_rounds`.
pub open spec fn turn_moved(before: Room, after: Room) -> bool {
    let t = turn_after(before.drawer_index(), before.players@.len() as int, before.cycle_number);
    &&& after.player_ids() == before.player_ids()
    &&& after.current_drawer == Some(before.players@[t.0].id)
    &&& after.round_number == t.0 + 1
    &&& after.cycle_number == t.1
    &&& after.max_rounds == before.max_rounds
    &&& after.game_state == if t.1 > before.max_rounds {
        GameState::Finished
    } else {
        GameState::Playing
    }
}

/// `a + b`, saturating at `u32::MAX`.
pub open spec fn capped(a: u32, b: int) -> u32 {
    if a + b > u32::MAX {
        u32::MAX
    } else {
        (a + b) as u32
    }
}

proof fn lemma_capped_add(a: u32, p: int, x: int)
    requires
        p >= 0,
        x >= 0,
    ensures
        capped(capped(a, p), x) == capped(a, p + x),
{
}

/// Sum of the scores listed for `id`.
pub open spec fn points_for(s: Seq<(u128, u32)>, id: u128) -> int
    decreases s.len(),
{
    if s.len() == 0 {
        0
    } else {
        points_for(s.drop_last(), id) + if s.last().0 == id {
            s.last().1 as int
        } else {
            0
        }
    }
}

proof fn lemma_points_nonneg(s: Seq<(u128, u32)>, id: u128)
    ensures
        points_for(s, id) >= 0,
    decreases s.len(),
{
    if s.len() > 0 {
        lemma_points_nonneg(s.drop_last(), id);
    }
}

/// Number of players who can guess in a room of `n` members: all but the artist.
pub open spec fn potential_of(n: int) -> u32 {
    if n == 0 {
        0
    } else if n - 1 > u32::MAX {
        u32::MAX
    } else {
        (n - 1) as u32
    }
}

/// A member after a round's scores are credited.
pub open spec fn scored_player(p: Player, scores: RoundScores, drawer: Option<u128>, potential: u32) -> Player {
    let points = points_for(scores.guesser_scores@, p.id);
    if drawer == Some(p.id) {
        Player {
            score: capped(p.score, points + scores.artist_score),
            artist_streak: next_streak(
                p.artist_streak,
                earns_streak(scores.correct_guesses@, scores.round_duration, potential),
            ),
            ..p
        }
    } else {
        Player { score: capped(p.score, points), ..p }
    }
}

impl Room {
    /// Starts a game: the first member by join order draws round 1 of cycle 1
    /// and no word is chosen yet. Needs at least two members.
    pub fn start_game(&mut self) -> (r: Result<u128, RoomError>)
        requires
            old(self).wf(),
        ensures
            final(self).wf(),
            old(self).players@.len() < MIN_PLAYERS_TO_START ==> r == Err::<u128, RoomError>(RoomError::NotEnoughPlayers)
                && *final(self) == *old(self),
            old(self).players@.len() >= MIN_PLAYERS_TO_START ==> {
                let d = old(self).players@[0].id;
                &&& r == Ok::<u128, RoomError>(d)
                &&& final(self).game_state == GameState::Playing
                &&& final(self).current_drawer == Some(d)
                &&& final(self).word is None
                &&& final(self).round_number == 1
                &&& final(self).cycle_number == 1
                &&& final(self).round_start_ms is None
                &&& final(self).round_end_ms is None
                &&& final(self).winners@ == seq![d]
                &&& final(self).current_round_guesses@.len() == 0
                &&& final(self).drawing_paths@.len() == 0
                &&& *final(self) == (Room {
                    game_state: GameState::Playing,
                    current_drawer: Some(d),
                    word: None,
                    round_number: 1,
                    cycle_number: 1,
                    round_start_ms: None,
                    round_end_ms: None,
                    winners: final(self).winners,
                    current_round_guesses: final(self).current_round_guesses,
                    drawing_paths: final(self).drawing_paths,
                    ..*old(self)
                })
            },
    {
        if self.players.len() < MIN_PLAYERS_TO_START {
            return Err(RoomError::NotEnoughPlayers);
        }
        let d = self.players[0].id;
        self.game_state = GameState::Playing;
        self.word = None;
        self.current_drawer = Some(d);
        self.round_number = 1;
        self.cycle_number = 1;
        self.round_start_ms = None;
        self.round_end_ms = None;
        self.winners = Vec::new();
        self.winners.push(d);
        self.current_round_guesses = Vec::new();
        self.drawing_paths = Vec::new();
        proof {
            assert(self.player_ids()[0] == d);
            lemma_index_of_unique(self.player_ids(), 0);
            assert(self.winners@[0] == d);
            assert(guessers_of(self.current_round_guesses@) =~= Seq::<u128>::empty());
        }
        Ok(d)
    }

    /// Sets the word of a round in flight and starts its clock. Ignored (and
    /// `false`) unless a game is playing, a drawer is chosen and no word is set.
    pub fn select_word(&mut self, word: String, now_ms: i64) -> (r: bool)
        requires
            old(self).wf(),
        ensures
            final(self).wf(),
            r == (old(self).game_state == GameState::Playing && old(self).current_drawer is Some
                && old(self).word is None),
            !r ==> *final(self) == *old(self),
            r ==> {
                &&& final(self).word == Some(word)
                &&& final(self).round_start_ms == Some(now_ms)
                &&& final(self).round_end_ms == Some(deadline(now_ms, old(self).round_duration))
                &&& *final(self) == (Room {
                    word: final(self).word,
                    round_start_ms: Some(now_ms),
                    round_end_ms: Some(deadline(now_ms, old(self).round_duration)),
                    ..*old(self)
                })
            },
    {
        if self.word.is_some() {
            return false;
        }
        match self.game_state {
            GameState::Playing => {},
            _ => {
                return false;
            },
        }
        if self.current_drawer.is_none() {
            return false;
        }
        let span: i64 = self.round_duration as i64 * 1000;
        let end = match now_ms.checked_add(span) {
            Some(e) => e,
            None => i64::MAX,
        };
        self.word = Some(word);
        self.round_start_ms = Some(now_ms);
        self.round_end_ms = Some(end);
        true
    }

    /// Whether a round deadline scheduled for `drawer` and `word` still applies:
    /// the game is playing with the same drawer and the same word.
    pub fn timer_should_fire(&self, drawer: u128, word: &String) -> (r: bool)
        ensures
            r == (self.game_state == GameState::Playing && self.current_drawer == Some(drawer) && match self.word {
                Some(w) => w@ == word@,
                None => false,
            }),
    {
        match self.game_state {
            GameState::Playing => {},
            _ => {
                return false;
            },
        }
        match self.current_drawer {
            Some(d) => if d != drawer {
                return false;
            },
            None => {
                return false;
            },
        }
        match &self.word {
            Some(w) => *w == *word,
            None => false,
        }
    }

    /// Adds a path of the current round, unless no one is drawing or a path
    /// with the same id is already held.
    pub fn add_draw_path(&mut self, path: DrawPath) -> (r: bool)
        requires
            old(self).wf(),
        ensures
            final(self).wf(),
            r == (old(self).current_drawer is Some && forall|k: int|
                0 <= k < old(self).drawing_paths@.len() ==> #[trigger] old(self).drawing_paths@[k].id != path.id),
            r ==> final(self).drawing_paths@ == old(self).drawing_paths@.push(path),
            r ==> *final(self) == (Room { drawing_paths: final(self).drawing_paths, ..*old(self) }),
            !r ==> *final(self) == *old(self),
    {
        if self.current_drawer.is_none() {
            return false;
        }
        let mut k: usize = 0;
        while k < self.drawing_paths.len()
            invariant
                *self == *old(self),
                self.wf(),
                0 <= k <= self.drawing_paths@.len(),
                forall|i: int| 0 <= i < k ==> #[trigger] self.drawing_paths@[i].id != path.id,
            decreases self.drawing_paths@.len() - k,
        {
            if self.drawing_paths[k].id == path.id {
                return false;
            }
            k = k + 1;
        }
        self.drawing_paths.push(path);
        true
    }

    /// Credits a round's scores: each member gains the points of their guesses,
    /// the artist also gains the artist score and has the streak updated;
    /// scores saturate at `u32::MAX`.
    pub fn apply_round_scores(&mut self, scores: &RoundScores)
        requires
            old(self).wf(),
        ensures
            final(self).wf(),
            final(self).players@.len() == old(self).players@.len(),
            forall|j: int|
                0 <= j < old(self).players@.len() ==> #[trigger] final(self).players@[j] == scored_player(
                    old(self).players@[j],
                    *scores,
                    old(self).current_drawer,
                    potential_of(old(self).players@.len() as int),
                ),
            *final(self) == (Room { players: final(self).players, ..*old(self) }),
    {
        let n = self.players.len();
        let potential: u32 = if n == 0 {
            0
        } else if n - 1 > u32::MAX as usize {
            u32::MAX
        } else {
            (n - 1) as u32
        };
        let earned = should_increment_artist_streak(&scores.correct_guesses, scores.round_duration, potential);
        let mut j: usize = 0;
        while j < n
            invariant
                n == old(self).players@.len(),
                potential == potential_of(n as int),
                earned == earns_streak(scores.correct_guesses@, scores.round_duration, potential),
                0 <= j <= n,
                self.players@.len() == n,
                forall|i: int| 0 <= i < j ==> #[trigger] self.players@[i] == scored_player(
                    old(self).players@[i],
                    *scores,
                    old(self).current_drawer,
                    potential,
                ),
                forall|i: int| j <= i < n ==> #[trigger] self.players@[i] == old(self).players@[i],
                *self == (Room { players: self.players, ..*old(self) }),
            decreases n - j,
        {
            let id = self.players[j].id;
            let base = self.players[j].score;
            let mut acc: u32 = base;
            let mut k: usize = 0;
            while k < scores.guesser_scores.len()
                invariant
                    0 <= k <= scores.guesser_scores@.len(),
                    acc == capped(base, points_for(scores.guesser_scores@.subrange(0, k as int), id)),
                decreases scores.guesser_scores@.len() - k,
            {
                proof {
                    let s = scores.guesser_scores@;
                    assert(s.subrange(0, k + 1).drop_last() =~= s.subrange(0, k as int));
                    lemma_points_nonneg(s.subrange(0, k as int), id);
                    lemma_capped_add(base, points_for(s.subrange(0, k as int), id), s[k as int].1 as int);
                }
                if scores.guesser_scores[k].0 == id {
                    acc = acc.saturating_add(scores.guesser_scores[k].1);
                }
                k = k + 1;
            }
            assert(scores.guesser_scores@.subrange(0, scores.guesser_scores@.len() as int) =~= scores.guesser_scores@);
            let is_artist = match self.current_drawer {
                Some(d) => d == id,
                None => false,
            };
            if is_artist {
                proof {
                    lemma_points_nonneg(scores.guesser_scores@, id);
                    lemma_capped_add(base, points_for(scores.guesser_scores@, id), scores.artist_score as int);
                }
                acc = acc.saturating_add(scores.artist_score);
                let streak = update_artist_streak(self.players[j].artist_streak, earned);
                self.players[j].artist_streak = streak;
            }
            self.players[j].score = acc;
            j = j + 1;
        }
        proof {
            assert(self.player_ids() =~= old(self).player_ids());
        }
    }

    /// Join-order position of the current drawer.
    pub open spec fn drawer_index(&self) -> int {
        self.player_ids().index_of(self.current_drawer.unwrap())
    }

    /// Hands the turn to the next member in join order and clears the round.
    /// Wrapping to the first member begins a new cycle; once the cycle number
    /// exceeds `max_rounds` the game is finished.
    pub fn advance_turn(&mut self)
        requires
            old(self).wf(),
            old(self).game_state == GameState::Playing,
        ensures
            final(self).wf(),
            ({
                let t = turn_after(old(self).drawer_index(), old(self).players@.len() as int, old(self).cycle_number);
                let next = t.0;
                let cycle = t.1;
                &&& final(self).current_drawer == Some(old(self).players@[next].id)
                &&& final(self).round_number == next + 1
                &&& final(self).cycle_number == cycle
                &&& final(self).game_state == if cycle > old(self).max_rounds {
                    GameState::Finished
                } else {
                    GameState::Playing
                }
                &&& final(self).winners@ == seq![old(self).players@[next].id]
            }),
            final(self).word is None,
            final(self).round_start_ms is None,
            final(self).round_end_ms is None,
            final(self).current_round_guesses@.len() == 0,
            final(self).drawing_paths@.len() == 0,
            *final(self) == (Room {
                current_drawer: final(self).current_drawer,
                round_number: final(self).round_number,
                cycle_number: final(self).cycle_number,
                game_state: final(self).game_state,
                winners: final(self).winners,
                word: None,
                round_start_ms: None,
                round_end_ms: None,
                current_round_guesses: final(self).current_round_guesses,
                drawing_paths: final(self).drawing_paths,
                ..*old(self)
            }),
    {
        let d = self.current_drawer.unwrap();
        let idx = match self.position_of(d) {
            Some(i) => i,
            None => {
                proof {
                    assert(false);
                }
                0
            },
        };
        let n = self.players.len();
        // The round number always equals the drawer's position plus one, so
        // it never exceeds the number of members.
        assert(self.round_number as int <= n);
        let next = (idx + 1) % n;
        let next_id = self.players[next].id;
        if next == 0 {
            self.cycle_number = self.cycle_number.saturating_add(1);
        }
        self.round_number = (next + 1) as u32;
        self.current_drawer = Some(next_id);
        self.word = None;
        self.round_start_ms = None;
        self.round_end_ms = None;
        self.current_round_guesses = Vec::new();
        self.drawing_paths = Vec::new();
        self.winners = Vec::new();
        self.winners.push(next_id);
        if self.cycle_number > self.max_rounds {
            self.game_state = GameState::Finished;
        }
        proof {
            assert(self.player_ids()[next as int] == next_id);
            lemma_index_of_unique(self.player_ids(), next as int);
            assert(self.winners@[0] == next_id);
            assert(guessers_of(self.current_round_guesses@) =~= Seq::<u128>::empty());
        }
    }

    /// Ends the round in flight: scores it, credits the scores, and hands the
    /// turn on. Does nothing (and returns `None`) unless a game is playing.
    pub fn end_round(&mut self) -> (r: Option<RoundScores>)
        requires
            old(self).wf(),
        ensures
            final(self).wf(),
            old(self).game_state == GameState::Playing ==> turn_moved(*old(self), *final(self)),
            old(self).game_state != GameState::Playing ==> r is None && *final(self) == *old(self),
            old(self).game_state == GameState::Playing ==> {
                let n = old(self).players@.len();
                let drawer = old(self).players@[old(self).drawer_index()];
                let t = turn_after(old(self).drawer_index(), n as int, old(self).cycle_number);
                let next = t.0;
                let cycle = t.1;
                &&& r is Some
                &&& scores_of_round(
                    r.unwrap(),
                    old(self).round_number,
                    match old(self).word {
                        Some(w) => w@,
                        None => Seq::empty(),
                    },
                    old(self).round_duration,
                    old(self).current_round_guesses@,
                    potential_of(n as int),
                    drawer.artist_streak,
                )
                &&& final(self).players@.len() == n
                &&& forall|j: int|
                    0 <= j < n ==> #[trigger] final(self).players@[j] == scored_player(
                        old(self).players@[j],
                        r.unwrap(),
                        old(self).current_drawer,
                        potential_of(n as int),
                    )
                &&& final(self).current_drawer == Some(old(self).players@[next].id)
                &&& final(self).round_number == next + 1
                &&& final(self).cycle_number == cycle
                &&& final(self).game_state == if cycle > old(self).max_rounds {
                    GameState::Finished
                } else {
                    GameState::Playing
                }
                &&& final(self).winners@ == seq![old(self).players@[next].id]
                &&& final(self).word is None
                &&& final(self).round_start_ms is None
                &&& final(self).round_end_ms is None
                &&& final(self).current_round_guesses@.len() == 0
                &&& final(self).drawing_paths@.len() == 0
                &&& *final(self) == (Room {
                    players: final(self).players,
                    current_drawer: final(self).current_drawer,
                    round_number: final(self).round_number,
                    cycle_number: final(self).cycle_number,
                    game_state: final(self).game_state,
                    winners: final(self).winners,
                    word: None,
                    round_start_ms: None,
                    round_end_ms: None,
                    current_round_guesses: final(self).current_round_guesses,
                    drawing_paths: final(self).drawing_paths,
                    ..*old(self)
                })
            },
    {
        match self.game_state {
            GameState::Playing => {},
            _ => {
                return None;
            },
        }
        let d = self.current_drawer.unwrap();
        let idx = match self.position_of(d) {
            Some(i) => i,
            None => {
                proof {
                    assert(false);
                }
                0
            },
        };
        let n = self.players.len();
        let potential: u32 = if n - 1 > u32::MAX as usize {
            u32::MAX
        } else {
            (n - 1) as u32
        };
        let streak = self.players[idx].artist_streak;
        let word = match &self.word {
            Some(w) => w.clone(),
            None => String::new(),
        };
        let ghost before = *self;
        let mut guesses: Vec<Guess> = Vec::new();
        std::mem::swap(&mut self.current_round_guesses, &mut guesses);
        assert(guessers_of(self.current_round_guesses@) =~= Seq::<u128>::empty());
        let scores = calculate_round_scores(
            self.round_number,
            word.as_str(),
            self.round_duration,
            guesses,
            potential,
            streak,
        );
        let ghost mid = *self;
        self.apply_round_scores(&scores);
        proof {
            assert(self.player_ids() =~= before.player_ids()) by {
                assert forall|j: int| 0 <= j < self.players@.len() implies self.player_ids()[j]
                    == before.player_ids()[j] by {
                    assert(self.players@[j] == scored_player(
                        mid.players@[j],
                        scores,
                        mid.current_drawer,
                        potential,
                    ));
                }
            }
        }
        self.advance_turn();
        Some(scores)
    }
}

} // verus!
