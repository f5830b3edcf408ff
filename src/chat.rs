//! Guess adjudication, the chat ring and the per-recipient view of a room.
use vstd::prelude::*;
use crate::models::{ChatMessage, GameState, Guess};
use crate::room::{guessers_of, Room, CHAT_CAPACITY};
use crate::text::{guess_matches, lower_of, trimmed};

verus! {

/// Where a chat line goes.
#[derive(Debug, Clone, Copy, PartialEq, Eq, Structural)]
pub enum ChatRoute {
    /// From the artist or a player who already guessed: kept as winners-only chat.
    WinnersOnly,
    /// Names the word: recorded as a correct guess, never shown as chat.
    CorrectGuess,
    /// Ordinary public chat.
    Public,
}

/// Outcome of a correct guess.
#[derive(Debug, Clone, Copy, PartialEq, Eq, Structural)]
pub enum GuessOutcome {
    /// Not recorded: no round in flight, not a member, or already a winner.
    Ignored,
    /// Recorded; other players are still guessing.
    Recorded,
    /// Recorded, and every player but the artist has now guessed.
    AllGuessed,
}

/// The chat ring after appending `msg`: the oldest line leaves once the ring
/// would exceed its capacity.
pub open spec fn ring_push(chat: Seq<ChatMessage>, msg: ChatMessage) -> Seq<ChatMessage> {
    let s = chat.push(msg);
    if s.len() > CHAT_CAPACITY {
        s.drop_first()
    } else {
        s
    }
}

/// Whole seconds left in a round of `round_duration` seconds that started at
/// `start` (or now, when unknown), at `now_ms`; never negative.
pub open spec fn remaining_seconds(round_duration: u32, start: Option<i64>, now_ms: i64) -> u32 {
    let elapsed: int = match start {
        Some(s) => if now_ms <= s {
            0
        } else {
            (now_ms - s) / 1000
        },
        None => 0,
    };
    if elapsed >= round_duration {
        0
    } else {
        (round_duration - elapsed) as u32
    }
}

/// Chat lines everyone may see: all but the winners-only ones, in order.
pub open spec fn public_lines(s: Seq<ChatMessage>) -> Seq<ChatMessage>
    decreases s.len(),
{
    if s.len() == 0 {
        s
    } else if s.last().is_winners_only {
        public_lines(s.drop_last())
    } else {
        public_lines(s.drop_last()).push(s.last())
    }
}

/// No public line is winners-only.
pub proof fn lemma_public_lines(s: Seq<ChatMessage>)
    ensures
        forall|i: int| 0 <= i < public_lines(s).len() ==> !(#[trigger] public_lines(s)[i]).is_winners_only,
    decreases s.len(),
{
    if s.len() > 0 {
        let t = s.drop_last();
        lemma_public_lines(t);
        let p = public_lines(s);
        assert forall|i: int| 0 <= i < p.len() implies !(#[trigger] p[i]).is_winners_only by {
            if !s.last().is_winners_only && i == p.len() - 1 {
                assert(p[i] == s.last());
            } else {
                assert(p[i] == public_lines(t)[i]);
            }
        }
    }
}

/// The chat lines of `chat` that everyone may see.
pub fn public_chat(chat: &Vec<ChatMessage>) -> (r: Vec<ChatMessage>)
    ensures
        r@ == public_lines(chat@),
{
    let mut r: Vec<ChatMessage> = Vec::new();
    let mut k: usize = 0;
    while k < chat.len()
        invariant
            0 <= k <= chat@.len(),
            r@ == public_lines(chat@.subrange(0, k as int)),
        decreases chat@.len() - k,
    {
        assert(chat@.subrange(0, k + 1).drop_last() =~= chat@.subrange(0, k as int));
        if !chat[k].is_winners_only {
            r.push(chat[k].clone());
        }
        k = k + 1;
    }
    assert(chat@.subrange(0, chat@.len() as int) =~= chat@);
    r
}

impl Room {
    /// Appends a chat line, dropping the oldest once more than
    /// `CHAT_CAPACITY` are held.
    pub fn push_chat(&mut self, msg: ChatMessage)
        requires
            old(self).wf(),
        ensures
            final(self).wf(),
            final(self).chat_messages@ == ring_push(old(self).chat_messages@, msg),
            *final(self) == (Room { chat_messages: final(self).chat_messages, ..*old(self) }),
    {
        self.chat_messages.push(msg);
        if self.chat_messages.len() > CHAT_CAPACITY {
            self.chat_messages.remove(0);
            assert(self.chat_messages@ =~= old(self).chat_messages@.push(msg).drop_first());
        }
    }

    /// Whether `id` may see the word and winners-only chat.
    pub fn is_player_winner(&self, id: u128) -> (r: bool)
        ensures
            r == self.is_winner(id),
    {
        match self.current_drawer {
            Some(d) => if d == id {
                return true;
            },
            None => {},
        }
        let mut k: usize = 0;
        while k < self.winners.len()
            invariant
                0 <= k <= self.winners@.len(),
                forall|i: int| 0 <= i < k ==> self.winners@[i] != id,
            decreases self.winners@.len() - k,
        {
            if self.winners[k] == id {
                return true;
            }
            k = k + 1;
        }
        false
    }

    /// Route of a chat line from `player_id`, given whether its text names the
    /// word: winners' lines stay among winners; a line naming a set word is a
    /// correct guess; anything else is public chat.
    pub open spec fn route(&self, player_id: u128, names_word: bool) -> ChatRoute {
        if self.is_winner(player_id) {
            ChatRoute::WinnersOnly
        } else if self.word is Some && names_word {
            ChatRoute::CorrectGuess
        } else {
            ChatRoute::Public
        }
    }

    /// Decides where a chat line goes, given whether its text names the word.
    pub fn route_chat(&self, player_id: u128, names_word: bool) -> (r: ChatRoute)
        ensures
            r == self.route(player_id, names_word),
    {
        if self.is_player_winner(player_id) {
            ChatRoute::WinnersOnly
        } else if self.word.is_some() && names_word {
            ChatRoute::CorrectGuess
        } else {
            ChatRoute::Public
        }
    }

    /// Classifies a chat line: it names the word when the two, trimmed, are
    /// equal without regard to case.
    pub fn classify_chat(&self, player_id: u128, text: &str) -> (r: ChatRoute)
        ensures
            r == self.route(
                player_id,
                match self.word {
                    Some(w) => lower_of(trimmed(text@)) == lower_of(trimmed(w@)),
                    None => false,
                },
            ),
    {
        let names_word = match &self.word {
            Some(w) => guess_matches(text, w.as_str()),
            None => false,
        };
        self.route_chat(player_id, names_word)
    }

    /// Whether a correct guess by `player_id` would be recorded.
    pub open spec fn accepts_guess(&self, player_id: u128) -> bool {
        &&& self.game_state == GameState::Playing
        &&& self.word is Some
        &&& self.has_player(player_id)
        &&& !self.is_winner(player_id)
    }

    /// Records a correct guess by `player_id` with the text as typed. Ignored
    /// unless a game is playing with a word set and the player is a member who
    /// is not yet a winner. The guess is stamped with the seconds left at
    /// `now_ms`, and the player joins the winners.
    pub fn record_correct_guess(
        &mut self,
        player_id: u128,
        username: String,
        text: String,
        now_ms: i64,
    ) -> (r: GuessOutcome)
        requires
            old(self).wf(),
        ensures
            final(self).wf(),
            !old(self).accepts_guess(player_id) ==> r == GuessOutcome::Ignored && *final(self) == *old(self),
            old(self).accepts_guess(player_id) ==> {
                &&& final(self).current_round_guesses@ == old(self).current_round_guesses@.push(
                    Guess {
                        player_id,
                        username,
                        word: text,
                        timestamp_ms: now_ms,
                        time_remaining: remaining_seconds(
                            old(self).round_duration,
                            old(self).round_start_ms,
                            now_ms,
                        ),
                    },
                )
                &&& final(self).winners@ == old(self).winners@.push(player_id)
                &&& *final(self) == (Room {
                    current_round_guesses: final(self).current_round_guesses,
                    winners: final(self).winners,
                    ..*old(self)
                })
                &&& r == if final(self).current_round_guesses@.len() + 1 >= old(self).players@.len() {
                    GuessOutcome::AllGuessed
                } else {
                    GuessOutcome::Recorded
                }
            },
    {
        match self.game_state {
            GameState::Playing => {},
            _ => {
                return GuessOutcome::Ignored;
            },
        }
        if self.word.is_none() || !self.is_member(player_id) || self.is_player_winner(player_id) {
            return GuessOutcome::Ignored;
        }
        let elapsed: i128 = match self.round_start_ms {
            Some(s) => if now_ms <= s {
                0
            } else {
                (now_ms as i128 - s as i128) / 1000
            },
            None => 0,
        };
        let time_remaining: u32 = if elapsed >= self.round_duration as i128 {
            0
        } else {
            (self.round_duration as i128 - elapsed) as u32
        };
        let ghost before = *self;
        let guess = Guess { player_id, username, word: text, timestamp_ms: now_ms, time_remaining };
        self.current_round_guesses.push(guess);
        self.winners.push(player_id);
        proof {
            let gs = self.current_round_guesses@;
            assert(guessers_of(gs) =~= guessers_of(before.current_round_guesses@).push(player_id));
            assert(self.winners@[self.winners@.len() - 1] == player_id);
            assert forall|x: u128| before.winners@.contains(x) implies self.winners@.contains(x) by {
                let i = choose|i: int| 0 <= i < before.winners@.len() && before.winners@[i] == x;
                assert(self.winners@[i] == x);
            }
            assert forall|i: int| 0 <= i < guessers_of(before.current_round_guesses@).len() implies
                guessers_of(before.current_round_guesses@)[i] != player_id by {
                assert(before.winners@.contains(before.current_round_guesses@[i].player_id));
            }
            assert forall|k: int| 0 <= k < gs.len() implies {
                let g = #[trigger] gs[k].player_id;
                &&& self.has_player(g)
                &&& self.winners@.contains(g)
                &&& self.current_drawer != Some(g)
            } by {
                if k < before.current_round_guesses@.len() {
                    assert(gs[k] == before.current_round_guesses@[k]);
                }
            }
        }
        if self.current_round_guesses.len() >= self.players.len() - 1 {
            GuessOutcome::AllGuessed
        } else {
            GuessOutcome::Recorded
        }
    }

    /// What `viewer` may see of the room: winners see all of it; anyone else
    /// sees no word and no winners-only chat.
    pub fn view_for(self, viewer: u128) -> (r: Room)
        ensures
            self.is_winner(viewer) ==> r == self,
            !self.is_winner(viewer) ==> {
                &&& r.word is None
                &&& r.chat_messages@ == public_lines(self.chat_messages@)
                &&& r == (Room { word: None, chat_messages: r.chat_messages, ..self })
            },
    {
        if self.is_player_winner(viewer) {
            return self;
        }
        let chat = public_chat(&self.chat_messages);
        Room { word: None, chat_messages: chat, ..self }
    }
}

} // verus!
