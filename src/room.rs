//! Rooms: their data, their invariant, and membership (joining, leaving,
//! host transfer, settings).
//!
//! Every operation takes a well-formed room (`Room::wf`) to a well-formed room.
use vstd::prelude::*;
use crate::models::{ChatMessage, DrawPath, GameState, Guess, Player};
use crate::round::sat_inc;
use crate::text::same_text;

verus! {

/// Most chat lines a room keeps; older lines are dropped first.
pub const CHAT_CAPACITY: usize = 10;

/// Rounds (full cycles) a new room plays.
pub const DEFAULT_MAX_ROUNDS: u32 = 3;

/// Fewest cycles a host can choose.
pub const MIN_MAX_ROUNDS: u32 = 1;

/// Most cycles a host can choose.
pub const MAX_MAX_ROUNDS: u32 = 5;

/// Players a room needs before a game starts.
pub const MIN_PLAYERS_TO_START: usize = 2;

/// Why a room refused a request.
#[derive(Debug, Clone, Copy, PartialEq, Eq, Structural)]
pub enum RoomError {
    RoomFull,
    UsernameTaken,
    DuplicatePlayer,
    PlayerNotFound,
    NoPlayers,
    NotEnoughPlayers,
}

impl RoomError {
    /// Text shown to clients for this error.
    pub fn message(&self) -> (r: String)
        ensures
            r@ == error_text(*self),
    {
        match self {
            RoomError::RoomFull => "Room is full".to_string(),
            RoomError::UsernameTaken => "Username already taken in this room".to_string(),
            RoomError::DuplicatePlayer => "Player already in this room".to_string(),
            RoomError::PlayerNotFound => "Player not found in room".to_string(),
            RoomError::NoPlayers => "No players available to become host".to_string(),
            RoomError::NotEnoughPlayers => "Need at least 2 players to start".to_string(),
        }
    }
}

/// Client-facing text of each error.
pub open spec fn error_text(e: RoomError) -> Seq<char> {
    match e {
        RoomError::RoomFull => "Room is full"@,
        RoomError::UsernameTaken => "Username already taken in this room"@,
        RoomError::DuplicatePlayer => "Player already in this room"@,
        RoomError::PlayerNotFound => "Player not found in room"@,
        RoomError::NoPlayers => "No players available to become host"@,
        RoomError::NotEnoughPlayers => "Need at least 2 players to start"@,
    }
}

/// A game room.
#[derive(Debug, Clone)]
pub struct Room {
    pub id: u128,
    /// Six upper-case alphanumeric characters, unique in the process.
    pub code: String,
    pub host_id: u128,
    /// Members in join order.
    pub players: Vec<Player>,
    pub current_drawer: Option<u128>,
    pub word: Option<String>,
    /// Position of the current drawer in join order, counted from 1.
    pub round_number: u32,
    /// Number of cycles the game lasts.
    pub max_rounds: u32,
    pub cycle_number: u32,
    /// Seconds a round lasts once its word is chosen.
    pub round_duration: u32,
    pub game_state: GameState,
    pub round_start_ms: Option<i64>,
    pub round_end_ms: Option<i64>,
    /// Paths of the current round only.
    pub drawing_paths: Vec<DrawPath>,
    /// The last `CHAT_CAPACITY` chat lines.
    pub chat_messages: Vec<ChatMessage>,
    pub current_round_guesses: Vec<Guess>,
    /// Players who may see the word: the artist and correct guessers.
    pub winners: Vec<u128>,
    pub max_players: u8,
    pub created_at_ms: i64,
    pub updated_at_ms: i64,
}

/// Ids of a sequence of players.
pub open spec fn ids_of(ps: Seq<Player>) -> Seq<u128> {
    ps.map_values(|p: Player| p.id)
}

/// Player ids of a sequence of guesses.
pub open spec fn guessers_of(gs: Seq<Guess>) -> Seq<u128> {
    gs.map_values(|g: Guess| g.player_id)
}

/// `max_rounds` clamped to the range a host may choose.
pub open spec fn clamp_rounds(max_rounds: u32) -> u32 {
    if max_rounds < MIN_MAX_ROUNDS {
        MIN_MAX_ROUNDS
    } else if max_rounds > MAX_MAX_ROUNDS {
        MAX_MAX_ROUNDS
    } else {
        max_rounds
    }
}

/// In a sequence without duplicates, the position of an element is where it
/// stands.
pub proof fn lemma_index_of_unique<A>(s: Seq<A>, i: int)
    requires
        s.no_duplicates(),
        0 <= i < s.len(),
    ensures
        s.index_of(s[i]) == i,
{
    let j = s.index_of(s[i]);
    assert(0 <= j < s.len() && s[j] == s[i]);
}

/// The guesses of `s` not made by `id`, in order.
pub open spec fn guesses_without(s: Seq<Guess>, id: u128) -> Seq<Guess>
    decreases s.len(),
{
    if s.len() == 0 {
        s
    } else if s.last().player_id == id {
        guesses_without(s.drop_last(), id)
    } else {
        guesses_without(s.drop_last(), id).push(s.last())
    }
}

proof fn lemma_guesses_without(s: Seq<Guess>, id: u128)
    ensures
        forall|i: int|
            0 <= i < guesses_without(s, id).len() ==> (#[trigger] guesses_without(s, id)[i]).player_id != id
                && exists|j: int| 0 <= j < s.len() && s[j] == guesses_without(s, id)[i],
        guessers_of(s).no_duplicates() ==> guessers_of(guesses_without(s, id)).no_duplicates(),
    decreases s.len(),
{
    if s.len() > 0 {
        let t = s.drop_last();
        lemma_guesses_without(t, id);
        let w = guesses_without(t, id);
        let r = guesses_without(s, id);
        assert forall|i: int| 0 <= i < r.len() implies (#[trigger] r[i]).player_id != id && exists|j: int|
            0 <= j < s.len() && s[j] == r[i] by {
            if i < w.len() {
                assert(r[i] == w[i]);
                let j = choose|j: int| 0 <= j < t.len() && t[j] == w[i];
                assert(s[j] == t[j]);
            } else {
                assert(r[i] == s[s.len() - 1]);
            }
        }
        if guessers_of(s).no_duplicates() {
            assert(guessers_of(t).no_duplicates()) by {
                assert forall|i: int, j: int| 0 <= i < j < t.len() implies guessers_of(t)[i] != guessers_of(t)[j] by {
                    assert(guessers_of(s)[i] != guessers_of(s)[j]);
                }
            }
            assert forall|i: int, j: int| 0 <= i < j < r.len() implies guessers_of(r)[i] != guessers_of(r)[j] by {
                if j < w.len() {
                    assert(r[i] == w[i] && r[j] == w[j]);
                    assert(guessers_of(w)[i] != guessers_of(w)[j]);
                } else {
                    assert(r[j] == s[s.len() - 1]);
                    assert(r[i] == w[i]);
                    let m = choose|m: int| 0 <= m < t.len() && t[m] == w[i];
                    assert(guessers_of(s)[m] != guessers_of(s)[s.len() - 1]);
                }
            }
        }
    }
}

proof fn lemma_ids_after_remove(ps: Seq<Player>, k: int)
    requires
        0 <= k < ps.len(),
        ids_of(ps).no_duplicates(),
    ensures
        ids_of(ps.remove(k)) == ids_of(ps).remove(k),
        ids_of(ps.remove(k)).no_duplicates(),
        forall|x: u128| ids_of(ps).contains(x) && x != ps[k].id ==> ids_of(ps.remove(k)).contains(x),
        forall|i: int| 0 <= i < k ==> ids_of(ps.remove(k))[i] == ids_of(ps)[i],
        forall|i: int| k < i < ps.len() ==> ids_of(ps.remove(k))[i - 1] == ids_of(ps)[i],
{
    let ids = ids_of(ps);
    let r = ids_of(ps.remove(k));
    assert(r =~= ids.remove(k));
    assert forall|i: int, j: int| 0 <= i < j < r.len() implies r[i] != r[j] by {
        let i2 = if i < k { i } else { i + 1 };
        let j2 = if j < k { j } else { j + 1 };
        assert(r[i] == ids[i2] && r[j] == ids[j2]);
    }
    assert forall|x: u128| ids.contains(x) && x != ps[k].id implies r.contains(x) by {
        let i = choose|i: int| 0 <= i < ids.len() && ids[i] == x;
        if i < k {
            assert(r[i] == x);
        } else {
            assert(i != k);
            assert(r[i - 1] == x);
        }
    }
}

/// What a member's departure did besides removing them.
#[derive(Debug)]
pub struct Departure {
    /// The member who left.
    pub player: Player,
    /// No one is left; the room can be discarded.
    pub room_empty: bool,
    /// The leaver was host and the earliest-joined remaining member took over.
    pub host_changed: bool,
    /// The leaver was drawing; the turn passed to the next member.
    pub turn_passed: bool,
}

impl Room {
    /// Ids of the members, in join order.
    pub open spec fn player_ids(&self) -> Seq<u128> {
        ids_of(self.players@)
    }

    /// Whether `id` is a member.
    pub open spec fn has_player(&self, id: u128) -> bool {
        self.player_ids().contains(id)
    }

    /// Whether `id` may see the word: the artist or a player in `winners`.
    pub open spec fn is_winner(&self, id: u128) -> bool {
        self.current_drawer == Some(id) || self.winners@.contains(id)
    }

    /// The room's invariant.
    pub open spec fn wf(&self) -> bool {
        &&& self.player_ids().no_duplicates()
        &&& self.players@.len() <= self.max_players
        &&& self.chat_messages@.len() <= CHAT_CAPACITY
        &&& self.players@.len() > 0 ==> self.has_player(self.host_id)
        &&& self.cycle_number >= 1
        &&& MIN_MAX_ROUNDS <= self.max_rounds <= MAX_MAX_ROUNDS
        &&& self.current_drawer matches Some(d) ==> self.winners@.contains(d)
        &&& self.game_state == GameState::Playing ==> {
            &&& self.current_drawer is Some
            &&& self.has_player(self.current_drawer.unwrap())
            &&& self.winners@.contains(self.current_drawer.unwrap())
            &&& self.round_number == self.player_ids().index_of(self.current_drawer.unwrap()) + 1
        }
        &&& self.current_round_guesses@.len() > 0 ==> self.game_state == GameState::Playing
        &&& forall|k: int|
            0 <= k < self.current_round_guesses@.len() ==> {
                let g = #[trigger] self.current_round_guesses@[k].player_id;
                &&& self.has_player(g)
                &&& self.winners@.contains(g)
                &&& self.current_drawer != Some(g)
            }
        &&& guessers_of(self.current_round_guesses@).no_duplicates()
    }

    /// A new, empty room waiting for players.
    pub fn new(
        id: u128,
        code: String,
        round_duration: u32,
        max_players: u8,
        host_id: u128,
        now_ms: i64,
    ) -> (r: Room)
        ensures
            r.wf(),
            r.id == id,
            r.code == code,
            r.host_id == host_id,
            r.players@.len() == 0,
            r.current_drawer is None,
            r.word is None,
            r.round_number == 0,
            r.max_rounds == DEFAULT_MAX_ROUNDS,
            r.cycle_number == 1,
            r.round_duration == round_duration,
            r.game_state == GameState::Waiting,
            r.round_start_ms is None,
            r.round_end_ms is None,
            r.drawing_paths@.len() == 0,
            r.chat_messages@.len() == 0,
            r.current_round_guesses@.len() == 0,
            r.winners@.len() == 0,
            r.max_players == max_players,
            r.created_at_ms == now_ms,
            r.updated_at_ms == now_ms,
    {
        let r = Room {
            id,
            code,
            host_id,
            players: Vec::new(),
            current_drawer: None,
            word: None,
            round_number: 0,
            max_rounds: DEFAULT_MAX_ROUNDS,
            cycle_number: 1,
            round_duration,
            game_state: GameState::Waiting,
            round_start_ms: None,
            round_end_ms: None,
            drawing_paths: Vec::new(),
            chat_messages: Vec::new(),
            current_round_guesses: Vec::new(),
            winners: Vec::new(),
            max_players,
            created_at_ms: now_ms,
            updated_at_ms: now_ms,
        };
        assert(r.player_ids() =~= Seq::<u128>::empty());
        assert(guessers_of(r.current_round_guesses@) =~= Seq::<u128>::empty());
        r
    }

    /// Whether some member has the given username (exact, case-sensitive).
    pub open spec fn username_taken(&self, name: Seq<char>) -> bool {
        exists|k: int| 0 <= k < self.players@.len() && #[trigger] self.players@[k].username@ == name
    }

    /// Adds a player, who becomes host of an empty room. Refused when the room
    /// is full, the username is taken, or the id is already a member.
    pub fn add_player(&mut self, player: Player, now_ms: i64) -> (r: Result<(), RoomError>)
        requires
            old(self).wf(),
        ensures
            final(self).wf(),
            old(self).players@.len() >= old(self).max_players ==> r == Err::<(), RoomError>(RoomError::RoomFull),
            old(self).players@.len() < old(self).max_players && old(self).username_taken(player.username@)
                ==> r == Err::<(), RoomError>(RoomError::UsernameTaken),
            old(self).players@.len() < old(self).max_players && !old(self).username_taken(player.username@)
                && old(self).has_player(player.id) ==> r == Err::<(), RoomError>(RoomError::DuplicatePlayer),
            r is Ok <==> (old(self).players@.len() < old(self).max_players && !old(self).username_taken(
                player.username@,
            ) && !old(self).has_player(player.id)),
            r is Err ==> *final(self) == *old(self),
            r is Ok ==> {
                &&& final(self).players@ == old(self).players@.push(player)
                &&& final(self).host_id == if old(self).players@.len() == 0 {
                    player.id
                } else {
                    old(self).host_id
                }
                &&& *final(self) == (Room {
                    players: final(self).players,
                    host_id: final(self).host_id,
                    updated_at_ms: now_ms,
                    ..*old(self)
                })
            },
    {
        if self.players.len() >= self.max_players as usize {
            return Err(RoomError::RoomFull);
        }
        let mut k: usize = 0;
        while k < self.players.len()
            invariant
                *self == *old(self),
                self.wf(),
                self.players@.len() < self.max_players,
                0 <= k <= self.players@.len(),
                forall|i: int| 0 <= i < k ==> #[trigger] self.players@[i].username@ != player.username@,
            decreases self.players@.len() - k,
        {
            if self.players[k].username == player.username {
                return Err(RoomError::UsernameTaken);
            }
            k = k + 1;
        }
        let mut k: usize = 0;
        while k < self.players.len()
            invariant
                *self == *old(self),
                self.wf(),
                self.players@.len() < self.max_players,
                !self.username_taken(player.username@),
                0 <= k <= self.players@.len(),
                forall|i: int| 0 <= i < k ==> #[trigger] self.player_ids()[i] != player.id,
            decreases self.players@.len() - k,
        {
            if self.players[k].id == player.id {
                assert(self.player_ids()[k as int] == player.id);
                return Err(RoomError::DuplicatePlayer);
            }
            k = k + 1;
        }
        assert(!self.has_player(player.id));
        let ghost before = *self;
        let was_empty = self.players.len() == 0;
        let pid = player.id;
        self.players.push(player);
        if was_empty {
            self.host_id = pid;
        }
        self.updated_at_ms = now_ms;
        proof {
            assert(self.player_ids() =~= before.player_ids().push(pid));
            if before.game_state == GameState::Playing {
                let d = before.current_drawer.unwrap();
                let i = before.player_ids().index_of(d);
                assert(self.player_ids()[i] == d);
                lemma_index_of_unique(self.player_ids(), i);
            }
            assert forall|k: int| 0 <= k < self.current_round_guesses@.len() implies #[trigger] self.has_player(
                self.current_round_guesses@[k].player_id,
            ) by {
                let g = self.current_round_guesses@[k].player_id;
                assert(before.has_player(g));
                let i = choose|i: int| 0 <= i < before.player_ids().len() && before.player_ids()[i] == g;
                assert(self.player_ids()[i] == g);
            }
            if before.players@.len() > 0 {
                let i = choose|i: int|
                    0 <= i < before.player_ids().len() && before.player_ids()[i] == before.host_id;
                assert(self.player_ids()[i] == before.host_id);
            } else {
                assert(self.player_ids()[0] == pid);
            }
        }
        Ok(())
    }

    /// Whether `id` is a member.
    pub fn is_member(&self, id: u128) -> (r: bool)
        ensures
            r == self.has_player(id),
    {
        self.position_of(id).is_some()
    }

    /// Join-order position of member `id`.
    pub fn position_of(&self, id: u128) -> (r: Option<usize>)
        ensures
            r is None <==> !self.has_player(id),
            r matches Some(k) ==> k < self.players@.len() && self.players@[k as int].id == id,
            r matches Some(k) ==> (self.player_ids().no_duplicates() ==> k == self.player_ids().index_of(id)),
    {
        let mut k: usize = 0;
        while k < self.players.len()
            invariant
                0 <= k <= self.players@.len(),
                forall|i: int| 0 <= i < k ==> #[trigger] self.player_ids()[i] != id,
            decreases self.players@.len() - k,
        {
            if self.players[k].id == id {
                proof {
                    assert(self.player_ids()[k as int] == id);
                    if self.player_ids().no_duplicates() {
                        lemma_index_of_unique(self.player_ids(), k as int);
                    }
                }
                return Some(k);
            }
            k = k + 1;
        }
        None
    }

    /// Sets the number of cycles, clamped to `MIN_MAX_ROUNDS..=MAX_MAX_ROUNDS`,
    /// when the host asks; anyone else is ignored (and gets `false`).
    pub fn update_settings(&mut self, requester: u128, max_rounds: u32) -> (r: bool)
        requires
            old(self).wf(),
        ensures
            final(self).wf(),
            r == (requester == old(self).host_id),
            r ==> *final(self) == (Room { max_rounds: clamp_rounds(max_rounds), ..*old(self) }),
            !r ==> *final(self) == *old(self),
    {
        if requester != self.host_id {
            return false;
        }
        let clamped = if max_rounds < MIN_MAX_ROUNDS {
            MIN_MAX_ROUNDS
        } else if max_rounds > MAX_MAX_ROUNDS {
            MAX_MAX_ROUNDS
        } else {
            max_rounds
        };
        self.max_rounds = clamped;
        true
    }

    /// Makes the earliest-joined member host.
    pub fn transfer_host_ownership(&mut self, now_ms: i64) -> (r: Result<u128, RoomError>)
        requires
            old(self).wf(),
        ensures
            final(self).wf(),
            old(self).players@.len() == 0 ==> r == Err::<u128, RoomError>(RoomError::NoPlayers) && *final(self)
                == *old(self),
            old(self).players@.len() > 0 ==> {
                &&& r == Ok::<u128, RoomError>(old(self).players@[0].id)
                &&& *final(self) == (Room {
                    host_id: old(self).players@[0].id,
                    updated_at_ms: now_ms,
                    ..*old(self)
                })
            },
    {
        if self.players.len() == 0 {
            return Err(RoomError::NoPlayers);
        }
        let h = self.players[0].id;
        self.host_id = h;
        self.updated_at_ms = now_ms;
        assert(self.player_ids()[0] == h);
        Ok(h)
    }

    /// Removes member `player_id`. A room left empty holds no game. Otherwise
    /// the earliest-joined member becomes host if the host left, the leaver's
    /// guess is dropped, and if the leaver was drawing the turn passes to the
    /// member after them, as at the end of a round but without scoring.
    pub fn remove_player(&mut self, player_id: u128, now_ms: i64) -> (r: Result<Departure, RoomError>)
        requires
            old(self).wf(),
        ensures
            final(self).wf(),
            r is Err <==> !old(self).has_player(player_id),
            r is Err ==> r == Err::<Departure, RoomError>(RoomError::PlayerNotFound) && *final(self) == *old(self),
            r matches Ok(dep) ==> {
                let k = old(self).player_ids().index_of(player_id);
                let n = old(self).players@.len() - 1;
                &&& dep.player == old(self).players@[k]
                &&& dep.room_empty == (n == 0)
                &&& dep.host_changed == (n > 0 && old(self).host_id == player_id)
                &&& final(self).players@ == old(self).players@.remove(k)
                &&& final(self).host_id == if n > 0 && old(self).host_id == player_id {
                    final(self).players@[0].id
                } else {
                    old(self).host_id
                }
                &&& *final(self) == (Room {
                    players: final(self).players,
                    host_id: final(self).host_id,
                    updated_at_ms: now_ms,
                    game_state: final(self).game_state,
                    current_drawer: final(self).current_drawer,
                    word: final(self).word,
                    round_number: final(self).round_number,
                    cycle_number: final(self).cycle_number,
                    round_start_ms: final(self).round_start_ms,
                    round_end_ms: final(self).round_end_ms,
                    current_round_guesses: final(self).current_round_guesses,
                    drawing_paths: final(self).drawing_paths,
                    winners: final(self).winners,
                    ..*old(self)
                })
                &&& n == 0 ==> {
                    &&& final(self).game_state == GameState::Waiting
                    &&& final(self).current_drawer is None
                    &&& final(self).word is None
                    &&& final(self).round_number == 0
                    &&& final(self).cycle_number == old(self).cycle_number
                    &&& final(self).round_start_ms is None
                    &&& final(self).round_end_ms is None
                    &&& final(self).current_round_guesses@.len() == 0
                    &&& final(self).winners@.len() == 0
                    &&& final(self).drawing_paths@.len() == 0
                    &&& !dep.turn_passed
                }
                &&& n > 0 && old(self).game_state != GameState::Playing ==> {
                    &&& final(self).game_state == old(self).game_state
                    &&& final(self).current_drawer == old(self).current_drawer
                    &&& final(self).word == old(self).word
                    &&& final(self).round_number == old(self).round_number
                    &&& final(self).cycle_number == old(self).cycle_number
                    &&& final(self).winners == old(self).winners
                    &&& final(self).current_round_guesses@ == old(self).current_round_guesses@
                    &&& final(self).round_start_ms == old(self).round_start_ms
                    &&& final(self).round_end_ms == old(self).round_end_ms
                    &&& final(self).drawing_paths == old(self).drawing_paths
                    &&& !dep.turn_passed
                }
                &&& n > 0 && old(self).game_state == GameState::Playing && k != old(self).drawer_index() ==> {
                    &&& final(self).game_state == GameState::Playing
                    &&& final(self).current_drawer == old(self).current_drawer
                    &&& final(self).word == old(self).word
                    &&& final(self).round_number == if k < old(self).drawer_index() {
                        old(self).round_number - 1
                    } else {
                        old(self).round_number as int
                    }
                    &&& final(self).cycle_number == old(self).cycle_number
                    &&& final(self).winners == old(self).winners
                    &&& final(self).current_round_guesses@ == guesses_without(
                        old(self).current_round_guesses@,
                        player_id,
                    )
                    &&& final(self).round_start_ms == old(self).round_start_ms
                    &&& final(self).round_end_ms == old(self).round_end_ms
                    &&& final(self).drawing_paths == old(self).drawing_paths
                    &&& !dep.turn_passed
                }
                &&& n > 0 && old(self).game_state == GameState::Playing && k == old(self).drawer_index() ==> {
                    let next = if k < n {
                        k
                    } else {
                        0
                    };
                    let cycle = if k == n {
                        sat_inc(old(self).cycle_number)
                    } else {
                        old(self).cycle_number
                    };
                    &&& final(self).current_drawer == Some(final(self).players@[next].id)
                    &&& final(self).round_number == next + 1
                    &&& final(self).cycle_number == cycle
                    &&& final(self).game_state == if cycle > old(self).max_rounds {
                        GameState::Finished
                    } else {
                        GameState::Playing
                    }
                    &&& final(self).word is None
                    &&& final(self).round_start_ms is None
                    &&& final(self).round_end_ms is None
                    &&& final(self).current_round_guesses@.len() == 0
                    &&& final(self).drawing_paths@.len() == 0
                    &&& final(self).winners@ == seq![final(self).players@[next].id]
                    &&& dep.turn_passed
                }
            },
    {
        let k = match self.position_of(player_id) {
            Some(k) => k,
            None => {
                return Err(RoomError::PlayerNotFound);
            },
        };
        let playing = match self.game_state {
            GameState::Playing => true,
            _ => false,
        };
        let mut d: usize = 0;
        if playing {
            d = match self.position_of(self.current_drawer.unwrap()) {
                Some(i) => i,
                None => {
                    proof {
                        assert(false);
                    }
                    0
                },
            };
        }
        let ghost before = *self;
        proof {
            lemma_ids_after_remove(before.players@, k as int);
            lemma_guesses_without(before.current_round_guesses@, player_id);
        }
        let player = self.players.remove(k);
        self.updated_at_ms = now_ms;
        let n = self.players.len();
        let was_host = self.host_id == player_id;
        let mut turn_passed = false;
        if n == 0 {
            self.game_state = GameState::Waiting;
            self.current_drawer = None;
            self.word = None;
            self.round_number = 0;
            self.round_start_ms = None;
            self.round_end_ms = None;
            self.current_round_guesses = Vec::new();
            self.winners = Vec::new();
            self.drawing_paths = Vec::new();
            assert(guessers_of(self.current_round_guesses@) =~= Seq::<u128>::empty());
            return Ok(Departure { player, room_empty: true, host_changed: false, turn_passed: false });
        }
        if was_host {
            self.host_id = self.players[0].id;
            assert(self.player_ids()[0] == self.host_id);
        }
        if playing && k == d {
            let next = if k < n {
                k
            } else {
                0
            };
            let next_id = self.players[next].id;
            if k == n {
                self.cycle_number = self.cycle_number.saturating_add(1);
            }
            self.round_number = (next + 1) as u32;
            self.current_drawer = Some(next_id);
            self.word = None;
            self.round_start_ms = None;
            self.round_end_ms = None;
            self.current_round_guesses = Vec::new();
            self.drawing_paths = Vec::new();
            self.winners = Vec::new();
            self.winners.push(next_id);
            if self.cycle_number > self.max_rounds {
                self.game_state = GameState::Finished;
            }
            turn_passed = true;
            proof {
                assert(self.player_ids()[next as int] == next_id);
                lemma_index_of_unique(self.player_ids(), next as int);
                assert(self.winners@[0] == next_id);
                assert(guessers_of(self.current_round_guesses@) =~= Seq::<u128>::empty());
            }
        } else {
            let mut kept: Vec<Guess> = Vec::new();
            let mut j: usize = 0;
            while j < self.current_round_guesses.len()
                invariant
                    0 <= j <= self.current_round_guesses@.len(),
                    kept@ == guesses_without(self.current_round_guesses@.subrange(0, j as int), player_id),
                decreases self.current_round_guesses@.len() - j,
            {
                assert(self.current_round_guesses@.subrange(0, j + 1).drop_last()
                    =~= self.current_round_guesses@.subrange(0, j as int));
                if self.current_round_guesses[j].player_id != player_id {
                    kept.push(self.current_round_guesses[j].clone());
                }
                j = j + 1;
            }
            assert(self.current_round_guesses@.subrange(0, self.current_round_guesses@.len() as int)
                =~= self.current_round_guesses@);
            self.current_round_guesses = kept;
            if playing && k < d {
                self.round_number = self.round_number - 1;
            }
            proof {
                let gs = self.current_round_guesses@;
                assert forall|i: int| 0 <= i < gs.len() implies {
                    let g = #[trigger] gs[i].player_id;
                    &&& self.has_player(g)
                    &&& self.winners@.contains(g)
                    &&& self.current_drawer != Some(g)
                } by {
                    let j = choose|j: int|
                        0 <= j < before.current_round_guesses@.len() && before.current_round_guesses@[j] == gs[i];
                    assert(before.current_round_guesses@[j].player_id == gs[i].player_id);
                }
                if playing {
                    let dr = self.current_drawer.unwrap();
                    assert(before.player_ids()[d as int] == dr);
                    if k < d {
                        assert(self.player_ids()[d - 1] == dr);
                        lemma_index_of_unique(self.player_ids(), d - 1);
                    } else {
                        assert(self.player_ids()[d as int] == dr);
                        lemma_index_of_unique(self.player_ids(), d as int);
                    }
                }
            }
        }
        Ok(Departure { player, room_empty: false, host_changed: was_host, turn_passed })
    }

    /// The member a new connection announcing `username` attaches to. The
    /// player was created by the HTTP join; a full room refuses further
    /// connections, and an unknown name is not found.
    pub fn connection_target(&self, username: &str) -> (r: Result<u128, RoomError>)
        ensures
            self.players@.len() >= self.max_players ==> r == Err::<u128, RoomError>(RoomError::RoomFull),
            self.players@.len() < self.max_players && !self.username_taken(username@) ==> r == Err::<
                u128,
                RoomError,
            >(RoomError::PlayerNotFound),
            r matches Ok(id) ==> self.players@.len() < self.max_players && exists|k: int|
                0 <= k < self.players@.len() && #[trigger] self.players@[k].username@ == username@
                    && self.players@[k].id == id,
            r is Ok <==> (self.players@.len() < self.max_players && self.username_taken(username@)),
    {
        if self.players.len() >= self.max_players as usize {
            return Err(RoomError::RoomFull);
        }
        let mut k: usize = 0;
        while k < self.players.len()
            invariant
                self.players@.len() < self.max_players,
                0 <= k <= self.players@.len(),
                forall|i: int| 0 <= i < k ==> #[trigger] self.players@[i].username@ != username@,
            decreases self.players@.len() - k,
        {
            if same_text(self.players[k].username.as_str(), username) {
                return Ok(self.players[k].id);
            }
            k = k + 1;
        }
        Err(RoomError::PlayerNotFound)
    }
}

} // verus!
