//! The state of the WebSocket server: who is connected and doing what, and
//! the games being hosted; and how a client's message is routed.
use vstd::prelude::*;

use std::collections::HashMap;

use crate::assoc::{
    distinct_keys, keyed_map, lemma_keyed_map, lemma_keyed_map_push, lemma_keyed_map_remove,
    lemma_keyed_map_update,
};
use crate::err::{
    is_failure, missing_parameter_message, out_of_turn_message, quiet_assert, FailResponse,
    KascreechError,
};
use crate::hosting::{question_asked, room_for_awards, round_scored, Outbound};
use crate::request::{json_string_field, read_string_field};
use crate::text::str_equals;
use crate::types::{ClientId, ClientStatus, Game, GamePhase, Player, Question};

verus! {

broadcast use vstd::std_specs::hash::group_hash_axioms;

/// Where a client's message goes.
#[derive(Debug)]
pub enum Route {
    /// A client asks to join a game.
    Join,
    /// A client asks to host a game.
    Host,
    /// A message of a player of the game with the given id, in the given phase.
    Play { game_id: String, phase: GamePhase },
    /// A message of the host of the game with the given id, in the given phase.
    Steer { game_id: String, phase: GamePhase },
}

/// The answer to a client whose game is now hosted.
#[derive(Debug)]
pub struct HostResponse {
    pub success: bool,
    pub game_id: String,
    pub game_name: String,
    pub question_count: usize,
}

pub open spec fn game_key() -> spec_fn(Game) -> Seq<char> {
    |g: Game| g.id@
}

pub open spec fn game_val() -> spec_fn(Game) -> Game {
    |g: Game| g
}

/// `a` and `b` are the same status.
pub open spec fn same_status(a: ClientStatus, b: ClientStatus) -> bool {
    match (a, b) {
        (ClientStatus::Loading, ClientStatus::Loading) => true,
        (ClientStatus::Playing(x), ClientStatus::Playing(y)) => x@ == y@,
        (ClientStatus::Hosting(x), ClientStatus::Hosting(y)) => x@ == y@,
        _ => false,
    }
}

/// The message to a client in the lobby that sends neither `join` nor `host`.
pub open spec fn lobby_commands_message() -> Seq<char> {
    "Only acceptable commands in this context are `join` and `host`"@
}

/// Whether a player entry belongs to someone other than `client`.
pub open spec fn other_than(client: ClientId) -> spec_fn((ClientId, Player)) -> bool {
    |e: (ClientId, Player)| e.0 != client
}

/// `a` is the game `g` without the player connected as `client`.
pub open spec fn without_player(g: Game, client: ClientId, a: Game) -> bool {
    &&& a.id == g.id
    &&& a.questions@ == g.questions@
    &&& a.phase == g.phase
    &&& a.players@ == g.players@.filter(other_than(client))
    &&& a.host == g.host
    &&& a.correct_answers@ == g.correct_answers@
    &&& a.question_start_time == g.question_start_time
}

/// `g` is a new game `id` in its lobby, hosted by `host`, asking `questions`.
pub open spec fn fresh_game(g: Game, id: Seq<char>, questions: Seq<Question>, host: ClientId) -> bool {
    &&& g.id@ == id
    &&& g.questions@ == questions
    &&& g.phase == GamePhase::Lobby
    &&& g.players@.len() == 0
    &&& g.host == host
    &&& g.correct_answers@.len() == 0
    &&& g.question_start_time == 0
}

/// The effect of the host's message with `command` on game `game_id` of
/// server `b`, at time `now`, with `awarded[k]` the award of a right guess
/// of player `k`.
pub open spec fn host_message_effect(
    b: AppState,
    a: AppState,
    game_id: Seq<char>,
    command: Option<Seq<char>>,
    now: u128,
    awarded: Seq<usize>,
    result: Result<Vec<Outbound>, FailResponse>,
) -> bool {
    let refused_missing = result matches Err(e) && is_failure(
        e,
        KascreechError::FailedRead,
        Some(missing_parameter_message()),
    );
    let refused_out_of_turn = result matches Err(e) && is_failure(
        e,
        KascreechError::InvalidCommand,
        Some(out_of_turn_message()),
    );
    &&& a.client_map() == b.client_map()
    &&& if command is None || !b.game_map().contains_key(game_id) {
        refused_missing && a.game_map() == b.game_map()
    } else {
        let g = b.game_map()[game_id];
        let c = command->0;
        let expected: Seq<char> = match g.phase {
            GamePhase::Lobby => "start"@,
            GamePhase::Question => "leaderboard"@,
            GamePhase::Leaderboard => "question"@,
        };
        if c != expected {
            refused_out_of_turn && a.game_map() == b.game_map()
        } else if g.phase == GamePhase::Question {
            let endgame = g.questions.len() == 0;
            &&& result matches Ok(out) && if endgame {
                &&& a.game_map() == b.game_map().remove(game_id)
                &&& last_round_scored(g, awarded, out@)
            } else {
                &&& a.game_map().contains_key(game_id)
                &&& a.game_map() == b.game_map().insert(game_id, a.game_map()[game_id])
                &&& round_scored(g, a.game_map()[game_id], awarded, false, out@)
            }
        } else if g.questions.len() == 0 {
            refused_missing && a.game_map() == b.game_map()
        } else {
            &&& result matches Ok(out)
            &&& a.game_map().contains_key(game_id)
            &&& a.game_map() == b.game_map().insert(game_id, a.game_map()[game_id])
            &&& question_asked(g, a.game_map()[game_id], now, out@)
        }
    }
}

/// The messages `out` close the last round of game `g`, which is dropped.
pub open spec fn last_round_scored(g: Game, awarded: Seq<usize>, out: Seq<Outbound>) -> bool {
    exists|done: Game| round_scored(g, done, awarded, true, out)
}

/// A round can be scored with `awarded` in every game of `s` that is
/// waiting for its leaderboard.
pub open spec fn awards_fit(s: AppState, game_id: Seq<char>, awarded: Seq<usize>) -> bool {
    s.game_map().contains_key(game_id) && s.game_map()[game_id].phase == GamePhase::Question ==> {
        &&& awarded.len() == s.game_map()[game_id].players.len()
        &&& room_for_awards(s.game_map()[game_id], awarded)
    }
}

/// The server `b` routing a message of `client` with `command`.
pub open spec fn route_effect(b: AppState, client: ClientId, command: Option<Seq<char>>, result: Result<Route, FailResponse>) -> bool {
    match b.client_map()[client] {
        ClientStatus::Loading => match command {
            None => result matches Err(e) && is_failure(e, KascreechError::FailedRead, Some(missing_parameter_message())),
            Some(c) => if c == "join"@ {
                result matches Ok(Route::Join)
            } else if c == "host"@ {
                result matches Ok(Route::Host)
            } else {
                result matches Err(e) && is_failure(e, KascreechError::InvalidCommand, Some(lobby_commands_message()))
            },
        },
        ClientStatus::Playing(g) => result matches Ok(Route::Play { game_id, phase }) && game_id@ == g@
            && phase == b.game_map()[g@].phase,
        ClientStatus::Hosting(g) => result matches Ok(Route::Steer { game_id, phase }) && game_id@ == g@
            && phase == b.game_map()[g@].phase,
    }
}

/// The server's clients and games.
#[derive(Debug)]
pub struct AppState {
    pub clients: HashMap<ClientId, ClientStatus>,
    pub games: Vec<Game>,
}

impl AppState {
    /// No game id occurs twice.
    pub open spec fn wf(self) -> bool {
        distinct_keys(self.games@, game_key())
    }

    /// The status of each connected client.
    pub open spec fn client_map(self) -> Map<ClientId, ClientStatus> {
        self.clients@
    }

    /// The hosted games by id.
    pub open spec fn game_map(self) -> Map<Seq<char>, Game> {
        keyed_map(self.games@, game_key(), game_val())
    }

    /// The game that client `c` plays in or hosts, if any, exists.
    pub open spec fn game_of_client_exists(self, c: ClientId) -> bool {
        match self.client_map()[c] {
            ClientStatus::Playing(g) => self.game_map().contains_key(g@),
            ClientStatus::Hosting(g) => self.game_map().contains_key(g@),
            ClientStatus::Loading => true,
        }
    }

    pub fn new() -> (state: Self)
        ensures
            state.wf(),
            state.client_map() == Map::<ClientId, ClientStatus>::empty(),
            state.game_map() == Map::<Seq<char>, Game>::empty(),
    {
        AppState { clients: HashMap::new(), games: Vec::new() }
    }

    /// Where the game `game_id` is listed.
    fn game_index(&self, game_id: &String) -> (index: Option<usize>)
        requires
            self.wf(),
        ensures
            match index {
                Some(i) => i < self.games.len() && self.games@[i as int].id@ == game_id@,
                None => !self.game_map().contains_key(game_id@),
            },
    {
        proof {
            lemma_keyed_map(self.games@, game_key(), game_val());
        }
        let mut i: usize = 0;
        while i < self.games.len()
            invariant
                i <= self.games.len(),
                forall|k: int| 0 <= k < i ==> (#[trigger] self.games@[k]).id@ != game_id@,
            decreases self.games.len() - i,
        {
            if self.games[i].id == *game_id {
                return Some(i);
            }
            i = i + 1;
        }
        None
    }

    /// Sets the status of `client`, connected or not.
    fn set_status(&mut self, client: ClientId, status: ClientStatus)
        requires
            old(self).wf(),
        ensures
            final(self).wf(),
            final(self).client_map() == old(self).client_map().insert(client, status),
            final(self).games@ == old(self).games@,
    {
        self.clients.insert(client, status);
    }

    /// A client connected: it is in the lobby.
    pub fn connect(&mut self, client: ClientId)
        requires
            old(self).wf(),
        ensures
            final(self).wf(),
            final(self).client_map() == old(self).client_map().insert(client, ClientStatus::Loading),
            final(self).games@ == old(self).games@,
    {
        self.set_status(client, ClientStatus::Loading);
    }

    /// A client disconnected: it is forgotten, and if it played in a game,
    /// it leaves that game.
    pub fn disconnect(&mut self, client: ClientId)
        requires
            old(self).wf(),
            old(self).client_map().contains_key(client),
            old(self).client_map()[client] matches ClientStatus::Playing(g) ==> old(self).game_map().contains_key(g@),
        ensures
            final(self).wf(),
            final(self).client_map() == old(self).client_map().remove(client),
            match old(self).client_map()[client] {
                ClientStatus::Playing(g) => {
                    &&& final(self).game_map().contains_key(g@)
                    &&& final(self).game_map() == old(self).game_map().insert(g@, final(self).game_map()[g@])
                    &&& without_player(old(self).game_map()[g@], client, final(self).game_map()[g@])
                },
                _ => final(self).games@ == old(self).games@,
            },
    {
        proof {
            lemma_keyed_map(self.games@, game_key(), game_val());
        }
        let status = match self.clients.remove(&client) {
            Some(status) => status,
            None => {
                return;
            },
        };
        if let ClientStatus::Playing(game_id) = status {
            let j = match self.game_index(&game_id) {
                Some(j) => j,
                None => {
                    return;
                },
            };
            let ghost before = self.games@;
            let mut players: Vec<(ClientId, Player)> = Vec::new();
            std::mem::swap(&mut players, &mut self.games[j].players);
            assert(players@ == before[j as int].players@);
            let kept = remove_client(players, client);
            self.games[j].players = kept;
            proof {
                assert(without_player(before[j as int], client, self.games@[j as int]));
                assert(before[j as int].id@ == game_id@);
                lemma_keyed_map_update(before, j as int, self.games@[j as int], game_key(), game_val());
                assert(self.games@ =~= before.update(j as int, self.games@[j as int]));
                lemma_keyed_map(self.games@, game_key(), game_val());
            }
        }
    }

    /// Routes a message of `client` with `command`: a client in the lobby may
    /// only join or host; a player's and a host's messages go to their game.
    pub fn route(&self, client: ClientId, command: Option<String>) -> (result: Result<Route, FailResponse>)
        requires
            self.wf(),
            self.client_map().contains_key(client),
            self.game_of_client_exists(client),
        ensures
            route_effect(*self, client, match command {
                Some(c) => Some(c@),
                None => None,
            }, result),
    {
        proof {
            reveal_strlit("join");
            reveal_strlit("host");
        }
        let status = match self.clients.get(&client) {
            Some(status) => status,
            None => {
                return Err(FailResponse::none_option());
            },
        };
        match status {
            ClientStatus::Loading => {
                let command = match command {
                    Some(c) => c,
                    None => {
                        return Err(FailResponse::none_option());
                    },
                };
                if str_equals(command.as_str(), "join") {
                    Ok(Route::Join)
                } else if str_equals(command.as_str(), "host") {
                    Ok(Route::Host)
                } else {
                    Err(
                        FailResponse::new(
                            KascreechError::InvalidCommand,
                            Some(String::from_str("Only acceptable commands in this context are `join` and `host`")),
                        ),
                    )
                }
            },
            ClientStatus::Playing(g) => {
                let phase = self.get_game_phase(g);
                Ok(Route::Play { game_id: g.clone(), phase })
            },
            ClientStatus::Hosting(g) => {
                let phase = self.get_game_phase(g);
                Ok(Route::Steer { game_id: g.clone(), phase })
            },
        }
    }

    /// Routes a client's raw message: text that is not JSON is refused with
    /// the parser's message; otherwise the message's `command` field, if it
    /// is a string, is routed as `route` does.
    pub fn route_message(&self, client: ClientId, text: &str) -> (result: Result<Route, FailResponse>)
        requires
            self.wf(),
            self.client_map().contains_key(client),
            self.game_of_client_exists(client),
        ensures
            match json_string_field(text@, "command"@) {
                Err(m) => result matches Err(e) && is_failure(e, KascreechError::FailedRead, Some(m)),
                Ok(command) => route_effect(*self, client, command, result),
            },
    {
        match read_string_field(text, "command") {
            Err(m) => Err(FailResponse::from_parse_error(m)),
            Ok(command) => self.route(client, command),
        }
    }

    /// `client` hosts the quiz `title` with `questions` as game `id`: the
    /// game replaces any game of that id, and the client becomes its host.
    pub fn host(&mut self, client: ClientId, title: String, questions: Vec<Question>, id: String) -> (response: HostResponse)
        requires
            old(self).wf(),
        ensures
            final(self).wf(),
            final(self).game_map().contains_key(id@),
            final(self).game_map() == old(self).game_map().insert(id@, final(self).game_map()[id@]),
            fresh_game(final(self).game_map()[id@], id@, questions@, client),
            final(self).client_map().contains_key(client),
            final(self).client_map() == old(self).client_map().insert(client, final(self).client_map()[client]),
            final(self).client_map()[client] matches ClientStatus::Hosting(g) && g@ == id@,
            response.success,
            response.game_id == id,
            response.game_name == title,
            response.question_count == questions.len(),
    {
        let question_count = questions.len();
        let game = Game {
            id: id.clone(),
            questions,
            phase: GamePhase::Lobby,
            players: Vec::new(),
            host: client,
            correct_answers: Vec::new(),
            question_start_time: 0,
        };
        proof {
            lemma_keyed_map(self.games@, game_key(), game_val());
        }
        match self.game_index(&id) {
            Some(j) => {
                proof {
                    lemma_keyed_map_update(self.games@, j as int, game, game_key(), game_val());
                }
                self.games.set(j, game);
            },
            None => {
                proof {
                    lemma_keyed_map_push(self.games@, game, game_key(), game_val());
                }
                self.games.push(game);
            },
        }
        proof {
            lemma_keyed_map(self.games@, game_key(), game_val());
        }
        self.set_status(client, ClientStatus::Hosting(id.clone()));
        proof {
            lemma_keyed_map(self.games@, game_key(), game_val());
        }
        HostResponse { success: true, game_id: id, game_name: title, question_count }
    }

    /// Takes the host's message with `command` for game `game_id` at time
    /// `now`: `start` in the lobby and `question` on the leaderboard ask the
    /// next question; `leaderboard` during a question closes the round, with
    /// `awarded[k]` the points a right guess earns player `k`, and after the
    /// last question ends the game and drops it. Any other command is
    /// refused as out of turn.
    pub fn handle_message(
        &mut self,
        game_id: &String,
        command: Option<String>,
        now: u128,
        awarded: &Vec<usize>,
    ) -> (result: Result<Vec<Outbound>, FailResponse>)
        requires
            old(self).wf(),
            awards_fit(*old(self), game_id@, awarded@),
        ensures
            final(self).wf(),
            host_message_effect(*old(self), *final(self), game_id@, match command {
                Some(c) => Some(c@),
                None => None,
            }, now, awarded@, result),
    {
        proof {
            lemma_keyed_map(self.games@, game_key(), game_val());
            reveal_strlit("start");
            reveal_strlit("leaderboard");
            reveal_strlit("question");
        }
        let command = match command {
            Some(c) => c,
            None => {
                return Err(FailResponse::none_option());
            },
        };
        let j = match self.game_index(game_id) {
            Some(j) => j,
            None => {
                return Err(FailResponse::none_option());
            },
        };
        let ghost before = self.games@;
        let allowed = match self.games[j].phase {
            GamePhase::Lobby => str_equals(command.as_str(), "start"),
            GamePhase::Question => str_equals(command.as_str(), "leaderboard"),
            GamePhase::Leaderboard => str_equals(command.as_str(), "question"),
        };
        proof {
            assert(before[j as int].id@ == game_id@);
            assert(old(self).game_map()[game_id@] == before[j as int]);
        }
        if let Err(e) = quiet_assert(allowed) {
            assert(host_message_effect(*old(self), *self, game_id@, Some(command@), now, awarded@, Err(e)));
            return Err(e);
        }
        if self.games[j].phase == GamePhase::Question {
            let endgame = self.games[j].questions.len() == 0;
            let out = self.games[j].answer_command(awarded, endgame);
            proof {
                assert(self.games@ =~= before.update(j as int, self.games@[j as int]));
                lemma_keyed_map_update(before, j as int, self.games@[j as int], game_key(), game_val());
            }
            if endgame {
                proof {
                    lemma_keyed_map_remove(self.games@, j as int, game_key(), game_val());
                    assert(round_scored(before[j as int], self.games@[j as int], awarded@, true, out@));
                }
                let ghost done = self.games@[j as int];
                self.games.remove(j);
                proof {
                    assert(round_scored(old(self).game_map()[game_id@], done, awarded@, true, out@));
                    assert(last_round_scored(old(self).game_map()[game_id@], awarded@, out@));
                    assert(endgame == (old(self).game_map()[game_id@].questions.len() == 0));
                    assert(command@ == "leaderboard"@);
                    assert(self.game_map() =~= old(self).game_map().remove(game_id@));
                }
                assert(host_message_effect(*old(self), *self, game_id@, Some(command@), now, awarded@, Ok(out)));
            } else {
                proof {
                    lemma_keyed_map(self.games@, game_key(), game_val());
                }
                assert(host_message_effect(*old(self), *self, game_id@, Some(command@), now, awarded@, Ok(out)));
            }
            Ok(out)
        } else {
            let result = self.games[j].question_command(now);
            proof {
                assert(self.games@ =~= before.update(j as int, self.games@[j as int]));
                lemma_keyed_map_update(before, j as int, self.games@[j as int], game_key(), game_val());
                lemma_keyed_map(self.games@, game_key(), game_val());
                if before[j as int].questions.len() == 0 {
                    assert(self.games@ =~= before);
                }
            }
            assert(host_message_effect(*old(self), *self, game_id@, Some(command@), now, awarded@, result));
            result
        }
    }

    /// The phase of the game `game_id`.
    pub fn get_game_phase(&self, game_id: &String) -> (phase: GamePhase)
        requires
            self.wf(),
            self.game_map().contains_key(game_id@),
        ensures
            phase == self.game_map()[game_id@].phase,
    {
        proof {
            lemma_keyed_map(self.games@, game_key(), game_val());
        }
        match self.game_index(game_id) {
            Some(i) => self.games[i].phase,
            None => GamePhase::Lobby,
        }
    }
}

/// `players` without those connected as `client`.
fn remove_client(players: Vec<(ClientId, Player)>, client: ClientId) -> (kept: Vec<(ClientId, Player)>)
    ensures
        kept@ == players@.filter(other_than(client)),
{
    let ghost orig = players@;
    let mut rest = players;
    let mut kept: Vec<(ClientId, Player)> = Vec::new();
    let n = rest.len();
    let mut k: usize = 0;
    assert(orig.take(0).filter(other_than(client)) =~= Seq::<(ClientId, Player)>::empty());
    assert(rest@ =~= orig.skip(0));
    while k < n
        invariant
            n == orig.len(),
            k <= n,
            rest@ == orig.skip(k as int),
            kept@ == orig.take(k as int).filter(other_than(client)),
        decreases n - k,
    {
        let entry = rest.remove(0);
        proof {
            assert(orig.take(k + 1).drop_last() =~= orig.take(k as int));
            assert(orig.take(k + 1).last() == entry);
            reveal_with_fuel(Seq::filter, 1);
        }
        if entry.0 != client {
            kept.push(entry);
        }
        k = k + 1;
        proof {
            assert(rest@ =~= orig.skip(k as int));
        }
    }
    assert(orig.take(n as int) =~= orig);
    kept
}

/// A copy of a client status.
fn copy_status(status: &ClientStatus) -> (copy: ClientStatus)
    ensures
        copy == *status,
{
    match status {
        ClientStatus::Loading => ClientStatus::Loading,
        ClientStatus::Playing(g) => ClientStatus::Playing(g.clone()),
        ClientStatus::Hosting(g) => ClientStatus::Hosting(g.clone()),
    }
}

} // verus!

verus! {

/// A client that connects and then disconnects leaves the clients as they
/// were without it.
pub proof fn lemma_connect_then_disconnect(clients: Map<ClientId, ClientStatus>, client: ClientId)
    ensures
        clients.insert(client, ClientStatus::Loading).remove(client) == clients.remove(client),
{
    assert(clients.insert(client, ClientStatus::Loading).remove(client) =~= clients.remove(client));
}

/// The quiz id of a host's raw message: text that is not JSON is refused
/// with the parser's message, and a message without a string `id` field as
/// missing a parameter.
pub fn host_request_id(text: &str) -> (result: Result<String, FailResponse>)
    ensures
        match json_string_field(text@, "id"@) {
            Err(m) => result matches Err(e) && is_failure(e, KascreechError::FailedRead, Some(m)),
            Ok(None) => result matches Err(e) && is_failure(
                e,
                KascreechError::FailedRead,
                Some(missing_parameter_message()),
            ),
            Ok(Some(id)) => result matches Ok(r) && r@ == id,
        },
{
    match read_string_field(text, "id") {
        Err(m) => Err(FailResponse::from_parse_error(m)),
        Ok(None) => Err(FailResponse::none_option()),
        Ok(Some(id)) => Ok(id),
    }
}

/// The `command` field of a client's raw message, when the message is JSON
/// and the field a string.
pub fn message_command(text: &str) -> (command: Option<String>)
    ensures
        match json_string_field(text@, "command"@) {
            Ok(Some(c)) => command matches Some(r) && r@ == c,
            _ => command is None,
        },
{
    match read_string_field(text, "command") {
        Ok(Some(c)) => Some(c),
        _ => None,
    }
}

} // verus!
