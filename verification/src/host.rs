//! Running a game for its host: the lobby, the questions, the guesses, the
//! leaderboard after each question and the final standings.
//!
//! The host's connection drives the game. Each event (a command of the host,
//! a guess of a player, a player joining) changes the session and yields the
//! messages to deliver, in order, to the host and to the players.
use vstd::prelude::*;

use crate::err::{is_failure, FailResponse, KascreechError};
use crate::game::{Game, KahootAnswer, KahootQuestion, Senders};
use crate::join::PlayerGuess;
use crate::player::{missed_round, Player, PlayerRoundEnd};
use crate::points::{award_for, Points};
use crate::ranking::{lemma_sort_map, lemma_sort_props, sort_by_key, sort_stable_by_key, sorted_by_key};
use crate::random::random_digit;
use crate::text::{digit_text, str_equals};

verus! {

/// Where a game stands.
#[derive(PartialEq, Eq, Structural, Clone, Copy, Debug)]
pub enum HostPhase {
    /// Players may join; the host has not started.
    Lobby,
    /// A question is open for guesses.
    Question,
    /// The leaderboard of the last question is shown.
    Leaderboard,
    /// The game is over.
    Finished,
}

/// A line of the leaderboard.
#[derive(Debug)]
pub struct LeaderboardEntry {
    pub user_name: String,
    pub points: usize,
    pub streak: usize,
}

/// A message for the host.
#[derive(Debug)]
pub enum HostMessage {
    PlayerJoined { player_name: String },
    Question { question: String, duration: usize, answers: Vec<KahootAnswer> },
    Leaderboard { leaderboard: Vec<LeaderboardEntry> },
}

/// A message for a player.
#[derive(Debug)]
pub enum PlayerMessage {
    QuestionStart { number_of_answers: usize },
    RoundEnd(PlayerRoundEnd),
    GameOver { position: usize },
}

/// A message and its recipient: the host, or the player of the given name.
#[derive(Debug)]
pub enum Delivery {
    ToHost(HostMessage),
    ToPlayer(String, PlayerMessage),
}

/// The answer to a host whose game was created.
#[derive(Debug)]
pub struct SuccessResponse {
    pub success: bool,
    pub game_id: String,
    pub game_name: String,
    pub question_count: usize,
}

/// Ranks players by ascending points.
pub open spec fn by_points() -> spec_fn(Player) -> int {
    |p: Player| p.points as int
}

/// Ranks players by descending points.
pub open spec fn by_points_descending() -> spec_fn(Player) -> int {
    |p: Player| -(p.points as int)
}

/// The players of a round in the order their reports go out: ascending
/// points, ties in the order they had.
pub open spec fn ranked(players: Seq<Player>) -> Seq<Player> {
    sort_by_key(players, by_points())
}

/// The players at the end of the game: descending points, ties in the order
/// they had.
pub open spec fn standings(players: Seq<Player>) -> Seq<Player> {
    sort_by_key(players, by_points_descending())
}

/// The leaderboard line of a player.
pub open spec fn entry_of(p: Player) -> LeaderboardEntry {
    LeaderboardEntry { user_name: p.user_name, points: p.points, streak: p.streak }
}

/// A player after the round closed: ready to guess again; a player who did
/// not earn a report this round loses the streak.
pub open spec fn closed_player(p: Player) -> Player {
    Player {
        played: false,
        player_round_end: None,
        streak: if p.player_round_end is Some {
            p.streak
        } else {
            0
        },
        ..p
    }
}

/// The players after a round closed, in leaderboard order.
pub open spec fn after_round(players: Seq<Player>) -> Seq<Player> {
    ranked(players).map_values(|p: Player| closed_player(p))
}

/// The name of the player ranked just above the one at `i` of `sorted`,
/// which is in ascending order.
pub open spec fn behind_of(sorted: Seq<Player>, i: int) -> Option<String> {
    if i + 1 < sorted.len() {
        Some(sorted[i + 1].user_name)
    } else {
        None
    }
}

/// `r` is the report of player `p` placed at `position`, below `behind`.
pub open spec fn is_round_report(
    p: Player,
    position: usize,
    behind: Option<String>,
    r: PlayerRoundEnd,
) -> bool {
    match p.player_round_end {
        Some(x) => r == (PlayerRoundEnd { position, behind, ..x }),
        None => missed_round(p.points, position, behind, r),
    }
}

/// The messages of a closing round: every player, in ascending order of
/// points, gets their report with their position (the last in ascending
/// order is first), then the host gets the leaderboard, best first, as it
/// stood before the reports.
pub open spec fn round_deliveries(players: Seq<Player>, d: Seq<Delivery>) -> bool {
    let sorted = ranked(players);
    let n = sorted.len();
    &&& d.len() == n + 1
    &&& forall|i: int|
        0 <= i < n ==> match #[trigger] d[i] {
            Delivery::ToPlayer(name, PlayerMessage::RoundEnd(r)) => {
                &&& name == sorted[i].user_name
                &&& is_round_report(sorted[i], (n - i) as usize, behind_of(sorted, i), r)
            },
            _ => false,
        }
    &&& match d[n as int] {
        Delivery::ToHost(HostMessage::Leaderboard { leaderboard }) => leaderboard@ == standings(
            players,
        ).map_values(|p: Player| entry_of(p)),
        _ => false,
    }
}

/// The messages at the end of the game: every player, best first, gets
/// their final position.
pub open spec fn game_over_deliveries(standing: Seq<Player>, d: Seq<Delivery>) -> bool {
    &&& d.len() == standing.len()
    &&& forall|i: int|
        0 <= i < standing.len() ==> #[trigger] d[i] == Delivery::ToPlayer(
            standing[i].user_name,
            PlayerMessage::GameOver { position: (i + 1) as usize },
        )
}

/// The messages of a question being asked: every player learns how many
/// answers there are, then the host gets the question.
pub open spec fn question_deliveries(players: Seq<Player>, q: KahootQuestion, d: Seq<Delivery>) -> bool {
    let n = players.len();
    &&& d.len() == n + 1
    &&& forall|i: int|
        0 <= i < n ==> #[trigger] d[i] == Delivery::ToPlayer(
            players[i].user_name,
            PlayerMessage::QuestionStart { number_of_answers: q.choices.len() },
        )
    &&& match d[n as int] {
        Delivery::ToHost(HostMessage::Question { question, duration, answers }) => {
            &&& question == q.question
            &&& duration == q.time
            &&& answers@ == q.choices@
        },
        _ => false,
    }
}

/// How many players have guessed this round.
pub open spec fn count_played(players: Seq<Player>) -> nat
    decreases players.len(),
{
    if players.len() == 0 {
        0
    } else {
        count_played(players.drop_last()) + if players.last().played {
            1nat
        } else {
            0nat
        }
    }
}

/// The session `b` moved on to its next question, or, with none left, to
/// the end of the game.
pub open spec fn started_next(b: HostSession, a: HostSession, d: Seq<Delivery>) -> bool {
    if b.game.questions.len() == 0 {
        finished(b, a, d)
    } else {
        let q = b.game.questions@[0];
        &&& a.game.game_code == b.game.game_code
        &&& a.game.questions@ == b.game.questions@.drop_first()
        &&& a.game.players@ == b.game.players@
        &&& a.phase == HostPhase::Question
        &&& a.current == Some(q)
        &&& a.points.placement() == 0
        &&& a.points.num_of_players() == b.game.players.len()
        &&& a.senders.receiving
        &&& a.senders.in_progress == b.senders.in_progress
        &&& question_deliveries(b.game.players@, q, d)
    }
}

/// The game of session `b` ended: the players stand in their final order
/// and each learns their position.
pub open spec fn finished(b: HostSession, a: HostSession, d: Seq<Delivery>) -> bool {
    &&& a.game.game_code == b.game.game_code
    &&& a.game.questions@ == b.game.questions@
    &&& a.game.players@ == standings(b.game.players@)
    &&& a.phase == HostPhase::Finished
    &&& a.current == b.current
    &&& a.points == b.points
    &&& a.senders == b.senders
    &&& game_over_deliveries(a.game.players@, d)
}

/// Session `s` marked as started.
pub open spec fn marked_in_progress(s: HostSession) -> HostSession {
    HostSession { senders: Senders { in_progress: true, ..s.senders }, ..s }
}

/// The effect of the host's `command` on session `b`: `start` in the lobby
/// and `question` on the leaderboard ask the next question; `leaderboard`
/// during a question closes the round, and after the last question ends the
/// game; anything else changes nothing.
pub open spec fn command_effect(b: HostSession, a: HostSession, command: Seq<char>, d: Seq<Delivery>) -> bool {
    if b.phase == HostPhase::Lobby && command == "start"@ {
        started_next(marked_in_progress(b), a, d)
    } else if b.phase == HostPhase::Leaderboard && command == "question"@ {
        started_next(b, a, d)
    } else if b.phase == HostPhase::Question && command == "leaderboard"@ {
        let closed = after_round(b.game.players@);
        let n = b.game.players.len();
        &&& round_deliveries(b.game.players@, d.take(n + 1))
        &&& !a.senders.receiving
        &&& a.senders.in_progress == b.senders.in_progress
        &&& a.game.game_code == b.game.game_code
        &&& a.game.questions@ == b.game.questions@
        &&& a.current == b.current
        &&& a.points == b.points
        &&& if b.game.questions.len() == 0 {
            &&& a.phase == HostPhase::Finished
            &&& a.game.players@ == standings(closed)
            &&& game_over_deliveries(a.game.players@, d.skip(n + 1))
            &&& d.len() == 2 * n + 1
        } else {
            &&& a.phase == HostPhase::Leaderboard
            &&& a.game.players@ == closed
            &&& d.len() == n + 1
        }
    } else {
        &&& same_session(b, a)
        &&& d.len() == 0
    }
}

/// Whether a guess of answer `index` by player `p` to question `q` counts,
/// and if so whether it is correct: only a player's first guess counts, and
/// only if it names one of the answers.
pub open spec fn guess_outcome(p: Player, q: KahootQuestion, index: usize) -> Option<bool> {
    if !p.played && index < q.choices.len() {
        Some(q.choices@[index as int].correct)
    } else {
        None
    }
}

/// Player `p` became `a` by a guess with `outcome`, which earns `award` if
/// it is correct.
pub open spec fn is_guessed(p: Player, outcome: Option<bool>, award: int, a: Player) -> bool {
    match outcome {
        None => a == (Player { played: true, ..p }),
        Some(correct) => {
            &&& a.user_name == p.user_name
            &&& a.played
            &&& a.points == if correct {
                p.points + award
            } else {
                p.points as int
            }
            &&& a.streak == if correct {
                p.streak + 1
            } else {
                0
            }
            &&& a.player_round_end matches Some(r) && {
                &&& r.event@ == crate::player::question_end_event()
                &&& r.correct == correct
                &&& r.points_this_round == if correct {
                    award
                } else {
                    0
                }
                &&& r.points_total == a.points
                &&& r.streak == a.streak
                &&& r.position == 0
                &&& r.behind is None
            }
        },
    }
}

/// No player's points or streak is so large that a further correct guess
/// would overflow them.
pub open spec fn room_to_score(players: Seq<Player>) -> bool {
    forall|i: int|
        0 <= i < players.len() ==> #[trigger] players[i].points + 1500 <= usize::MAX
            && players[i].streak < usize::MAX
}

/// `j` is the first player named `name`.
pub open spec fn first_named(players: Seq<Player>, name: Seq<char>, j: int) -> bool {
    &&& 0 <= j < players.len()
    &&& players[j].user_name@ == name
    &&& forall|k: int| 0 <= k < j ==> (#[trigger] players[k]).user_name@ != name
}

/// The effect of `guess` on session `b`: outside a question, or from a
/// player not in the game, nothing; otherwise the first player of that name
/// has guessed, and a counting correct guess takes the next award.
pub open spec fn guess_effect(b: HostSession, a: HostSession, guess: PlayerGuess) -> bool {
    if b.phase == HostPhase::Question && exists|j: int| first_named(b.game.players@, guess.user_name@, j) {
        let j = choose|j: int| first_named(b.game.players@, guess.user_name@, j);
        let p = b.game.players@[j];
        let outcome = guess_outcome(p, b.current->0, guess.index);
        let award = award_for(b.points.placement(), b.points.num_of_players());
        &&& a.game.players@.len() == b.game.players@.len()
        &&& forall|k: int| 0 <= k < b.game.players@.len() && k != j ==> a.game.players@[k] == b.game.players@[k]
        &&& is_guessed(p, outcome, award, a.game.players@[j])
        &&& a.points.placement() == b.points.placement() + if outcome == Some(true) {
            1int
        } else {
            0
        }
        &&& a.points.num_of_players() == b.points.num_of_players()
        &&& a.game.game_code == b.game.game_code
        &&& a.game.questions@ == b.game.questions@
        &&& a.phase == b.phase
        &&& a.current == b.current
        &&& a.senders == b.senders
    } else {
        same_session(b, a)
    }
}

/// The effect of a player named `name` asking to join session `b`.
pub open spec fn join_effect(
    b: HostSession,
    a: HostSession,
    name: String,
    result: Result<(), FailResponse>,
) -> bool {
    if b.senders.in_progress {
        &&& result matches Err(e) && is_failure(e, KascreechError::GameNotFound, None)
        &&& same_session(b, a)
    } else if exists|k: int| 0 <= k < b.game.players.len() && (#[trigger] b.game.players@[k]).user_name@ == name@ {
        &&& result matches Err(e) && is_failure(e, KascreechError::UsernameAlreadyExists, None)
        &&& same_session(b, a)
    } else {
        &&& result is Ok
        &&& a.game.players@.len() == b.game.players@.len() + 1
        &&& a.game.players@.drop_last() == b.game.players@
        &&& a.game.players@.last().user_name == name
        &&& a.game.players@.last().points == 0
        &&& a.game.players@.last().streak == 0
        &&& !a.game.players@.last().played
        &&& a.game.players@.last().player_round_end is None
        &&& a.game.game_code == b.game.game_code
        &&& a.game.questions@ == b.game.questions@
        &&& a.phase == b.phase
        &&& a.current == b.current
        &&& a.points == b.points
        &&& a.senders == b.senders
    }
}

proof fn lemma_count_played_update(s: Seq<Player>, j: int, x: Player)
    requires
        0 <= j < s.len(),
    ensures
        count_played(s.update(j, x)) + (if s[j].played {
            1int
        } else {
            0
        }) == count_played(s) + (if x.played {
            1int
        } else {
            0
        }),
        count_played(s) <= s.len(),
    decreases s.len(),
{
    let t = s.update(j, x);
    if j == s.len() - 1 {
        assert(t.drop_last() =~= s.drop_last());
        lemma_count_played_bound(s.drop_last());
    } else {
        lemma_count_played_update(s.drop_last(), j, x);
        assert(t.drop_last() =~= s.drop_last().update(j, x));
    }
}

proof fn lemma_count_played_bound(s: Seq<Player>)
    ensures
        count_played(s) <= s.len(),
    decreases s.len(),
{
    if s.len() > 0 {
        lemma_count_played_bound(s.drop_last());
    }
}

/// The session of one game, as its host's connection runs it.
#[derive(Debug)]
pub struct HostSession {
    pub game: Game,
    pub phase: HostPhase,
    /// The question being asked, once the game started.
    pub current: Option<KahootQuestion>,
    /// The awards of the current question.
    pub points: Points,
    pub senders: Senders,
}

/// `a` and `b` are the same session.
pub open spec fn same_session(a: HostSession, b: HostSession) -> bool {
    &&& a.game.game_code == b.game.game_code
    &&& a.game.questions@ == b.game.questions@
    &&& a.game.players@ == b.game.players@
    &&& a.phase == b.phase
    &&& a.current == b.current
    &&& a.points == b.points
    &&& a.senders == b.senders
}

/// Every report a player holds carries the player's own points and streak.
pub open spec fn reports_current(players: Seq<Player>) -> bool {
    forall|i: int|
        0 <= i < players.len() ==> ((#[trigger] players[i]).player_round_end matches Some(r) ==> r.points_total
            == players[i].points && r.streak == players[i].streak)
}

/// Reordering the players by a stable sort keeps their reports current.
proof fn lemma_sorted_reports_current(players: Seq<Player>, key: spec_fn(Player) -> int)
    requires
        reports_current(players),
    ensures
        reports_current(sort_by_key(players, key)),
{
    lemma_sort_props(players, key);
    let s = sort_by_key(players, key);
    assert forall|i: int| 0 <= i < s.len() implies ((#[trigger] s[i]).player_round_end matches Some(r)
        ==> r.points_total == s[i].points && r.streak == s[i].streak) by {
        assert(s.contains(s[i]));
        assert(players.contains(s[i]));
        let j = choose|j: int| 0 <= j < players.len() && players[j] == s[i];
        assert(players[j] == s[i]);
    }
}

/// The players after a round closed hold no reports.
proof fn lemma_closed_reports_current(players: Seq<Player>)
    ensures
        reports_current(after_round(players)),
{
    lemma_sort_props(players, by_points());
    let c = after_round(players);
    assert forall|i: int| 0 <= i < c.len() implies (#[trigger] c[i]).player_round_end is None by {
        assert(c[i] == closed_player(ranked(players)[i]));
    }
}

impl HostSession {
    /// The session is consistent: every report a player holds matches the
    /// player's points and streak, a started game has been announced as in
    /// progress, and while a question is open no more awards have been
    /// handed out than players have guessed.
    pub open spec fn wf(self) -> bool {
        &&& reports_current(self.game.players@)
        &&& self.phase != HostPhase::Lobby ==> self.senders.in_progress
        &&& self.phase == HostPhase::Question ==> {
            &&& self.current is Some
            &&& self.points.num_of_players() == self.game.players.len()
            &&& 0 <= self.points.placement() <= count_played(self.game.players@)
        }
    }

    /// A session in the lobby of `game`.
    pub fn new(game: Game) -> (session: Self)
        requires
            reports_current(game.players@),
        ensures
            session.wf(),
            session.game == game,
            session.phase == HostPhase::Lobby,
            session.current is None,
            !session.senders.receiving,
            !session.senders.in_progress,
    {
        HostSession {
            game,
            phase: HostPhase::Lobby,
            current: None,
            points: Points::new(0),
            senders: Senders::new(),
        }
    }

    /// Whether a guess sent now reaches the host.
    pub fn accepts_guesses(&self) -> (accepts: bool)
        ensures
            accepts == self.senders.receiving,
    {
        self.senders.receiving
    }

    /// The announcement to the host of a player who joined.
    pub fn announce_player(&self, player_name: String) -> (delivery: Delivery)
        ensures
            delivery == Delivery::ToHost(HostMessage::PlayerJoined { player_name }),
    {
        Delivery::ToHost(HostMessage::PlayerJoined { player_name })
    }

    /// Lets a player named `player_name` join: refused once the game has
    /// started (as a game not found), or when the name is taken.
    #[verifier::loop_isolation(false)]
    pub fn join(&mut self, player_name: String) -> (result: Result<(), FailResponse>)
        requires
            old(self).wf(),
        ensures
            final(self).wf(),
            join_effect(*old(self), *final(self), player_name, result),
    {
        if self.senders.in_progress {
            return Err(FailResponse::new(KascreechError::GameNotFound, None));
        }
        let n = self.game.players.len();
        let mut i: usize = 0;
        while i < n
            invariant
                n == self.game.players.len(),
                i <= n,
                forall|k: int| 0 <= k < i ==> (#[trigger] self.game.players@[k]).user_name@ != player_name@,
            decreases n - i,
        {
            if self.game.players[i].user_name == player_name {
                return Err(FailResponse::new(KascreechError::UsernameAlreadyExists, None));
            }
            i = i + 1;
        }
        self.game.players.push(Player::new(player_name));
        proof {
            assert(self.game.players@.drop_last() =~= old(self).game.players@);
        }
        Ok(())
    }

    /// Takes a player's guess while a question is open.
    #[verifier::loop_isolation(false)]
    pub fn on_guess(&mut self, guess: PlayerGuess)
        requires
            old(self).wf(),
            room_to_score(old(self).game.players@),
        ensures
            final(self).wf(),
            guess_effect(*old(self), *final(self), guess),
    {
        if self.phase != HostPhase::Question {
            return;
        }
        let n = self.game.players.len();
        let mut j: usize = 0;
        while j < n
            invariant
                n == self.game.players.len(),
                j <= n,
                forall|k: int| 0 <= k < j ==> (#[trigger] self.game.players@[k]).user_name@ != guess.user_name@,
            decreases n - j,
        {
            if self.game.players[j].user_name == guess.user_name {
                break;
            }
            j = j + 1;
        }
        if j == n {
            assert(!exists|k: int| first_named(self.game.players@, guess.user_name@, k));
            return;
        }
        proof {
            assert(first_named(self.game.players@, guess.user_name@, j as int));
            assert forall|k: int| first_named(self.game.players@, guess.user_name@, k) implies k == j by {
                if k < j {
                } else if k > j {
                    assert(self.game.players@[j as int].user_name@ != guess.user_name@);
                }
            }
        }
        let ghost b = *self;
        let ghost p = self.game.players@[j as int];
        let ghost award = award_for(self.points.placement(), self.points.num_of_players());
        let current = match &self.current {
            Some(q) => q,
            None => {
                return;
            },
        };
        if !self.game.players[j].played && guess.index < current.choices.len() {
            let correct = current.choices[guess.index].correct;
            proof {
                lemma_count_played_update(b.game.players@, j as int, Player { played: true, ..p });
                lemma_count_played_bound(b.game.players@.update(j as int, Player { played: true, ..p }));
                b.points.lemma_num_of_players_range();
                crate::points::lemma_award_bounds(b.points.placement(), b.points.num_of_players());
            }
            if correct {
                let add_points = self.points.next_points();
                let points_this_round = add_points as usize;
                self.game.players[j].points = self.game.players[j].points + points_this_round;
                self.game.players[j].streak = self.game.players[j].streak + 1;
                let points_total = self.game.players[j].points;
                let streak = self.game.players[j].streak;
                self.game.players[j].player_round_end = Some(
                    PlayerRoundEnd {
                        event: String::from_str("questionEnd"),
                        correct: true,
                        points_this_round,
                        points_total,
                        streak,
                        position: 0,
                        behind: None,
                    },
                );
            } else {
                self.game.players[j].streak = 0;
                let points_total = self.game.players[j].points;
                self.game.players[j].player_round_end = Some(
                    PlayerRoundEnd {
                        event: String::from_str("questionEnd"),
                        correct: false,
                        points_this_round: 0,
                        points_total,
                        streak: 0,
                        position: 0,
                        behind: None,
                    },
                );
            }
        }
        self.game.players[j].played = true;
        proof {
            assert(self.game.players@ =~= b.game.players@.update(j as int, self.game.players@[j as int]));
            lemma_count_played_update(b.game.players@, j as int, self.game.players@[j as int]);
        }
    }

    /// The host left while the leaderboard was shown: the game ends without
    /// final standings. Leaving at any other time changes nothing.
    pub fn on_host_left(&mut self)
        requires
            old(self).wf(),
        ensures
            final(self).wf(),
            old(self).phase == HostPhase::Leaderboard ==> (*final(self) == (HostSession {
                phase: HostPhase::Finished,
                ..*old(self)
            })),
            old(self).phase != HostPhase::Leaderboard ==> *final(self) == *old(self),
    {
        if self.phase == HostPhase::Leaderboard {
            self.phase = HostPhase::Finished;
        }
    }

    /// Takes a command of the host.
    pub fn on_host_command(&mut self, command: &str) -> (deliveries: Vec<Delivery>)
        requires
            old(self).wf(),
            old(self).game.players.len() <= i32::MAX,
        ensures
            final(self).wf(),
            command_effect(*old(self), *final(self), command@, deliveries@),
    {
        proof {
            reveal_strlit("start");
            reveal_strlit("leaderboard");
            reveal_strlit("question");
        }
        match self.phase {
            HostPhase::Lobby => {
                if str_equals(command, "start") {
                    self.senders.in_progress = true;
                    assert(*self == marked_in_progress(*old(self)));
                    let d = self.start_next_question();
                    assert(command_effect(*old(self), *self, command@, d@));
                    d
                } else {
                    Vec::new()
                }
            },
            HostPhase::Leaderboard => {
                if str_equals(command, "question") {
                    let d = self.start_next_question();
                    assert(command_effect(*old(self), *self, command@, d@));
                    d
                } else {
                    Vec::new()
                }
            },
            HostPhase::Question => {
                if str_equals(command, "leaderboard") {
                    self.senders.receiving = false;
                    let mut players: Vec<Player> = Vec::new();
                    std::mem::swap(&mut players, &mut self.game.players);
                    let (closed, mut deliveries) = close_round(players);
                    let ghost round = deliveries@;
                    assert(round_deliveries(old(self).game.players@, round));
                    assert(round.len() == old(self).game.players.len() + 1);
                    proof {
                        lemma_closed_reports_current(old(self).game.players@);
                        lemma_sorted_reports_current(after_round(old(self).game.players@), by_points_descending());
                    }
                    if self.game.questions.len() == 0 {
                        let (standing, mut over) = final_standings(closed);
                        let ghost over_view = over@;
                        self.game.players = standing;
                        self.phase = HostPhase::Finished;
                        deliveries.append(&mut over);
                        proof {
                            assert(deliveries@.skip(round.len() as int) =~= over_view);
                        }
                        proof {
                            assert(deliveries@.take(round.len() as int) =~= round);
                            assert(round_deliveries(old(self).game.players@, deliveries@.take(old(self).game.players.len() + 1)));
                            assert(self.game.players@ == standings(after_round(old(self).game.players@)));
                            assert(game_over_deliveries(self.game.players@, deliveries@.skip(old(self).game.players.len() + 1)));
                            lemma_sort_props(old(self).game.players@, by_points());
                            lemma_sort_props(after_round(old(self).game.players@), by_points_descending());
                            assert(deliveries@.len() == 2 * old(self).game.players.len() + 1);
                        }
                    } else {
                        self.game.players = closed;
                        self.phase = HostPhase::Leaderboard;
                        proof {
                            assert(deliveries@.take(round.len() as int) =~= round);
                        }
                    }
                    assert(command_effect(*old(self), *self, command@, deliveries@));
                    deliveries
                } else {
                    Vec::new()
                }
            },
            HostPhase::Finished => Vec::new(),
        }
    }

    /// Asks the next question, or ends the game when none is left.
    fn start_next_question(&mut self) -> (deliveries: Vec<Delivery>)
        requires
            old(self).phase != HostPhase::Question,
            old(self).senders.in_progress,
            old(self).game.players.len() <= i32::MAX,
            reports_current(old(self).game.players@),
        ensures
            final(self).wf(),
            started_next(*old(self), *final(self), deliveries@),
    {
        proof {
            lemma_sorted_reports_current(self.game.players@, by_points_descending());
        }
        if self.game.questions.len() == 0 {
            let mut players: Vec<Player> = Vec::new();
            std::mem::swap(&mut players, &mut self.game.players);
            let (standing, deliveries) = final_standings(players);
            self.game.players = standing;
            self.phase = HostPhase::Finished;
            return deliveries;
        }
        let question = self.game.questions.remove(0);
        let n = self.game.players.len();
        let mut deliveries: Vec<Delivery> = Vec::new();
        let mut i: usize = 0;
        while i < n
            invariant
                n == self.game.players.len(),
                i <= n,
                deliveries.len() == i,
                forall|k: int|
                    0 <= k < i ==> #[trigger] deliveries@[k] == Delivery::ToPlayer(
                        self.game.players@[k].user_name,
                        PlayerMessage::QuestionStart { number_of_answers: question.choices.len() },
                    ),
            decreases n - i,
        {
            deliveries.push(
                Delivery::ToPlayer(
                    self.game.players[i].user_name.clone(),
                    PlayerMessage::QuestionStart { number_of_answers: question.choices.len() },
                ),
            );
            i = i + 1;
        }
        deliveries.push(
            Delivery::ToHost(
                HostMessage::Question {
                    question: question.question.clone(),
                    duration: question.time,
                    answers: copy_answers(&question.choices),
                },
            ),
        );
        self.points = Points::new(n as i32);
        self.senders.receiving = true;
        self.phase = HostPhase::Question;
        self.current = Some(question);
        proof {
            assert(self.game.questions@ =~= old(self).game.questions@.drop_first());
            assert(count_played(self.game.players@) >= 0);
        }
        deliveries
    }

    /// The answer to the host once the game exists under `game_id`.
    pub fn make_response(&self, game_id: String) -> (response: SuccessResponse)
        ensures
            response.success,
            response.game_id == game_id,
            response.game_name == self.game.game_code,
            response.question_count == self.game.questions.len(),
    {
        SuccessResponse {
            success: true,
            game_id,
            game_name: self.game.game_code.clone(),
            question_count: self.game.questions.len(),
        }
    }
}


/// A copy of the answers of a question.
fn copy_answers(answers: &Vec<KahootAnswer>) -> (copy: Vec<KahootAnswer>)
    ensures
        copy@ == answers@,
{
    let mut copy: Vec<KahootAnswer> = Vec::new();
    let mut i: usize = 0;
    while i < answers.len()
        invariant
            i <= answers.len(),
            copy@ == answers@.take(i as int),
        decreases answers.len() - i,
    {
        copy.push(KahootAnswer { answer: answers[i].answer.clone(), correct: answers[i].correct });
        i = i + 1;
        proof {
            assert(copy@ =~= answers@.take(i as int));
        }
    }
    assert(answers@.take(answers.len() as int) =~= answers@);
    copy
}

/// A random game id: six random decimal digits.
pub fn generate_game_id() -> (id: String)
    ensures
        id@.len() == 6,
        forall|i: int| 0 <= i < 6 ==> '0' <= #[trigger] id@[i] <= '9',
{
    let mut id = String::new();
    let mut i: usize = 0;
    while i < 6
        invariant
            i <= 6,
            id@.len() == i,
            forall|k: int| 0 <= k < i ==> '0' <= #[trigger] id@[k] <= '9',
        decreases 6 - i,
    {
        let c = random_digit();
        let d = (c as u32 - 48) as u8;
        let text = digit_text(d);
        proof {
            assert(crate::text::digit_char(d as nat) == c);
        }
        let ghost before = id@;
        id.append(text);
        proof {
            assert(id@ =~= before + seq![c]);
        }
        i = i + 1;
    }
    id
}

fn points_of(p: &Player) -> (r: i128)
    ensures
        r == p.points as int,
{
    p.points as i128
}

fn negated_entry_points(e: &LeaderboardEntry) -> (r: i128)
    ensures
        r == -(e.points as int),
{
    -(e.points as i128)
}

fn negated_points_of(p: &Player) -> (r: i128)
    ensures
        r == -(p.points as int),
{
    -(p.points as i128)
}

/// Closes a round: ranks the players by ascending points, tells each their
/// report, and the host the leaderboard, best first.
fn close_round(players: Vec<Player>) -> (result: (Vec<Player>, Vec<Delivery>))
    ensures
        result.0@ == after_round(players@),
        round_deliveries(players@, result.1@),
        result.1@.len() == players@.len() + 1,
{
    let ghost orig = players@;
    proof {
        lemma_sort_props(orig, by_points());
    }
    let mut entries: Vec<LeaderboardEntry> = Vec::new();
    let mut i: usize = 0;
    while i < players.len()
        invariant
            players@ == orig,
            i <= orig.len(),
            entries@ == orig.take(i as int).map_values(|p: Player| entry_of(p)),
        decreases orig.len() - i,
    {
        entries.push(
            LeaderboardEntry {
                user_name: players[i].user_name.clone(),
                points: players[i].points,
                streak: players[i].streak,
            },
        );
        i = i + 1;
        proof {
            assert(entries@ =~= orig.take(i as int).map_values(|p: Player| entry_of(p)));
        }
    }
    assert(orig.take(orig.len() as int) =~= orig);
    let leaderboard = sort_stable_by_key(
        entries,
        negated_entry_points,
        Ghost(|e: LeaderboardEntry| -(e.points as int)),
    );
    proof {
        lemma_sort_map(
            orig,
            |p: Player| entry_of(p),
            by_points_descending(),
            |e: LeaderboardEntry| -(e.points as int),
        );
        assert(leaderboard@ == standings(orig).map_values(|p: Player| entry_of(p)));
    }
    let sorted = sort_stable_by_key(
        players,
        points_of,
        Ghost(by_points()),
    );
    let ghost s = sorted@;
    assert(s == ranked(orig));
    let n = sorted.len();
    let mut rest = sorted;
    let mut closed: Vec<Player> = Vec::new();
    let mut deliveries: Vec<Delivery> = Vec::new();
    let mut done: usize = 0;
    assert(s.skip(0) =~= s);
    while done < n
        invariant
            n == s.len(),
            done <= n,
            rest@ == s.skip(done as int),
            closed@ == s.take(done as int).map_values(|p: Player| closed_player(p)),
            deliveries.len() == done,
            forall|k: int|
                0 <= k < done ==> match #[trigger] deliveries@[k] {
                    Delivery::ToPlayer(name, PlayerMessage::RoundEnd(r)) => {
                        &&& name == s[k].user_name
                        &&& is_round_report(s[k], (n - k) as usize, behind_of(s, k), r)
                    },
                    _ => false,
                },
        decreases n - done,
    {
        let mut p = rest.remove(0);
        let behind = if rest.len() > 0 {
            Some(rest[0].user_name.clone())
        } else {
            None
        };
        let position = n - done;
        let name = p.user_name.clone();
        let ghost before = p;
        let report = p.send(position, behind);
        proof {
            assert(before == s[done as int]);
            assert(behind == behind_of(s, done as int));
            assert(p == closed_player(before));
        }
        deliveries.push(Delivery::ToPlayer(name, PlayerMessage::RoundEnd(report)));
        closed.push(p);
        done = done + 1;
        proof {
            assert(rest@ =~= s.skip(done as int));
            assert(closed@ =~= s.take(done as int).map_values(|p: Player| closed_player(p)));
        }
    }
    assert(s.take(n as int) =~= s);
    deliveries.push(Delivery::ToHost(HostMessage::Leaderboard { leaderboard }));
    (closed, deliveries)
}

/// Ends the game: ranks the players by descending points and tells each
/// their final position.
fn final_standings(players: Vec<Player>) -> (result: (Vec<Player>, Vec<Delivery>))
    ensures
        result.0@ == standings(players@),
        game_over_deliveries(result.0@, result.1@),
{
    let sorted = sort_stable_by_key(
        players,
        negated_points_of,
        Ghost(by_points_descending()),
    );
    let n = sorted.len();
    let mut deliveries: Vec<Delivery> = Vec::new();
    let mut i: usize = 0;
    while i < n
        invariant
            n == sorted@.len(),
            i <= n,
            deliveries.len() == i,
            forall|k: int|
                0 <= k < i ==> #[trigger] deliveries@[k] == Delivery::ToPlayer(
                    sorted@[k].user_name,
                    PlayerMessage::GameOver { position: (k + 1) as usize },
                ),
        decreases n - i,
    {
        deliveries.push(
            Delivery::ToPlayer(sorted[i].user_name.clone(), PlayerMessage::GameOver { position: i + 1 }),
        );
        i = i + 1;
    }
    (sorted, deliveries)
}

} // verus!

verus! {

/// At the end of a round, a player with more points than another gets a
/// better (smaller) position; the positions run from 1 for the last player
/// in leaderboard order to the number of players for the first.
pub proof fn lemma_more_points_better_position(players: Seq<Player>, i: int, j: int)
    requires
        0 <= i < players.len(),
        0 <= j < players.len(),
        ranked(players)[i].points > ranked(players)[j].points,
    ensures
        ranked(players).len() == players.len(),
        players.len() - i < players.len() - j,
        1 <= players.len() - i <= players.len(),
{
    lemma_sort_props(players, by_points());
    let s = ranked(players);
    if i < j {
        assert(by_points()(s[i]) <= by_points()(s[j]));
    }
}

/// When a round closes in a consistent session, each report carries the
/// player's points, and a report with more points carries a better
/// (smaller) position.
pub proof fn lemma_round_reports_ordered(players: Seq<Player>, d: Seq<Delivery>, i: int, j: int)
    requires
        reports_current(players),
        round_deliveries(players, d),
        players.len() <= usize::MAX,
        0 <= i < players.len(),
        0 <= j < players.len(),
    ensures
        d[i] matches Delivery::ToPlayer(_, PlayerMessage::RoundEnd(ri)) && d[j] matches Delivery::ToPlayer(
            _,
            PlayerMessage::RoundEnd(rj),
        ) && {
            &&& ri.points_total == ranked(players)[i].points
            &&& rj.points_total == ranked(players)[j].points
            &&& 1 <= ri.position <= players.len()
            &&& (ri.points_total > rj.points_total ==> ri.position < rj.position)
        },
{
    lemma_sort_props(players, by_points());
    lemma_sorted_reports_current(players, by_points());
    let s = ranked(players);
    let n = s.len();
    assert(n == players.len());
    let di = d[i];
    let dj = d[j];
    match (di, dj) {
        (
            Delivery::ToPlayer(_, PlayerMessage::RoundEnd(ri)),
            Delivery::ToPlayer(_, PlayerMessage::RoundEnd(rj)),
        ) => {
            assert(is_round_report(s[i], (n - i) as usize, behind_of(s, i), ri));
            assert(is_round_report(s[j], (n - j) as usize, behind_of(s, j), rj));
            assert(ri.points_total == s[i].points);
            assert(rj.points_total == s[j].points);
            if s[i].points > s[j].points {
                lemma_more_points_better_position(players, i, j);
            }
        },
        _ => {
            assert(false);
        },
    }
}

/// A round loses no player and adds none: the leaderboard holds exactly the
/// players of the game.
pub proof fn lemma_round_keeps_players(players: Seq<Player>)
    ensures
        ranked(players).to_multiset() == players.to_multiset(),
        after_round(players).len() == players.len(),
        standings(players).to_multiset() == players.to_multiset(),
{
    lemma_sort_props(players, by_points());
    lemma_sort_props(players, by_points_descending());
}

/// At the end of the game the standings run from the most points to the
/// fewest, and the player in place `i` is told position `i + 1`.
pub proof fn lemma_standings_descend(players: Seq<Player>, i: int, j: int)
    requires
        0 <= i < j < players.len(),
    ensures
        standings(players)[i].points >= standings(players)[j].points,
{
    lemma_sort_props(players, by_points_descending());
    let s = standings(players);
    assert(by_points_descending()(s[i]) <= by_points_descending()(s[j]));
}

/// The leaderboard the host gets when a round closes lists every player once,
/// from the most points to the fewest.
pub proof fn lemma_round_leaderboard_descends(players: Seq<Player>, d: Seq<Delivery>)
    requires
        round_deliveries(players, d),
    ensures
        d[players.len() as int] matches Delivery::ToHost(HostMessage::Leaderboard { leaderboard }) && {
            &&& leaderboard@.len() == players.len()
            &&& leaderboard@.to_multiset() == players.map_values(|p: Player| entry_of(p)).to_multiset()
            &&& forall|i: int, j: int|
                0 <= i < j < players.len() ==> (#[trigger] leaderboard@[i]).points >= (
                #[trigger] leaderboard@[j]).points
        },
{
    lemma_sort_props(players, by_points());
    lemma_sort_props(players, by_points_descending());
    lemma_sort_map(
        players,
        |p: Player| entry_of(p),
        by_points_descending(),
        |e: LeaderboardEntry| -(e.points as int),
    );
    lemma_sort_props(players.map_values(|p: Player| entry_of(p)), |e: LeaderboardEntry| -(e.points as int));
    let s = standings(players);
    match d[players.len() as int] {
        Delivery::ToHost(HostMessage::Leaderboard { leaderboard }) => {
            assert forall|i: int, j: int| 0 <= i < j < players.len() implies (
            #[trigger] leaderboard@[i]).points >= (#[trigger] leaderboard@[j]).points by {
                lemma_standings_descend(players, i, j);
                assert(leaderboard@[i] == entry_of(s[i]));
                assert(leaderboard@[j] == entry_of(s[j]));
            }
        },
        _ => {},
    }
}

/// The names of the players of a game are distinct.
pub open spec fn distinct_names(players: Seq<Player>) -> bool {
    forall|i: int, j: int|
        0 <= i < j < players.len() ==> (#[trigger] players[i]).user_name@ != (#[trigger] players[j]).user_name@
}

/// Joining keeps the players' names distinct: a successful join adds a name
/// that no player had.
pub proof fn lemma_join_keeps_names_distinct(
    b: HostSession,
    a: HostSession,
    name: String,
    result: Result<(), FailResponse>,
)
    requires
        join_effect(b, a, name, result),
        distinct_names(b.game.players@),
    ensures
        distinct_names(a.game.players@),
{
    if result is Ok {
        let s = a.game.players@;
        assert forall|i: int, j: int| 0 <= i < j < s.len() implies (#[trigger] s[i]).user_name@ != (
        #[trigger] s[j]).user_name@ by {
            assert(s[i] == b.game.players@[i]);
            if j < s.len() - 1 {
                assert(s[j] == b.game.players@[j]);
            } else {
                assert(s[j] == s.last());
            }
        }
    }
}

/// Only a player's first guess of a round counts: a player who has guessed
/// is left as they are by another guess.
pub proof fn lemma_second_guess_ignored(p: Player, q: KahootQuestion, index: usize, award: int, a: Player)
    requires
        p.played,
        is_guessed(p, guess_outcome(p, q, index), award, a),
    ensures
        a == p,
{
}

/// The player named first `name` is one player: two first positions of a
/// name are the same.
proof fn lemma_first_named_unique(players: Seq<Player>, name: Seq<char>, j: int, k: int)
    requires
        first_named(players, name, j),
        first_named(players, name, k),
    ensures
        j == k,
{
    if j < k {
        assert(players[j].user_name@ == name);
    } else if k < j {
        assert(players[k].user_name@ == name);
    }
}

/// A counted guess during a question scores only the guessing player: a
/// wrong answer leaves their points as they were and ends their streak, and
/// their report says so; a right answer adds the award of its placement to
/// their points and extends their streak.
pub proof fn lemma_guess_scores(b: HostSession, a: HostSession, guess: PlayerGuess, j: int)
    requires
        guess_effect(b, a, guess),
        b.phase == HostPhase::Question,
        b.current is Some,
        first_named(b.game.players@, guess.user_name@, j),
        !b.game.players@[j].played,
        guess.index < b.current->0.choices.len(),
    ensures
        a.game.players@[j].user_name == b.game.players@[j].user_name,
        a.game.players@[j].played,
        !b.current->0.choices@[guess.index as int].correct ==> {
            &&& a.game.players@[j].points == b.game.players@[j].points
            &&& a.game.players@[j].streak == 0
            &&& a.game.players@[j].player_round_end matches Some(r) && {
                &&& !r.correct
                &&& r.points_this_round == 0
                &&& r.points_total == b.game.players@[j].points
                &&& r.streak == 0
            }
        },
        b.current->0.choices@[guess.index as int].correct ==> {
            &&& a.game.players@[j].points == b.game.players@[j].points + award_for(
                b.points.placement(),
                b.points.num_of_players(),
            )
            &&& a.game.players@[j].streak == b.game.players@[j].streak + 1
            &&& a.game.players@[j].player_round_end matches Some(r) && {
                &&& r.correct
                &&& r.points_total == a.game.players@[j].points
                &&& r.streak == a.game.players@[j].streak
            }
        },
        forall|k: int|
            0 <= k < b.game.players.len() && k != j ==> #[trigger] a.game.players@[k] == b.game.players@[k],
{
    let c = choose|k: int| first_named(b.game.players@, guess.user_name@, k);
    lemma_first_named_unique(b.game.players@, guess.user_name@, j, c);
}

/// Player `q` is player `p` after a round closed: same name and points, the
/// streak kept if `p` held a report of the round and lost otherwise, ready
/// to guess again with no report.
pub open spec fn kept_after_round(p: Player, q: Player) -> bool {
    &&& q.user_name == p.user_name
    &&& q.points == p.points
    &&& q.streak == if p.player_round_end is Some {
        p.streak
    } else {
        0
    }
    &&& !q.played
    &&& q.player_round_end is None
}

proof fn lemma_in_sort<T>(s: Seq<T>, key: spec_fn(T) -> int, m: int)
    requires
        0 <= m < s.len(),
    ensures
        sort_by_key(s, key).len() == s.len(),
        exists|i: int| 0 <= i < s.len() && s[i] == sort_by_key(s, key)[m],
{
    lemma_sort_props(s, key);
    let t = sort_by_key(s, key);
    assert(t.contains(t[m]));
    assert(s.contains(t[m]));
}

proof fn lemma_from_sort<T>(s: Seq<T>, key: spec_fn(T) -> int, i: int)
    requires
        0 <= i < s.len(),
    ensures
        sort_by_key(s, key).len() == s.len(),
        exists|m: int| 0 <= m < s.len() && sort_by_key(s, key)[m] == s[i],
{
    lemma_sort_props(s, key);
    let t = sort_by_key(s, key);
    assert(s.contains(s[i]));
    assert(t.contains(s[i]));
}

proof fn lemma_closed_both_ways(players: Seq<Player>)
    ensures
        after_round(players).len() == players.len(),
        forall|k: int|
            #![trigger after_round(players)[k]]
            0 <= k < players.len() ==> exists|i: int|
                0 <= i < players.len() && kept_after_round(#[trigger] players[i], after_round(players)[k]),
        forall|i: int|
            #![trigger players[i]]
            0 <= i < players.len() ==> exists|k: int|
                0 <= k < players.len() && kept_after_round(players[i], #[trigger] after_round(players)[k]),
{
    let r = ranked(players);
    let c = after_round(players);
    lemma_sort_props(players, by_points());
    assert forall|k: int| #![trigger c[k]] 0 <= k < players.len() implies exists|i: int|
        0 <= i < players.len() && kept_after_round(#[trigger] players[i], c[k]) by {
        lemma_in_sort(players, by_points(), k);
        let i = choose|i: int| 0 <= i < players.len() && players[i] == r[k];
        assert(c[k] == closed_player(r[k]));
        assert(kept_after_round(players[i], c[k]));
    }
    assert forall|i: int| #![trigger players[i]] 0 <= i < players.len() implies exists|k: int|
        0 <= k < players.len() && kept_after_round(players[i], #[trigger] c[k]) by {
        lemma_from_sort(players, by_points(), i);
        let k = choose|k: int| 0 <= k < players.len() && r[k] == players[i];
        assert(c[k] == closed_player(r[k]));
        assert(kept_after_round(players[i], c[k]));
    }
}

/// Closing a round keeps every player with their name and points: a player
/// who holds a report of the round keeps their streak, one who does not
/// loses it, and every player is ready to guess again with no report. No
/// player is lost or added.
pub proof fn lemma_round_close_keeps_streaks(b: HostSession, a: HostSession, d: Seq<Delivery>)
    requires
        b.phase == HostPhase::Question,
        command_effect(b, a, "leaderboard"@, d),
    ensures
        a.game.players.len() == b.game.players.len(),
        forall|k: int|
            #![trigger a.game.players@[k]]
            0 <= k < a.game.players.len() ==> exists|i: int|
                0 <= i < b.game.players.len() && kept_after_round(#[trigger] b.game.players@[i], a.game.players@[k]),
        forall|i: int|
            #![trigger b.game.players@[i]]
            0 <= i < b.game.players.len() ==> exists|k: int|
                0 <= k < a.game.players.len() && kept_after_round(b.game.players@[i], #[trigger] a.game.players@[k]),
{
    reveal_strlit("leaderboard");
    reveal_strlit("start");
    reveal_strlit("question");
    assert("leaderboard"@ != "start"@) by {
        assert("leaderboard"@.len() != "start"@.len());
    }
    assert("leaderboard"@ != "question"@) by {
        assert("leaderboard"@.len() != "question"@.len());
    }
    let players = b.game.players@;
    let c = after_round(players);
    lemma_closed_both_ways(players);
    if b.game.questions.len() == 0 {
        let st = standings(c);
        assert(a.game.players@ == st);
        lemma_sort_props(c, by_points_descending());
        assert forall|k: int| #![trigger a.game.players@[k]] 0 <= k < a.game.players.len() implies exists|i: int|
            0 <= i < b.game.players.len() && kept_after_round(#[trigger] b.game.players@[i], a.game.players@[k]) by {
            lemma_in_sort(c, by_points_descending(), k);
            let m = choose|m: int| 0 <= m < c.len() && c[m] == st[k];
            assert(c[m] == after_round(players)[m]);
            let i = choose|i: int| 0 <= i < players.len() && kept_after_round(#[trigger] players[i], c[m]);
            assert(b.game.players@[i] == players[i]);
        }
        assert forall|i: int| #![trigger b.game.players@[i]] 0 <= i < b.game.players.len() implies exists|k: int|
            0 <= k < a.game.players.len() && kept_after_round(b.game.players@[i], #[trigger] a.game.players@[k]) by {
            assert(players[i] == b.game.players@[i]);
            let m = choose|m: int| 0 <= m < players.len() && kept_after_round(players[i], #[trigger] c[m]);
            lemma_from_sort(c, by_points_descending(), m);
            let k = choose|k: int| 0 <= k < c.len() && st[k] == c[m];
            assert(a.game.players@[k] == st[k]);
        }
    } else {
        assert(a.game.players@ == c);
        assert forall|k: int| #![trigger a.game.players@[k]] 0 <= k < a.game.players.len() implies exists|i: int|
            0 <= i < b.game.players.len() && kept_after_round(#[trigger] b.game.players@[i], a.game.players@[k]) by {
            assert(a.game.players@[k] == c[k]);
            let i = choose|i: int| 0 <= i < players.len() && kept_after_round(#[trigger] players[i], c[k]);
            assert(b.game.players@[i] == players[i]);
        }
        assert forall|i: int| #![trigger b.game.players@[i]] 0 <= i < b.game.players.len() implies exists|k: int|
            0 <= k < a.game.players.len() && kept_after_round(b.game.players@[i], #[trigger] a.game.players@[k]) by {
            assert(players[i] == b.game.players@[i]);
            let k = choose|k: int| 0 <= k < players.len() && kept_after_round(players[i], #[trigger] c[k]);
            assert(a.game.players@[k] == c[k]);
        }
    }
}

} // verus!
