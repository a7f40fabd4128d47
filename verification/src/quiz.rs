//! Timed quizzes: each game runs on a fixed schedule and is dropped once its
//! last question is over.
use vstd::prelude::*;

use crate::ranking::{sort_by_key, sort_stable_by_key};

verus! {

/// Milliseconds a question is open unless given.
pub const DEFAULT_TIME_PER_QUESTION: u128 = 20000;

/// Milliseconds the answers are shown unless given.
pub const DEFAULT_TIME_SHOWING_ANSWERS: u128 = 5000;

/// Milliseconds the leaderboard is shown unless given.
pub const DEFAULT_TIME_SHOWING_LEADERBOARD: u128 = 5000;

/// Milliseconds between creating a game and its start.
pub const START_DELAY: u128 = 30000;

/// A question, its four responses and the indices of the right ones.
#[derive(Debug)]
pub struct QAndA {
    question: String,
    responses: [String; 4],
    correct: Vec<usize>,
}

impl QAndA {
    /// The indices of the right responses.
    pub closed spec fn correct(self) -> Seq<usize> {
        self.correct@
    }

    /// The question asked.
    pub closed spec fn question(self) -> Seq<char> {
        self.question@
    }

    /// The four responses offered.
    pub closed spec fn responses(self) -> [String; 4] {
        self.responses
    }

    pub fn new(question: String, responses: [String; 4], correct: Vec<usize>) -> (q: Self)
        ensures
            q.question() == question@,
            q.responses() == responses,
            q.correct() == correct@,
    {
        QAndA { question, responses, correct }
    }
}

/// A guess scored by the client: the player and the score it earned.
#[derive(Debug)]
pub struct Guess {
    pub uuid: String,
    pub score: u32,
}

/// What a client needs to run a game: the right answers of each question
/// and the schedule.
#[derive(Debug)]
pub struct SetupGame {
    pub answers: Vec<Vec<usize>>,
    pub time_per_question: Option<u128>,
    pub time_showing_answers: Option<u128>,
    pub time_showing_leaderboard: Option<u128>,
    pub game_start_time: u128,
}

impl SetupGame {
    pub fn new(
        answers: Vec<Vec<usize>>,
        time_per_question: Option<u128>,
        time_showing_answers: Option<u128>,
        time_showing_leaderboard: Option<u128>,
        game_start_time: u128,
    ) -> (setup: Self)
        ensures
            setup.answers@ == answers@,
            setup.time_per_question == time_per_question,
            setup.time_showing_answers == time_showing_answers,
            setup.time_showing_leaderboard == time_showing_leaderboard,
            setup.game_start_time == game_start_time,
    {
        SetupGame { answers, time_per_question, time_showing_answers, time_showing_leaderboard, game_start_time }
    }
}

/// A player and their score.
#[derive(Debug)]
pub struct Player {
    uuid: String,
    username: String,
    score: u32,
}

impl Player {
    pub closed spec fn uuid(self) -> Seq<char> {
        self.uuid@
    }

    pub closed spec fn username(self) -> Seq<char> {
        self.username@
    }

    pub closed spec fn score(self) -> u32 {
        self.score
    }

    /// A player with id `id.0` and name `id.1`, without a score.
    pub fn from(id: (String, String)) -> (player: Self)
        ensures
            player.uuid() == id.0@,
            player.username() == id.1@,
            player.score() == 0,
    {
        Player { uuid: id.0, username: id.1, score: 0 }
    }

    /// Ranks players by score, the highest first: `Less` when `self` has the
    /// higher score.
    pub fn cmp(&self, other: &Self) -> (order: std::cmp::Ordering)
        ensures
            order == if self.score() > other.score() {
                std::cmp::Ordering::Less
            } else if self.score() == other.score() {
                std::cmp::Ordering::Equal
            } else {
                std::cmp::Ordering::Greater
            },
    {
        if self.score > other.score {
            std::cmp::Ordering::Less
        } else if self.score == other.score {
            std::cmp::Ordering::Equal
        } else {
            std::cmp::Ordering::Greater
        }
    }

    /// The same ranking, as a partial order that is total.
    pub fn partial_cmp(&self, other: &Self) -> (order: Option<std::cmp::Ordering>)
        ensures
            order == Some(
                if self.score() > other.score() {
                    std::cmp::Ordering::Less
                } else if self.score() == other.score() {
                    std::cmp::Ordering::Equal
                } else {
                    std::cmp::Ordering::Greater
                },
            ),
    {
        Some(self.cmp(other))
    }
}

/// The players of a game.
#[derive(Debug)]
pub struct Players {
    pub players: Vec<Player>,
}

/// The questions and schedule of a game.
#[derive(Debug)]
pub struct Chungus {
    big_chungus: bool,
    questions: Vec<QAndA>,
    time_per_question: u128,
    time_showing_answers: u128,
    time_showing_leaderboard: u128,
    game_start_time: u128,
    game_id: String,
}

/// A duration that was given, or its default.
pub open spec fn given_or(time: Option<u128>, default: u128) -> u128 {
    match time {
        Some(t) => t,
        None => default,
    }
}

/// The durations of one question, as given or by default, add up to no
/// more than a `u128` holds, and so does the end of a game of `count`
/// questions created at `now`.
pub open spec fn schedule_fits(
    now: u128,
    time_per_question: Option<u128>,
    time_showing_answers: Option<u128>,
    time_showing_leaderboard: Option<u128>,
    count: nat,
) -> bool {
    &&& given_or(time_per_question, DEFAULT_TIME_PER_QUESTION) + given_or(
        time_showing_answers,
        DEFAULT_TIME_SHOWING_ANSWERS,
    ) + given_or(time_showing_leaderboard, DEFAULT_TIME_SHOWING_LEADERBOARD) <= u128::MAX
    &&& end_of_game(now, time_per_question, time_showing_answers, time_showing_leaderboard, count)
        <= u128::MAX
}

/// When a game created at `now` with the given schedule and `count`
/// questions is over.
pub open spec fn end_of_game(
    now: u128,
    time_per_question: Option<u128>,
    time_showing_answers: Option<u128>,
    time_showing_leaderboard: Option<u128>,
    count: nat,
) -> int {
    (now + START_DELAY) + (given_or(time_per_question, DEFAULT_TIME_PER_QUESTION) + given_or(
        time_showing_answers,
        DEFAULT_TIME_SHOWING_ANSWERS,
    ) + given_or(time_showing_leaderboard, DEFAULT_TIME_SHOWING_LEADERBOARD)) * count
}

impl Chungus {
    /// The flag by which clients recognise a timed quiz.
    pub closed spec fn big_chungus(self) -> bool {
        self.big_chungus
    }

    pub closed spec fn questions(self) -> Seq<QAndA> {
        self.questions@
    }

    pub closed spec fn time_per_question(self) -> u128 {
        self.time_per_question
    }

    pub closed spec fn time_showing_answers(self) -> u128 {
        self.time_showing_answers
    }

    pub closed spec fn time_showing_leaderboard(self) -> u128 {
        self.time_showing_leaderboard
    }

    pub closed spec fn start_time(self) -> u128 {
        self.game_start_time
    }

    pub closed spec fn id(self) -> Seq<char> {
        self.game_id@
    }

    /// The schedule of a game created at `now`: it starts after the start
    /// delay, and each duration not given takes its default.
    fn new(
        questions: Vec<QAndA>,
        time_per_question: Option<u128>,
        time_showing_answers: Option<u128>,
        time_showing_leaderboard: Option<u128>,
        game_id: String,
        now: u128,
    ) -> (chungus: Self)
        requires
            now + START_DELAY <= u128::MAX,
        ensures
            chungus.questions() == questions@,
            chungus.time_per_question() == given_or(time_per_question, DEFAULT_TIME_PER_QUESTION),
            chungus.time_showing_answers() == given_or(time_showing_answers, DEFAULT_TIME_SHOWING_ANSWERS),
            chungus.time_showing_leaderboard() == given_or(
                time_showing_leaderboard,
                DEFAULT_TIME_SHOWING_LEADERBOARD,
            ),
            chungus.big_chungus(),
            chungus.start_time() == now + START_DELAY,
            chungus.id() == game_id@,
    {
        Chungus {
            big_chungus: true,
            questions,
            time_per_question: match time_per_question {
                Some(t) => t,
                None => DEFAULT_TIME_PER_QUESTION,
            },
            time_showing_answers: match time_showing_answers {
                Some(t) => t,
                None => DEFAULT_TIME_SHOWING_ANSWERS,
            },
            time_showing_leaderboard: match time_showing_leaderboard {
                Some(t) => t,
                None => DEFAULT_TIME_SHOWING_LEADERBOARD,
            },
            game_start_time: now + START_DELAY,
            game_id,
        }
    }

    /// When the game starts, in milliseconds.
    pub fn game_start_time(&self) -> (start: &u128)
        ensures
            *start == self.start_time(),
    {
        &self.game_start_time
    }

    /// The right answers of each question.
    fn answers(&self) -> (answers: Vec<Vec<usize>>)
        ensures
            answers.len() == self.questions().len(),
            forall|i: int| 0 <= i < answers.len() ==> #[trigger] answers@[i]@ == self.questions()[i].correct(),
    {
        let mut answers: Vec<Vec<usize>> = Vec::new();
        let mut i: usize = 0;
        while i < self.questions.len()
            invariant
                i <= self.questions.len(),
                answers.len() == i,
                forall|k: int| 0 <= k < i ==> #[trigger] answers@[k]@ == self.questions@[k].correct@,
            decreases self.questions.len() - i,
        {
            answers.push(copy_indices(&self.questions[i].correct));
            i = i + 1;
        }
        answers
    }
}

fn copy_indices(v: &Vec<usize>) -> (copy: Vec<usize>)
    ensures
        copy@ == v@,
{
    let mut copy: Vec<usize> = Vec::new();
    let mut i: usize = 0;
    while i < v.len()
        invariant
            i <= v.len(),
            copy@ == v@.take(i as int),
        decreases v.len() - i,
    {
        copy.push(v[i]);
        i = i + 1;
        proof {
            assert(copy@ =~= v@.take(i as int));
        }
    }
    assert(v@.take(v.len() as int) =~= v@);
    copy
}

/// A timed game: its players, its schedule and when it is dropped.
#[derive(Debug)]
pub struct Game {
    pub players: Players,
    chungus: Chungus,
    to_remove: u128,
}

/// Ranks players by descending score.
pub open spec fn by_score_descending() -> spec_fn(Player) -> int {
    |p: Player| -(p.score() as int)
}

fn negated_score(p: &Player) -> (key: i128)
    ensures
        key == -(p.score() as int),
{
    -(p.score as i128)
}

impl Game {
    /// The players of the game.
    pub closed spec fn player_list(self) -> Seq<Player> {
        self.players.players@
    }

    pub closed spec fn schedule(self) -> Chungus {
        self.chungus
    }

    /// When the game is over and may be dropped, in milliseconds.
    pub closed spec fn to_remove(self) -> u128 {
        self.to_remove
    }

    /// A game `game_id` created at `now`, with nobody in it yet; it is over
    /// once every question has been asked and answered and its leaderboard
    /// shown.
    pub fn new(
        game_id: String,
        questions: Vec<QAndA>,
        time_per_question: Option<u128>,
        time_showing_answers: Option<u128>,
        time_showing_leaderboard: Option<u128>,
        now: u128,
    ) -> (game: Self)
        requires
            schedule_fits(now, time_per_question, time_showing_answers, time_showing_leaderboard, questions@.len()),
        ensures
            game.player_list().len() == 0,
            game.schedule().questions() == questions@,
            game.schedule().time_per_question() == given_or(time_per_question, DEFAULT_TIME_PER_QUESTION),
            game.schedule().time_showing_answers() == given_or(time_showing_answers, DEFAULT_TIME_SHOWING_ANSWERS),
            game.schedule().time_showing_leaderboard() == given_or(
                time_showing_leaderboard,
                DEFAULT_TIME_SHOWING_LEADERBOARD,
            ),
            game.schedule().big_chungus(),
            game.schedule().start_time() == now + START_DELAY,
            game.schedule().id() == game_id@,
            game.to_remove() == end_of_game(
                now,
                time_per_question,
                time_showing_answers,
                time_showing_leaderboard,
                questions@.len(),
            ),
    {
        let ghost count = questions@.len();
        let chungus = Chungus::new(
            questions,
            time_per_question,
            time_showing_answers,
            time_showing_leaderboard,
            game_id,
            now,
        );
        let len = chungus.questions.len() as u128;
        let per_question = chungus.time_per_question + chungus.time_showing_answers
            + chungus.time_showing_leaderboard;
        assert(per_question * len <= u128::MAX) by (nonlinear_arith)
            requires
                chungus.game_start_time + per_question * len <= u128::MAX,
                chungus.game_start_time >= 0,
        ;
        let to_remove = chungus.game_start_time + per_question * len;
        Game { players: Players { players: Vec::new() }, chungus, to_remove }
    }

    /// The schedule of the game.
    pub fn chungus(&self) -> (chungus: &Chungus)
        ensures
            *chungus == self.schedule(),
    {
        &self.chungus
    }

    /// What a client needs to run the game.
    pub fn as_setup_game(&self) -> (setup: SetupGame)
        ensures
            setup.answers.len() == self.schedule().questions().len(),
            forall|i: int|
                0 <= i < setup.answers.len() ==> #[trigger] setup.answers@[i]@ == self.schedule().questions()[i].correct(),
            setup.time_per_question == Some(self.schedule().time_per_question()),
            setup.time_showing_answers == Some(self.schedule().time_showing_answers()),
            setup.time_showing_leaderboard == Some(self.schedule().time_showing_leaderboard()),
            setup.game_start_time == self.schedule().start_time(),
    {
        SetupGame::new(
            self.chungus.answers(),
            Some(self.chungus.time_per_question),
            Some(self.chungus.time_showing_answers),
            Some(self.chungus.time_showing_leaderboard),
            self.chungus.game_start_time,
        )
    }

    /// Adds the score of `guess` to the first player with its id; a guess of
    /// nobody in the game changes nothing.
    pub fn add_score(&mut self, guess: Guess)
        requires
            forall|i: int|
                0 <= i < old(self).player_list().len() ==> (#[trigger] old(self).player_list()[i]).score()
                    + guess.score <= u32::MAX,
        ensures
            final(self).schedule() == old(self).schedule(),
            final(self).to_remove() == old(self).to_remove(),
            final(self).player_list().len() == old(self).player_list().len(),
            match first_with_uuid(old(self).player_list(), guess.uuid@) {
                Some(j) => {
                    &&& final(self).player_list()[j].uuid() == old(self).player_list()[j].uuid()
                    &&& final(self).player_list()[j].username() == old(self).player_list()[j].username()
                    &&& final(self).player_list()[j].score() == old(self).player_list()[j].score() + guess.score
                    &&& forall|k: int|
                        0 <= k < old(self).player_list().len() && k != j ==> #[trigger] final(self).player_list()[k]
                            == old(self).player_list()[k]
                },
                None => final(self).player_list() == old(self).player_list(),
            },
    {
        let n = self.players.players.len();
        let mut j: usize = 0;
        while j < n
            invariant
                n == self.players.players.len(),
                j <= n,
                forall|k: int| 0 <= k < j ==> (#[trigger] self.players.players@[k]).uuid() != guess.uuid@,
            ensures
                j <= n,
                forall|k: int| 0 <= k < j ==> (#[trigger] self.players.players@[k]).uuid() != guess.uuid@,
                j < n ==> self.players.players@[j as int].uuid() == guess.uuid@,
            decreases n - j,
        {
            if self.players.players[j].uuid == guess.uuid {
                break;
            }
            j = j + 1;
        }
        proof {
            lemma_first_with_uuid(old(self).player_list(), guess.uuid@, j as int);
        }
        if j < n {
            let score = self.players.players[j].score + guess.score;
            self.players.players[j].score = score;
        }
    }

    /// Adds a player with id `id.0` and name `id.1`.
    pub fn add_player(&mut self, id: (String, String))
        ensures
            final(self).schedule() == old(self).schedule(),
            final(self).to_remove() == old(self).to_remove(),
            final(self).player_list().len() == old(self).player_list().len() + 1,
            final(self).player_list().drop_last() == old(self).player_list(),
            final(self).player_list().last().uuid() == id.0@,
            final(self).player_list().last().username() == id.1@,
            final(self).player_list().last().score() == 0,
    {
        let player = Player::from(id);
        self.players.players.push(player);
        assert(self.players.players@.drop_last() =~= old(self).player_list());
    }

    /// Orders the players by descending score, ties in the order they had.
    pub fn sort(&mut self)
        ensures
            final(self).schedule() == old(self).schedule(),
            final(self).to_remove() == old(self).to_remove(),
            final(self).player_list() == sort_by_key(old(self).player_list(), by_score_descending()),
    {
        let mut players: Vec<Player> = Vec::new();
        std::mem::swap(&mut players, &mut self.players.players);
        self.players.players = sort_stable_by_key(players, negated_score, Ghost(by_score_descending()));
    }

    /// The id of the game.
    pub fn game_id(&self) -> (id: &str)
        ensures
            id@ == self.schedule().id(),
    {
        self.chungus.game_id.as_str()
    }
}

/// The index of the first player with id `uuid`, if any.
pub open spec fn first_with_uuid(players: Seq<Player>, uuid: Seq<char>) -> Option<int>
    decreases players.len(),
{
    if players.len() == 0 {
        None
    } else if players[0].uuid() == uuid {
        Some(0)
    } else {
        match first_with_uuid(players.drop_first(), uuid) {
            Some(j) => Some(j + 1),
            None => None,
        }
    }
}

proof fn lemma_first_with_uuid(players: Seq<Player>, uuid: Seq<char>, j: int)
    requires
        0 <= j <= players.len(),
        forall|k: int| 0 <= k < j ==> (#[trigger] players[k]).uuid() != uuid,
        j < players.len() ==> players[j].uuid() == uuid,
    ensures
        first_with_uuid(players, uuid) == if j < players.len() {
            Some(j)
        } else {
            None::<int>
        },
    decreases j,
{
    if j > 0 {
        let t = players.drop_first();
        assert forall|k: int| 0 <= k < j - 1 implies (#[trigger] t[k]).uuid() != uuid by {
            assert(t[k] == players[k + 1]);
        }
        lemma_first_with_uuid(t, uuid, j - 1);
    }
}

/// The games being played.
#[derive(Debug)]
pub struct Games {
    pub games: Vec<Game>,
}

/// The game is still running at `now`.
pub open spec fn running_at(now: u128) -> spec_fn(Game) -> bool {
    |g: Game| !(now > g.to_remove())
}

impl Games {
    pub fn new() -> (games: Self)
        ensures
            games.games.len() == 0,
    {
        Games { games: Vec::new() }
    }

    /// Adds a game with `questions` created at `now`, under a random id of
    /// six digits and the default schedule.
    pub fn generate_new_game(&mut self, questions: Vec<QAndA>, now: u128)
        requires
            schedule_fits(now, None, None, None, questions@.len()),
        ensures
            final(self).games.len() == old(self).games.len() + 1,
            final(self).games@.drop_last() == old(self).games@,
            ({
                let g = final(self).games@.last();
                &&& g.player_list().len() == 0
                &&& g.schedule().questions() == questions@
                &&& g.schedule().id().len() == 6
                &&& forall|i: int| 0 <= i < 6 ==> '0' <= #[trigger] g.schedule().id()[i] <= '9'
                &&& g.schedule().time_per_question() == DEFAULT_TIME_PER_QUESTION
                &&& g.schedule().time_showing_answers() == DEFAULT_TIME_SHOWING_ANSWERS
                &&& g.schedule().time_showing_leaderboard() == DEFAULT_TIME_SHOWING_LEADERBOARD
                &&& g.schedule().big_chungus()
                &&& g.schedule().start_time() == now + START_DELAY
                &&& g.to_remove() == end_of_game(now, None, None, None, questions@.len())
            }),
    {
        let game_id = crate::host::generate_game_id();
        let new_game = Game::new(game_id, questions, None, None, None, now);
        self.games.push(new_game);
        assert(self.games@.drop_last() =~= old(self).games@);
    }

    /// Drops the games that are over at `now`.
    pub fn check(&mut self, now: u128)
        ensures
            final(self).games@ == old(self).games@.filter(running_at(now)),
    {
        let ghost orig = self.games@;
        let mut rest: Vec<Game> = Vec::new();
        std::mem::swap(&mut rest, &mut self.games);
        let n = rest.len();
        let mut k: usize = 0;
        assert(orig.take(0).filter(running_at(now)) =~= Seq::<Game>::empty());
        assert(rest@ =~= orig.skip(0));
        while k < n
            invariant
                n == orig.len(),
                k <= n,
                rest@ == orig.skip(k as int),
                self.games@ == orig.take(k as int).filter(running_at(now)),
            decreases n - k,
        {
            let game = rest.remove(0);
            proof {
                assert(orig.take(k + 1).drop_last() =~= orig.take(k as int));
                assert(orig.take(k + 1).last() == game);
                reveal_with_fuel(Seq::filter, 1);
            }
            if !(now > game.to_remove) {
                self.games.push(game);
            }
            k = k + 1;
            proof {
                assert(rest@ =~= orig.skip(k as int));
            }
        }
        assert(orig.take(n as int) =~= orig);
    }
}

} // verus!

verus! {

/// Dropping the games that are over at `now` keeps exactly the games still
/// running: every game kept runs until `now` at least, and every running
/// game is kept.
pub proof fn lemma_check_keeps_running(games: Seq<Game>, now: u128)
    ensures
        forall|i: int|
            0 <= i < games.filter(running_at(now)).len() ==> (#[trigger] games.filter(running_at(now))[i]).to_remove()
                >= now,
        forall|i: int|
            0 <= i < games.len() && (#[trigger] games[i]).to_remove() >= now ==> games.filter(
                running_at(now),
            ).contains(games[i]),
{
    let kept = games.filter(running_at(now));
    assert forall|i: int| 0 <= i < kept.len() implies (#[trigger] kept[i]).to_remove() >= now by {
        games.lemma_filter_pred(running_at(now), i);
    }
    assert forall|i: int| 0 <= i < games.len() && (#[trigger] games[i]).to_remove() >= now implies kept.contains(
        games[i],
    ) by {
        games.lemma_filter_contains(running_at(now), i);
    }
}

} // verus!
