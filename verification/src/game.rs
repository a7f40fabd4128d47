//! A quiz fetched from Kahoot and the game that is played with it.
use vstd::prelude::*;

use crate::err::{FailResponse, KascreechError};
use crate::player::Player;

verus! {

/// One of the choices of a question.
#[derive(Debug)]
pub struct KahootAnswer {
    pub answer: String,
    pub correct: bool,
}

/// A question, with its time limit and its choices.
#[derive(Debug)]
pub struct KahootQuestion {
    pub question: String,
    pub time: usize,
    pub choices: Vec<KahootAnswer>,
}

/// A quiz as Kahoot describes it; question times are in milliseconds.
#[derive(Debug)]
pub struct KahootGame {
    pub title: String,
    pub questions: Vec<KahootQuestion>,
}

/// A game being played: the questions still to come, in order, and the
/// players who joined.
#[derive(Debug)]
pub struct Game {
    pub game_code: String,
    pub questions: Vec<KahootQuestion>,
    pub players: Vec<Player>,
}

/// `q` is `fetched` with its time limit converted from milliseconds to
/// seconds.
pub open spec fn time_in_seconds(q: KahootQuestion, fetched: KahootQuestion) -> bool {
    &&& q.question == fetched.question
    &&& q.choices == fetched.choices
    &&& q.time == fetched.time / 1000
}

impl Game {
    /// The game for a quiz fetched from Kahoot: question times become
    /// seconds, and nobody has joined yet.
    pub fn new(kahoot_game: KahootGame) -> (game: Self)
        ensures
            game.game_code == kahoot_game.title,
            game.questions.len() == kahoot_game.questions.len(),
            forall|i: int|
                0 <= i < game.questions.len() ==> time_in_seconds(
                    #[trigger] game.questions@[i],
                    kahoot_game.questions@[i],
                ),
            game.players.len() == 0,
    {
        let KahootGame { title, questions } = kahoot_game;
        let ghost fetched = questions@;
        let mut remaining = questions;
        let mut converted: Vec<KahootQuestion> = Vec::new();
        let n = remaining.len();
        while remaining.len() > 0
            invariant
                n == fetched.len(),
                converted.len() + remaining.len() == n,
                remaining@ == fetched.skip(converted.len() as int),
                forall|i: int|
                    0 <= i < converted.len() ==> time_in_seconds(
                        #[trigger] converted@[i],
                        fetched[i],
                    ),
            decreases remaining.len(),
        {
            let KahootQuestion { question, time, choices } = remaining.remove(0);
            converted.push(KahootQuestion { question, time: time / 1000, choices });
            proof {
                assert(remaining@ =~= fetched.skip(converted.len() as int));
            }
        }
        Game { game_code: title, questions: converted, players: Vec::new() }
    }
}

/// The refusal of a host whose quiz could not be fetched: a quiz that Kahoot
/// does not know (HTTP status 404) is a game that was not found; any other
/// failure, described by `message`, is an unknown error.
pub fn fetch_failure(status: Option<u16>, message: String) -> (response: FailResponse)
    ensures
        !response.success,
        status == Some(404u16) ==> response.error_type == KascreechError::GameNotFound
            && response.error_message is None,
        status != Some(404u16) ==> response.error_type == KascreechError::UnknownError
            && response.error_message == Some(message),
{
    match status {
        Some(code) if code == 404 => FailResponse::new(KascreechError::GameNotFound, None),
        _ => FailResponse::new(KascreechError::UnknownError, Some(message)),
    }
}

/// Whether a game accepts guesses right now, and whether it has started.
#[derive(Debug)]
pub struct Senders {
    pub receiving: bool,
    pub in_progress: bool,
}

impl Senders {
    pub fn new() -> (senders: Self)
        ensures
            !senders.receiving,
            !senders.in_progress,
    {
        Senders { receiving: false, in_progress: false }
    }
}

} // verus!
