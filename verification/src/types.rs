//! The games of the WebSocket server: clients, games, players and questions.
use vstd::prelude::*;

pub use crate::player::PlayerRoundEnd;
use crate::host::LeaderboardEntry;

verus! {

/// Identifies a connected client.
pub type ClientId = u64;

/// What a connected client is doing.
#[derive(Debug)]
pub enum ClientStatus {
    /// Connected, neither playing nor hosting yet.
    Loading,
    /// Playing in the game of the given id.
    Playing(String),
    /// Hosting the game of the given id.
    Hosting(String),
}

/// Where a hosted game stands.
#[derive(PartialEq, Eq, Structural, Clone, Copy, Debug)]
pub enum GamePhase {
    Lobby,
    Question,
    Leaderboard,
}

/// One of the answers of a question.
#[derive(Debug)]
pub struct Answer {
    pub text: String,
    pub correct: bool,
}

/// A question: its text, how many seconds it runs and its answers.
#[derive(Debug)]
pub struct Question {
    pub question: String,
    pub duration: usize,
    pub answers: Vec<Answer>,
}

/// A player: their name, points, streak of correct answers, the answer they
/// gave this round and when, and their report of the last round.
#[derive(Debug)]
pub struct Player {
    pub name: String,
    pub points: usize,
    pub streak: usize,
    pub played: Option<usize>,
    pub answer_time: u128,
    pub player_round_end: Option<PlayerRoundEnd>,
}

/// A hosted game: the questions still to come, the phase, the players by
/// client, the host, the indices of the right answers of the current question
/// and when it was asked (in milliseconds).
#[derive(Debug)]
pub struct Game {
    pub id: String,
    pub questions: Vec<Question>,
    pub phase: GamePhase,
    pub players: Vec<(ClientId, Player)>,
    pub host: ClientId,
    pub correct_answers: Vec<usize>,
    pub question_start_time: u128,
}

/// A quiz as fetched from Kahoot.
#[derive(Debug)]
pub struct KahootGame {
    pub title: String,
    pub questions: Vec<Question>,
}

/// The leaderboard sent to a host.
#[derive(Debug)]
pub struct LeaderboardMessage {
    pub leaderboard: Vec<LeaderboardEntry>,
}

} // verus!
