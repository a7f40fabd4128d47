//! What a player sends: the request to join a game and guesses.
use vstd::prelude::*;

verus! {

/// The first message of a would-be player.
#[derive(Debug)]
pub struct JoinRequest {
    pub game_id: String,
    pub player_name: String,
}

/// A player's guess: the index of the chosen answer.
#[derive(Debug)]
pub struct PlayerGuess {
    pub user_name: String,
    pub index: usize,
}

} // verus!
