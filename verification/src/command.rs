//! The command a client sends to steer a game.
use vstd::prelude::*;

verus! {

/// A generic command, such as `start`, `leaderboard` or `question`.
#[derive(Debug)]
pub struct Command {
    pub command: String,
}

} // verus!
