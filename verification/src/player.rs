//! A player of a game and the report a player gets at the end of a round.
use vstd::prelude::*;

verus! {

/// What a player is told when a round ends.
#[derive(Debug)]
pub struct PlayerRoundEnd {
    pub event: String,
    pub correct: bool,
    pub points_this_round: usize,
    pub points_total: usize,
    pub streak: usize,
    pub position: usize,
    pub behind: Option<String>,
}

/// A player: their name, points, streak of correct answers, whether they
/// have guessed this round and what they earned with it.
#[derive(Debug)]
pub struct Player {
    pub user_name: String,
    pub points: usize,
    pub streak: usize,
    pub played: bool,
    pub player_round_end: Option<PlayerRoundEnd>,
}

/// The event name of a round report.
pub open spec fn question_end_event() -> Seq<char> {
    "questionEnd"@
}

/// The round report of a player who did not answer correctly this round.
pub open spec fn missed_round(points_total: usize, position: usize, behind: Option<String>, r: PlayerRoundEnd) -> bool {
    &&& r.event@ == question_end_event()
    &&& !r.correct
    &&& r.points_this_round == 0
    &&& r.points_total == points_total
    &&& r.streak == 0
    &&& r.position == position
    &&& r.behind == behind
}

impl Player {
    pub fn new(user_name: String) -> (player: Self)
        ensures
            player.user_name == user_name,
            player.points == 0,
            player.streak == 0,
            !player.played,
            player.player_round_end is None,
    {
        Player { user_name, points: 0, streak: 0, played: false, player_round_end: None }
    }

    /// Closes the player's round at `position`, one place below the player
    /// named `behind`, and returns the report the player is sent. A player
    /// without a report this round loses their streak.
    pub fn send(&mut self, position: usize, behind: Option<String>) -> (report: PlayerRoundEnd)
        ensures
            !final(self).played,
            final(self).player_round_end is None,
            final(self).user_name == old(self).user_name,
            final(self).points == old(self).points,
            match old(self).player_round_end {
                Some(r) => {
                    &&& final(self).streak == old(self).streak
                    &&& report == PlayerRoundEnd { position, behind, ..r }
                },
                None => {
                    &&& final(self).streak == 0
                    &&& missed_round(old(self).points, position, behind, report)
                },
            },
    {
        self.played = false;
        let report = match self.player_round_end.take() {
            Some(mut r) => {
                r.position = position;
                r.behind = behind;
                r
            },
            None => {
                self.streak = 0;
                PlayerRoundEnd {
                    event: String::from_str("questionEnd"),
                    correct: false,
                    points_this_round: 0,
                    points_total: self.points,
                    streak: self.streak,
                    position,
                    behind,
                }
            },
        };
        report
    }
}

} // verus!
