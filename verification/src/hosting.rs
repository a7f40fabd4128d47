//! Hosting a game on the WebSocket server: asking the next question and
//! closing a round with its leaderboard.
use vstd::prelude::*;

use crate::err::{is_failure, missing_parameter_message, FailResponse};
use crate::host::LeaderboardEntry;
use crate::player::question_end_event;
use crate::ranking::{lemma_sort_props, sort_by_key, sort_stable_by_key};
use crate::types::{Answer, ClientId, Game, GamePhase, Player, PlayerRoundEnd, Question};

verus! {

/// A message for the host of a game.
#[derive(Debug)]
pub enum HostEvent {
    Question(Question),
    Leaderboard(Vec<LeaderboardEntry>),
}

/// A message for a player of a game.
#[derive(Debug)]
pub enum PlayerEvent {
    QuestionStart { number_of_answers: usize },
    RoundEnd(PlayerRoundEnd),
    End { position: usize },
}

/// A message and its recipient.
#[derive(Debug)]
pub enum Outbound {
    ToHost(HostEvent),
    ToPlayer(ClientId, PlayerEvent),
}

/// The indices of the right answers, in order.
pub open spec fn correct_indices(answers: Seq<Answer>) -> Seq<usize>
    decreases answers.len(),
{
    if answers.len() == 0 {
        Seq::empty()
    } else {
        let earlier = correct_indices(answers.drop_last());
        if answers.last().correct {
            earlier.push((answers.len() - 1) as usize)
        } else {
            earlier
        }
    }
}

/// `a` is a copy of question `b`.
pub open spec fn same_question(a: Question, b: Question) -> bool {
    &&& a.question == b.question
    &&& a.duration == b.duration
    &&& a.answers@ == b.answers@
}

/// A player who gave `played` guessed one of the right answers.
pub open spec fn guessed_right(correct_answers: Seq<usize>, played: Option<usize>) -> bool {
    match played {
        Some(guess) => correct_answers.contains(guess),
        None => false,
    }
}

/// The effect of asking the next question of game `b` at time `now`.
pub open spec fn question_asked(b: Game, a: Game, now: u128, out: Seq<Outbound>) -> bool {
    let q = b.questions@[0];
    let n = b.players.len();
    &&& a.id == b.id
    &&& a.host == b.host
    &&& a.players@ == b.players@
    &&& a.questions@ == b.questions@.drop_first()
    &&& a.phase == GamePhase::Question
    &&& a.correct_answers@ == correct_indices(q.answers@)
    &&& a.question_start_time == now
    &&& out.len() == n + 1
    &&& out[0] matches Outbound::ToHost(HostEvent::Question(c)) && same_question(c, q)
    &&& forall|i: int|
        0 <= i < n ==> #[trigger] out[i + 1] == Outbound::ToPlayer(
            b.players@[i].0,
            PlayerEvent::QuestionStart { number_of_answers: q.answers.len() },
        )
}

/// The points of player `k` of game `g` once the round is scored.
pub open spec fn points_after(g: Game, awarded: Seq<usize>, k: int) -> int {
    g.players@[k].1.points + if guessed_right(g.correct_answers@, g.players@[k].1.played) {
        awarded[k] as int
    } else {
        0
    }
}

/// The players of game `g` by ascending points after the round, each as its
/// points and its index, ties in the order of the players.
pub open spec fn round_order(g: Game, awarded: Seq<usize>) -> Seq<(usize, usize)> {
    sort_by_key(
        Seq::new(g.players.len() as nat, |k: int| (points_after(g, awarded, k) as usize, k as usize)),
        |e: (usize, usize)| e.0 as int,
    )
}

/// The players of game `g` in leaderboard order: descending points after
/// the round, each as its points and its index, ties in the order of the
/// players.
pub open spec fn board_order(g: Game, awarded: Seq<usize>) -> Seq<(usize, usize)> {
    sort_by_key(
        Seq::new(g.players.len() as nat, |k: int| (points_after(g, awarded, k) as usize, k as usize)),
        |e: (usize, usize)| -(e.0 as int),
    )
}

/// Player `p` became `a` by a round in which they guessed right or not, and
/// a right guess earned `award`.
pub open spec fn scored_player(p: Player, right: bool, award: usize, a: Player) -> bool {
    let earned = if right {
        award as int
    } else {
        0
    };
    &&& a.name == p.name
    &&& a.points == p.points + earned
    &&& a.streak == if right {
        p.streak + 1
    } else {
        0
    }
    &&& a.played is None
    &&& a.answer_time == p.answer_time
    &&& a.player_round_end matches Some(r) && {
        &&& r.event@ == question_end_event()
        &&& r.correct == right
        &&& r.points_this_round == earned
        &&& r.points_total == a.points
        &&& r.streak == a.streak
    }
}

/// The leaderboard line of a player.
pub open spec fn entry_of(p: Player) -> LeaderboardEntry {
    LeaderboardEntry { user_name: p.name, points: p.points, streak: p.streak }
}

/// The effect of closing the round of game `b`, with `awarded[k]` the points
/// a right guess of player `k` earns; `endgame` when it was the last question.
pub open spec fn round_scored(b: Game, a: Game, awarded: Seq<usize>, endgame: bool, out: Seq<Outbound>) -> bool {
    let n = b.players.len();
    let order = round_order(b, awarded);
    &&& a.id == b.id
    &&& a.host == b.host
    &&& a.questions@ == b.questions@
    &&& a.correct_answers@ == b.correct_answers@
    &&& a.question_start_time == b.question_start_time
    &&& a.phase == GamePhase::Leaderboard
    &&& a.players.len() == n
    &&& order.len() == n
    &&& forall|k: int|
        0 <= k < n ==> {
            &&& (#[trigger] a.players@[k]).0 == b.players@[k].0
            &&& scored_player(
                b.players@[k].1,
                guessed_right(b.correct_answers@, b.players@[k].1.played),
                awarded[k],
                a.players@[k].1,
            )
        }
    &&& forall|r: int|
        0 <= r < n ==> {
            let k = (#[trigger] order[r]).1 as int;
            &&& 0 <= k < n
            &&& a.players@[k].1.player_round_end matches Some(re) && {
                &&& re.position == n - r
                &&& re.behind == if r + 1 < n {
                    Some(a.players@[order[r + 1].1 as int].1.name)
                } else {
                    None
                }
            }
        }
    &&& out[0] matches Outbound::ToHost(HostEvent::Leaderboard(board)) && board@ == board_order(
        b,
        awarded,
    ).map_values(|e: (usize, usize)| entry_of(a.players@[e.1 as int].1))
    &&& if endgame {
        &&& out.len() == 1 + 2 * n
        &&& forall|k: int|
            0 <= k < n ==> {
                &&& #[trigger] out[1 + 2 * k] == Outbound::ToPlayer(
                    a.players@[k].0,
                    PlayerEvent::RoundEnd(a.players@[k].1.player_round_end->0),
                )
                &&& out[2 + 2 * k] == Outbound::ToPlayer(
                    a.players@[k].0,
                    PlayerEvent::End { position: a.players@[k].1.player_round_end->0.position },
                )
            }
    } else {
        &&& out.len() == 1 + n
        &&& forall|k: int|
            0 <= k < n ==> #[trigger] out[1 + k] == Outbound::ToPlayer(
                a.players@[k].0,
                PlayerEvent::RoundEnd(a.players@[k].1.player_round_end->0),
            )
    }
}

/// The scored players of a round, by their points and index.
pub open spec fn scored_pairs(g: Game, awarded: Seq<usize>) -> Seq<(usize, usize)> {
    Seq::new(g.players.len() as nat, |k: int| (points_after(g, awarded, k) as usize, k as usize))
}

/// The round order holds every player exactly once, by ascending points.
pub proof fn lemma_round_order(g: Game, awarded: Seq<usize>)
    ensures
        round_order(g, awarded).len() == g.players.len(),
        forall|r: int|
            0 <= r < g.players.len() ==> {
                let k = (#[trigger] round_order(g, awarded)[r]).1 as int;
                &&& 0 <= k < g.players.len()
                &&& round_order(g, awarded)[r] == scored_pairs(g, awarded)[k]
            },
        forall|r1: int, r2: int|
            0 <= r1 < g.players.len() && 0 <= r2 < g.players.len() && r1 != r2 ==> (#[trigger] round_order(
                g,
                awarded,
            )[r1]).1 != (#[trigger] round_order(g, awarded)[r2]).1,
        forall|k: int|
            0 <= k < g.players.len() ==> #[trigger] round_order(g, awarded).contains(
                scored_pairs(g, awarded)[k],
            ),
        forall|r1: int, r2: int|
            0 <= r1 < r2 < g.players.len() ==> (#[trigger] round_order(g, awarded)[r1]).0 <= (
            #[trigger] round_order(g, awarded)[r2]).0,
{
    let pairs = scored_pairs(g, awarded);
    let key = |e: (usize, usize)| e.0 as int;
    let order = round_order(g, awarded);
    lemma_sort_props(pairs, key);
    assert(order == sort_by_key(pairs, key));
    assert(pairs.no_duplicates()) by {
        assert forall|i: int, j: int| 0 <= i < pairs.len() && 0 <= j < pairs.len() && i != j implies pairs[i]
            != pairs[j] by {
            assert(pairs[i].1 == i && pairs[j].1 == j);
        }
    }
    pairs.lemma_multiset_has_no_duplicates();
    order.lemma_multiset_has_no_duplicates_conv();
    assert forall|r: int| 0 <= r < g.players.len() implies {
        let k = (#[trigger] order[r]).1 as int;
        &&& 0 <= k < g.players.len()
        &&& order[r] == pairs[k]
    } by {
        assert(order.contains(order[r]));
        assert(pairs.contains(order[r]));
        let i = choose|i: int| 0 <= i < pairs.len() && pairs[i] == order[r];
        assert(pairs[i].1 == i);
    }
    assert forall|r1: int, r2: int|
        0 <= r1 < g.players.len() && 0 <= r2 < g.players.len() && r1 != r2 implies (#[trigger] order[r1]).1
        != (#[trigger] order[r2]).1 by {
        assert(order.contains(order[r1]) && order.contains(order[r2]));
        assert(pairs.contains(order[r1]));
        assert(pairs.contains(order[r2]));
        let i1 = choose|i: int| 0 <= i < pairs.len() && pairs[i] == order[r1];
        let i2 = choose|i: int| 0 <= i < pairs.len() && pairs[i] == order[r2];
        assert(pairs[i1].1 == i1 && pairs[i2].1 == i2);
    }
    assert forall|k: int| 0 <= k < g.players.len() implies #[trigger] order.contains(pairs[k]) by {
        assert(pairs.contains(pairs[k]));
    }
    assert forall|r1: int, r2: int| 0 <= r1 < r2 < g.players.len() implies (#[trigger] order[r1]).0 <= (
    #[trigger] order[r2]).0 by {
        assert(key(order[r1]) <= key(order[r2]));
    }
}

/// The leaderboard order holds every player exactly once, by descending
/// points.
pub proof fn lemma_board_order(g: Game, awarded: Seq<usize>)
    ensures
        board_order(g, awarded).len() == g.players.len(),
        forall|r: int|
            0 <= r < g.players.len() ==> {
                let k = (#[trigger] board_order(g, awarded)[r]).1 as int;
                &&& 0 <= k < g.players.len()
                &&& board_order(g, awarded)[r] == scored_pairs(g, awarded)[k]
            },
        forall|r1: int, r2: int|
            0 <= r1 < g.players.len() && 0 <= r2 < g.players.len() && r1 != r2 ==> (#[trigger] board_order(
                g,
                awarded,
            )[r1]).1 != (#[trigger] board_order(g, awarded)[r2]).1,
        forall|r1: int, r2: int|
            0 <= r1 < r2 < g.players.len() ==> (#[trigger] board_order(g, awarded)[r1]).0 >= (
            #[trigger] board_order(g, awarded)[r2]).0,
{
    let pairs = scored_pairs(g, awarded);
    let key = |e: (usize, usize)| -(e.0 as int);
    let order = board_order(g, awarded);
    lemma_sort_props(pairs, key);
    assert(order == sort_by_key(pairs, key));
    assert(pairs.no_duplicates()) by {
        assert forall|i: int, j: int| 0 <= i < pairs.len() && 0 <= j < pairs.len() && i != j implies pairs[i]
            != pairs[j] by {
            assert(pairs[i].1 == i && pairs[j].1 == j);
        }
    }
    pairs.lemma_multiset_has_no_duplicates();
    order.lemma_multiset_has_no_duplicates_conv();
    assert forall|r: int| 0 <= r < g.players.len() implies {
        let k = (#[trigger] order[r]).1 as int;
        &&& 0 <= k < g.players.len()
        &&& order[r] == pairs[k]
    } by {
        assert(order.contains(order[r]));
        assert(pairs.contains(order[r]));
        let i = choose|i: int| 0 <= i < pairs.len() && pairs[i] == order[r];
        assert(pairs[i].1 == i);
    }
    assert forall|r1: int, r2: int|
        0 <= r1 < g.players.len() && 0 <= r2 < g.players.len() && r1 != r2 implies (#[trigger] order[r1]).1
        != (#[trigger] order[r2]).1 by {
        assert(order.contains(order[r1]) && order.contains(order[r2]));
        assert(pairs.contains(order[r1]));
        assert(pairs.contains(order[r2]));
        let i1 = choose|i: int| 0 <= i < pairs.len() && pairs[i] == order[r1];
        let i2 = choose|i: int| 0 <= i < pairs.len() && pairs[i] == order[r2];
        assert(pairs[i1].1 == i1 && pairs[i2].1 == i2);
    }
    assert forall|r1: int, r2: int| 0 <= r1 < r2 < g.players.len() implies (#[trigger] order[r1]).0 >= (
    #[trigger] order[r2]).0 by {
        assert(key(order[r1]) <= key(order[r2]));
    }
}

/// Entry `a` is entry `p` after a round in which its guess was `right` or
/// not and earned `earned`, out of an award of `award` for a right guess.
pub open spec fn scored_entry(
    correct_answers: Seq<usize>,
    p: (ClientId, Player),
    award: usize,
    right: bool,
    earned: usize,
    a: (ClientId, Player),
) -> bool {
    &&& right == guessed_right(correct_answers, p.1.played)
    &&& earned == if right {
        award
    } else {
        0
    }
    &&& a.0 == p.0
    &&& a.1.name == p.1.name
    &&& a.1.points == p.1.points + earned
    &&& a.1.streak == if right {
        p.1.streak + 1
    } else {
        0
    }
    &&& a.1.played is None
    &&& a.1.answer_time == p.1.answer_time
}

/// Entry `a` is entry `p` with its report of the round: `right` or not,
/// `earned` points, at `position`, behind the player named `behind`.
pub open spec fn reported(
    p: (ClientId, Player),
    right: bool,
    earned: usize,
    position: usize,
    behind: Option<String>,
    a: (ClientId, Player),
) -> bool {
    &&& a.0 == p.0
    &&& a.1.name == p.1.name
    &&& a.1.points == p.1.points
    &&& a.1.streak == p.1.streak
    &&& a.1.played == p.1.played
    &&& a.1.answer_time == p.1.answer_time
    &&& a.1.player_round_end matches Some(re) && {
        &&& re.event@ == question_end_event()
        &&& re.correct == right
        &&& re.points_this_round == earned
        &&& re.points_total == p.1.points
        &&& re.streak == p.1.streak
        &&& re.position == position
        &&& re.behind == behind
    }
}

/// No player's points or streak would overflow by the round's awards.
pub open spec fn room_for_awards(g: Game, awarded: Seq<usize>) -> bool {
    forall|k: int|
        0 <= k < g.players.len() ==> #[trigger] g.players@[k].1.points + awarded[k] <= usize::MAX
            && g.players@[k].1.streak < usize::MAX
}

/// A copy of a question.
pub fn copy_question(q: &Question) -> (copy: Question)
    ensures
        same_question(copy, *q),
{
    let mut answers: Vec<Answer> = Vec::new();
    let mut i: usize = 0;
    while i < q.answers.len()
        invariant
            i <= q.answers.len(),
            answers@ == q.answers@.take(i as int),
        decreases q.answers.len() - i,
    {
        answers.push(Answer { text: q.answers[i].text.clone(), correct: q.answers[i].correct });
        i = i + 1;
        proof {
            assert(answers@ =~= q.answers@.take(i as int));
        }
    }
    assert(q.answers@.take(q.answers.len() as int) =~= q.answers@);
    Question { question: q.question.clone(), duration: q.duration, answers }
}

/// A copy of a round report.
fn copy_round_end(r: &PlayerRoundEnd) -> (copy: PlayerRoundEnd)
    ensures
        copy == *r,
{
    let behind = match &r.behind {
        Some(name) => Some(name.clone()),
        None => None,
    };
    PlayerRoundEnd {
        event: r.event.clone(),
        correct: r.correct,
        points_this_round: r.points_this_round,
        points_total: r.points_total,
        streak: r.streak,
        position: r.position,
        behind,
    }
}

fn negated_first_of_pair(e: &(usize, usize)) -> (key: i128)
    ensures
        key == -(e.0 as int),
{
    -(e.0 as i128)
}

fn first_of_pair(e: &(usize, usize)) -> (key: i128)
    ensures
        key == e.0 as int,
{
    e.0 as i128
}

impl Game {
    /// Whether a player who gave `played` guessed one of the right answers.
    pub fn is_correct(&self, played: Option<usize>) -> (right: bool)
        ensures
            right == guessed_right(self.correct_answers@, played),
    {
        match played {
            Some(guess) => {
                let mut i: usize = 0;
                while i < self.correct_answers.len()
                    invariant
                        played == Some(guess),
                        i <= self.correct_answers.len(),
                        forall|k: int| 0 <= k < i ==> self.correct_answers@[k] != guess,
                    decreases self.correct_answers.len() - i,
                {
                    if self.correct_answers[i] == guess {
                        assert(self.correct_answers@[i as int] == guess);
                        assert(self.correct_answers@.contains(guess));
                        return true;
                    }
                    i = i + 1;
                }
                assert(!self.correct_answers@.contains(guess));
                false
            },
            None => false,
        }
    }

    /// Closes the round: scores every player (a right guess earns
    /// `awarded[k]` to player `k` and extends the streak; otherwise the
    /// streak is lost), ranks them by ascending points, gives each their
    /// position (the last in ascending order is first) and the name of the
    /// player ranked just above (none for the first), sends the host the leaderboard (best first)
    /// and every player their report, and, when `endgame`, their final position.
    pub fn answer_command(&mut self, awarded: &Vec<usize>, endgame: bool) -> (out: Vec<Outbound>)
        requires
            awarded.len() == old(self).players.len(),
            room_for_awards(*old(self), awarded@),
        ensures
            round_scored(*old(self), *final(self), awarded@, endgame, out@),
    {
        let ghost b = *self;
        self.phase = GamePhase::Leaderboard;
        let (rights, earned) = self.score_round(awarded);
        let pairs = self.points_by_index();
        proof {
            assert(pairs@ =~= scored_pairs(b, awarded@)) by {
                assert forall|k: int| 0 <= k < pairs@.len() implies pairs@[k] == scored_pairs(b, awarded@)[k] by {
                    assert(self.players@[k].1.points == points_after(b, awarded@, k));
                }
            }
        }
        let order = sort_stable_by_key(pairs, first_of_pair, Ghost(|e: (usize, usize)| e.0 as int));
        let best_first = self.points_by_index();
        proof {
            assert(best_first@ =~= scored_pairs(b, awarded@)) by {
                assert forall|k: int| 0 <= k < best_first@.len() implies best_first@[k] == scored_pairs(b, awarded@)[k] by {
                    assert(self.players@[k].1.points == points_after(b, awarded@, k));
                }
            }
        }
        let board_by = sort_stable_by_key(
            best_first,
            negated_first_of_pair,
            Ghost(|e: (usize, usize)| -(e.0 as int)),
        );
        proof {
            lemma_round_order(b, awarded@);
            lemma_board_order(b, awarded@);
            assert(board_by@ == board_order(b, awarded@));
        }
        let ghost scored = *self;
        let (positions, behinds) = self.rank_positions(&order);
        self.attach_reports(&rights, &earned, &positions, behinds);
        proof {
            assert forall|k: int| 0 <= k < b.players.len() implies {
                &&& (#[trigger] self.players@[k]).0 == b.players@[k].0
                &&& scored_player(
                    b.players@[k].1,
                    guessed_right(b.correct_answers@, b.players@[k].1.played),
                    awarded@[k],
                    self.players@[k].1,
                )
            } by {
                assert(order@.contains(scored_pairs(b, awarded@)[k]));
                let r = choose|r: int| 0 <= r < order@.len() && order@[r] == scored_pairs(b, awarded@)[k];
                assert(order@[r].1 == k);
            }
        }
        let board = self.leaderboard(&board_by);
        let mut out: Vec<Outbound> = Vec::new();
        out.push(Outbound::ToHost(HostEvent::Leaderboard(board)));
        let reports = self.reports(endgame);
        let ghost first = out@;
        let mut reports = reports;
        out.append(&mut reports);
        proof {
            assert(out@[0] == first[0]);
            if endgame {
                assert forall|k: int| 0 <= k < b.players.len() implies {
                    &&& #[trigger] out@[1 + 2 * k] == Outbound::ToPlayer(
                        self.players@[k].0,
                        PlayerEvent::RoundEnd(self.players@[k].1.player_round_end->0),
                    )
                    &&& out@[2 + 2 * k] == Outbound::ToPlayer(
                        self.players@[k].0,
                        PlayerEvent::End { position: self.players@[k].1.player_round_end->0.position },
                    )
                } by {
                    assert(out@[1 + 2 * k] == out@.skip(1)[2 * k]);
                    assert(out@[2 + 2 * k] == out@.skip(1)[2 * k + 1]);
                }
            } else {
                assert forall|k: int| 0 <= k < b.players.len() implies #[trigger] out@[1 + k] == Outbound::ToPlayer(
                    self.players@[k].0,
                    PlayerEvent::RoundEnd(self.players@[k].1.player_round_end->0),
                ) by {
                    assert(out@[1 + k] == out@.skip(1)[k]);
                }
            }
        }
        out
    }

    /// Scores every player's guess; returns who guessed right and what each
    /// earned.
    fn score_round(&mut self, awarded: &Vec<usize>) -> (result: (Vec<bool>, Vec<usize>))
        requires
            awarded.len() == old(self).players.len(),
            room_for_awards(*old(self), awarded@),
        ensures
            final(self).id == old(self).id,
            final(self).host == old(self).host,
            final(self).questions@ == old(self).questions@,
            final(self).correct_answers@ == old(self).correct_answers@,
            final(self).question_start_time == old(self).question_start_time,
            final(self).phase == old(self).phase,
            final(self).players.len() == old(self).players.len(),
            result.0.len() == old(self).players.len(),
            result.1.len() == old(self).players.len(),
            forall|j: int|
                0 <= j < old(self).players.len() ==> scored_entry(
                    old(self).correct_answers@,
                    old(self).players@[j],
                    awarded@[j],
                    result.0@[j],
                    result.1@[j],
                    #[trigger] final(self).players@[j],
                ),
    {
        let ghost b = *self;
        let mut rest: Vec<(ClientId, Player)> = Vec::new();
        std::mem::swap(&mut rest, &mut self.players);
        let n = rest.len();
        let mut rights: Vec<bool> = Vec::new();
        let mut earned: Vec<usize> = Vec::new();
        let mut k: usize = 0;
        assert(rest@.skip(0) =~= b.players@);
        while k < n
            invariant
                n == b.players.len() == awarded.len(),
                k <= n,
                rest@ == b.players@.skip(k as int),
                room_for_awards(b, awarded@),
                self.id == b.id,
                self.host == b.host,
                self.questions@ == b.questions@,
                self.correct_answers@ == b.correct_answers@,
                self.question_start_time == b.question_start_time,
                self.phase == b.phase,
                rights.len() == k,
                earned.len() == k,
                self.players.len() == k,
                forall|j: int|
                    0 <= j < k ==> scored_entry(
                        b.correct_answers@,
                        b.players@[j],
                        awarded@[j],
                        rights@[j],
                        earned@[j],
                        #[trigger] self.players@[j],
                    ),
            decreases n - k,
        {
            let (id, p) = rest.remove(0);
            assert(b.players@[k as int] == (id, p));
            let right = self.is_correct(p.played);
            let e: usize = if right {
                awarded[k]
            } else {
                0
            };
            let Player { name, points, streak, played: _, answer_time, player_round_end } = p;
            let streak = if right {
                streak + 1
            } else {
                0
            };
            self.players.push(
                (id, Player { name, points: points + e, streak, played: None, answer_time, player_round_end }),
            );
            rights.push(right);
            earned.push(e);
            k = k + 1;
            proof {
                assert(rest@ =~= b.players@.skip(k as int));
            }
        }
        (rights, earned)
    }

    /// Every player's points and index.
    fn points_by_index(&self) -> (pairs: Vec<(usize, usize)>)
        ensures
            pairs.len() == self.players.len(),
            forall|k: int|
                0 <= k < self.players.len() ==> #[trigger] pairs@[k] == (self.players@[k].1.points, k as usize),
    {
        let n = self.players.len();
        let mut pairs: Vec<(usize, usize)> = Vec::new();
        let mut k: usize = 0;
        while k < n
            invariant
                n == self.players.len(),
                k <= n,
                pairs.len() == k,
                forall|j: int| 0 <= j < k ==> #[trigger] pairs@[j] == (self.players@[j].1.points, j as usize),
            decreases n - k,
        {
            pairs.push((self.players[k].1.points, k));
            k = k + 1;
        }
        pairs
    }

    /// For every player, the position and the name of the player after them
    /// in the ascending `order`: the one ranked just above.
    fn rank_positions(&self, order: &Vec<(usize, usize)>) -> (ranks: (Vec<usize>, Vec<Option<String>>))
        requires
            order.len() == self.players.len(),
            forall|r: int| 0 <= r < order.len() ==> (#[trigger] order@[r]).1 < order.len(),
            forall|r1: int, r2: int|
                0 <= r1 < order.len() && 0 <= r2 < order.len() && r1 != r2 ==> (#[trigger] order@[r1]).1
                    != (#[trigger] order@[r2]).1,
        ensures
            ranks.0.len() == order.len(),
            ranks.1.len() == order.len(),
            forall|q: int|
                0 <= q < order.len() ==> {
                    let j = (#[trigger] order@[q]).1 as int;
                    &&& ranks.0@[j] == order.len() - q
                    &&& ranks.1@[j] == if q + 1 < order.len() {
                        Some(self.players@[order@[q + 1].1 as int].1.name)
                    } else {
                        None
                    }
                },
    {
        let n = order.len();
        let mut positions: Vec<usize> = Vec::new();
        let mut behinds: Vec<Option<String>> = Vec::new();
        let mut i: usize = 0;
        while i < n
            invariant
                i <= n,
                positions.len() == i,
                behinds.len() == i,
            decreases n - i,
        {
            positions.push(0);
            behinds.push(None);
            i = i + 1;
        }
        let mut r: usize = 0;
        while r < n
            invariant
                n == order.len() == self.players.len(),
                r <= n,
                positions.len() == n,
                behinds.len() == n,
                forall|q: int| 0 <= q < order.len() ==> (#[trigger] order@[q]).1 < order.len(),
                forall|r1: int, r2: int|
                    0 <= r1 < order.len() && 0 <= r2 < order.len() && r1 != r2 ==> (#[trigger] order@[r1]).1
                        != (#[trigger] order@[r2]).1,
                forall|q: int|
                    0 <= q < r ==> {
                        let j = (#[trigger] order@[q]).1 as int;
                        &&& positions@[j] == n - q
                        &&& behinds@[j] == if q + 1 < n {
                            Some(self.players@[order@[q + 1].1 as int].1.name)
                        } else {
                            None
                        }
                    },
            decreases n - r,
        {
            let k = order[r].1;
            let behind = if r + 1 < n {
                Some(self.players[order[r + 1].1].1.name.clone())
            } else {
                None
            };
            proof {
                assert forall|q: int| 0 <= q < r implies (#[trigger] order@[q]).1 != k by {
                    assert(order@[q].1 != order@[r as int].1);
                }
            }
            positions.set(k, n - r);
            behinds.set(k, behind);
            r = r + 1;
        }
        (positions, behinds)
    }

    /// Gives every player their report of the round.
    fn attach_reports(
        &mut self,
        rights: &Vec<bool>,
        earned: &Vec<usize>,
        positions: &Vec<usize>,
        behinds: Vec<Option<String>>,
    )
        requires
            rights.len() == old(self).players.len(),
            earned.len() == old(self).players.len(),
            positions.len() == old(self).players.len(),
            behinds.len() == old(self).players.len(),
        ensures
            final(self).id == old(self).id,
            final(self).host == old(self).host,
            final(self).questions@ == old(self).questions@,
            final(self).correct_answers@ == old(self).correct_answers@,
            final(self).question_start_time == old(self).question_start_time,
            final(self).phase == old(self).phase,
            final(self).players.len() == old(self).players.len(),
            forall|j: int|
                0 <= j < old(self).players.len() ==> reported(
                    old(self).players@[j],
                    rights@[j],
                    earned@[j],
                    positions@[j],
                    behinds@[j],
                    #[trigger] final(self).players@[j],
                ),
    {
        let ghost b = *self;
        let ghost bs = behinds@;
        let mut rest: Vec<(ClientId, Player)> = Vec::new();
        std::mem::swap(&mut rest, &mut self.players);
        let mut behinds = behinds;
        let n = rest.len();
        let mut k: usize = 0;
        assert(rest@.skip(0) =~= b.players@);
        assert(behinds@.skip(0) =~= bs);
        while k < n
            invariant
                n == b.players.len() == rights.len() == earned.len() == positions.len() == bs.len(),
                k <= n,
                rest@ == b.players@.skip(k as int),
                behinds@ == bs.skip(k as int),
                self.id == b.id,
                self.host == b.host,
                self.questions@ == b.questions@,
                self.correct_answers@ == b.correct_answers@,
                self.question_start_time == b.question_start_time,
                self.phase == b.phase,
                self.players.len() == k,
                forall|j: int|
                    0 <= j < k ==> reported(
                        b.players@[j],
                        rights@[j],
                        earned@[j],
                        positions@[j],
                        bs[j],
                        #[trigger] self.players@[j],
                    ),
            decreases n - k,
        {
            let (id, p) = rest.remove(0);
            let behind = behinds.remove(0);
            let Player { name, points, streak, played, answer_time, player_round_end: _ } = p;
            let report = PlayerRoundEnd {
                event: String::from_str("questionEnd"),
                correct: rights[k],
                points_this_round: earned[k],
                points_total: points,
                streak,
                position: positions[k],
                behind,
            };
            self.players.push(
                (id, Player { name, points, streak, played, answer_time, player_round_end: Some(report) }),
            );
            k = k + 1;
            proof {
                assert(rest@ =~= b.players@.skip(k as int));
                assert(behinds@ =~= bs.skip(k as int));
            }
        }
    }

    /// The leaderboard in `order`.
    fn leaderboard(&self, order: &Vec<(usize, usize)>) -> (board: Vec<LeaderboardEntry>)
        requires
            forall|r: int| 0 <= r < order.len() ==> (#[trigger] order@[r]).1 < self.players.len(),
        ensures
            board@ == order@.map_values(|e: (usize, usize)| entry_of(self.players@[e.1 as int].1)),
    {
        let mut board: Vec<LeaderboardEntry> = Vec::new();
        let mut r: usize = 0;
        while r < order.len()
            invariant
                r <= order.len(),
                forall|q: int| 0 <= q < order.len() ==> (#[trigger] order@[q]).1 < self.players.len(),
                board@ == order@.take(r as int).map_values(
                    |e: (usize, usize)| entry_of(self.players@[e.1 as int].1),
                ),
            decreases order.len() - r,
        {
            let k = order[r].1;
            board.push(
                LeaderboardEntry {
                    user_name: self.players[k].1.name.clone(),
                    points: self.players[k].1.points,
                    streak: self.players[k].1.streak,
                },
            );
            r = r + 1;
            proof {
                assert(board@ =~= order@.take(r as int).map_values(
                    |e: (usize, usize)| entry_of(self.players@[e.1 as int].1),
                ));
            }
        }
        assert(order@.take(order.len() as int) =~= order@);
        board
    }

    /// Every player's report, and their final position when `endgame`.
    fn reports(&self, endgame: bool) -> (out: Vec<Outbound>)
        requires
            forall|j: int| 0 <= j < self.players.len() ==> (#[trigger] self.players@[j]).1.player_round_end is Some,
        ensures
            if endgame {
                &&& out.len() == 2 * self.players.len()
                &&& forall|k: int|
                    0 <= k < self.players.len() ==> {
                        &&& #[trigger] out@[2 * k] == Outbound::ToPlayer(
                            self.players@[k].0,
                            PlayerEvent::RoundEnd(self.players@[k].1.player_round_end->0),
                        )
                        &&& out@[2 * k + 1] == Outbound::ToPlayer(
                            self.players@[k].0,
                            PlayerEvent::End { position: self.players@[k].1.player_round_end->0.position },
                        )
                    }
            } else {
                &&& out.len() == self.players.len()
                &&& forall|k: int|
                    0 <= k < self.players.len() ==> #[trigger] out@[k] == Outbound::ToPlayer(
                        self.players@[k].0,
                        PlayerEvent::RoundEnd(self.players@[k].1.player_round_end->0),
                    )
            },
    {
        let n = self.players.len();
        let mut out: Vec<Outbound> = Vec::new();
        let mut k: usize = 0;
        while k < n
            invariant
                n == self.players.len(),
                k <= n,
                forall|j: int| 0 <= j < n ==> (#[trigger] self.players@[j]).1.player_round_end is Some,
                out.len() == if endgame {
                    2 * k
                } else {
                    k as int
                },
                endgame ==> forall|j: int|
                    0 <= j < k ==> {
                        &&& #[trigger] out@[2 * j] == Outbound::ToPlayer(
                            self.players@[j].0,
                            PlayerEvent::RoundEnd(self.players@[j].1.player_round_end->0),
                        )
                        &&& out@[2 * j + 1] == Outbound::ToPlayer(
                            self.players@[j].0,
                            PlayerEvent::End { position: self.players@[j].1.player_round_end->0.position },
                        )
                    },
                !endgame ==> forall|j: int|
                    0 <= j < k ==> #[trigger] out@[j] == Outbound::ToPlayer(
                        self.players@[j].0,
                        PlayerEvent::RoundEnd(self.players@[j].1.player_round_end->0),
                    ),
            decreases n - k,
        {
            let report = match &self.players[k].1.player_round_end {
                Some(re) => copy_round_end(re),
                None => {
                    return out;
                },
            };
            let position = report.position;
            out.push(Outbound::ToPlayer(self.players[k].0, PlayerEvent::RoundEnd(report)));
            if endgame {
                out.push(Outbound::ToPlayer(self.players[k].0, PlayerEvent::End { position }));
            }
            k = k + 1;
        }
        out
    }

    /// Asks the next question at time `now`: the host gets the question and
    /// every player the number of answers. Without a question left the
    /// request is refused as missing a parameter, and nothing changes.
    pub fn question_command(&mut self, now: u128) -> (result: Result<Vec<Outbound>, FailResponse>)
        ensures
            old(self).questions.len() == 0 ==> {
                &&& (result matches Err(e) && is_failure(
                    e,
                    crate::err::KascreechError::FailedRead,
                    Some(missing_parameter_message()),
                ))
                &&& *final(self) == *old(self)
            },
            old(self).questions.len() > 0 ==> (result matches Ok(out) && question_asked(
                *old(self),
                *final(self),
                now,
                out@,
            )),
    {
        if self.questions.len() == 0 {
            return Err(FailResponse::none_option());
        }
        let question = self.questions.remove(0);
        let mut correct_answers: Vec<usize> = Vec::new();
        let mut i: usize = 0;
        while i < question.answers.len()
            invariant
                i <= question.answers.len(),
                correct_answers@ == correct_indices(question.answers@.take(i as int)),
            decreases question.answers.len() - i,
        {
            proof {
                assert(question.answers@.take(i + 1).drop_last() =~= question.answers@.take(i as int));
            }
            if question.answers[i].correct {
                correct_answers.push(i);
            }
            i = i + 1;
        }
        assert(question.answers@.take(question.answers.len() as int) =~= question.answers@);
        self.phase = GamePhase::Question;
        self.correct_answers = correct_answers;
        self.question_start_time = now;
        let number_of_answers = question.answers.len();
        let mut out: Vec<Outbound> = Vec::new();
        out.push(Outbound::ToHost(HostEvent::Question(copy_question(&question))));
        let n = self.players.len();
        let mut k: usize = 0;
        while k < n
            invariant
                n == self.players.len(),
                k <= n,
                out.len() == k + 1,
                out@[0] matches Outbound::ToHost(HostEvent::Question(c)) && same_question(c, question),
                forall|i: int|
                    0 <= i < k ==> #[trigger] out@[i + 1] == Outbound::ToPlayer(
                        self.players@[i].0,
                        PlayerEvent::QuestionStart { number_of_answers },
                    ),
            decreases n - k,
        {
            out.push(Outbound::ToPlayer(self.players[k].0, PlayerEvent::QuestionStart { number_of_answers }));
            k = k + 1;
        }
        proof {
            assert(self.questions@ =~= old(self).questions@.drop_first());
        }
        Ok(out)
    }
}

} // verus!

verus! {

/// The position a closed round gives player `k` of game `a`.
pub open spec fn position_of(a: Game, k: int) -> int {
    a.players@[k].1.player_round_end->0.position as int
}

/// After a round, the host's leaderboard holds one line for each player,
/// taken from distinct players, from the most points to the fewest.
pub proof fn lemma_round_leaderboard(b: Game, a: Game, awarded: Seq<usize>, endgame: bool, out: Seq<Outbound>)
    requires
        round_scored(b, a, awarded, endgame, out),
    ensures
        out[0] matches Outbound::ToHost(HostEvent::Leaderboard(board)) && {
            &&& board@.len() == b.players.len()
            &&& forall|r: int|
                0 <= r < b.players.len() ==> {
                    let k = (#[trigger] board_order(b, awarded)[r]).1 as int;
                    &&& 0 <= k < b.players.len()
                    &&& board@[r] == entry_of(a.players@[k].1)
                }
            &&& forall|r1: int, r2: int|
                0 <= r1 < r2 < b.players.len() ==> (#[trigger] board@[r1]).points >= (
                #[trigger] board@[r2]).points
            &&& forall|r1: int, r2: int|
                0 <= r1 < b.players.len() && 0 <= r2 < b.players.len() && r1 != r2 ==> (
                #[trigger] board_order(b, awarded)[r1]).1 != (#[trigger] board_order(b, awarded)[r2]).1
        },
{
    lemma_board_order(b, awarded);
    let order = board_order(b, awarded);
    let pairs = scored_pairs(b, awarded);
    match out[0] {
        Outbound::ToHost(HostEvent::Leaderboard(board)) => {
            assert forall|r1: int, r2: int| 0 <= r1 < r2 < b.players.len() implies (#[trigger] board@[r1]).points
                >= (#[trigger] board@[r2]).points by {
                let k1 = order[r1].1 as int;
                let k2 = order[r2].1 as int;
                assert(order[r1] == pairs[k1]);
                assert(order[r2] == pairs[k2]);
                assert(a.players@[k1].1.points == points_after(b, awarded, k1));
                assert(a.players@[k2].1.points == points_after(b, awarded, k2));
                assert(board@[r1] == entry_of(a.players@[k1].1));
                assert(board@[r2] == entry_of(a.players@[k2].1));
            }
            assert(board@.len() == b.players.len());
            assert(forall|r1: int, r2: int|
                0 <= r1 < b.players.len() && 0 <= r2 < b.players.len() && r1 != r2 ==> (
                #[trigger] board_order(b, awarded)[r1]).1 != (#[trigger] board_order(b, awarded)[r2]).1);
        },
        _ => {},
    }
}

/// After a round, every player has a position from 1 to the number of
/// players, no two players share one, and a player with more points has a
/// better (smaller) position than one with fewer.
pub proof fn lemma_round_positions(
    b: Game,
    a: Game,
    awarded: Seq<usize>,
    endgame: bool,
    out: Seq<Outbound>,
    k1: int,
    k2: int,
)
    requires
        round_scored(b, a, awarded, endgame, out),
        0 <= k1 < b.players.len(),
        0 <= k2 < b.players.len(),
    ensures
        1 <= position_of(a, k1) <= b.players.len(),
        k1 != k2 ==> position_of(a, k1) != position_of(a, k2),
        a.players@[k1].1.points > a.players@[k2].1.points ==> position_of(a, k1) < position_of(a, k2),
{
    lemma_round_order(b, awarded);
    let order = round_order(b, awarded);
    let pairs = scored_pairs(b, awarded);
    assert(order.contains(pairs[k1]));
    assert(order.contains(pairs[k2]));
    let r1 = choose|r: int| 0 <= r < order.len() && order[r] == pairs[k1];
    let r2 = choose|r: int| 0 <= r < order.len() && order[r] == pairs[k2];
    assert(order[r1].1 == k1);
    assert(order[r2].1 == k2);
    assert(a.players@[k1].1.points == points_after(b, awarded, k1));
    assert(a.players@[k2].1.points == points_after(b, awarded, k2));
    if r1 < r2 {
        assert(order[r1].0 <= order[r2].0);
    }
}

/// After a round, a player in first place is behind nobody, and a player in
/// any other place is behind the player in the place just above.
pub proof fn lemma_round_behind(
    b: Game,
    a: Game,
    awarded: Seq<usize>,
    endgame: bool,
    out: Seq<Outbound>,
    k1: int,
    k2: int,
)
    requires
        round_scored(b, a, awarded, endgame, out),
        0 <= k1 < b.players.len(),
        0 <= k2 < b.players.len(),
    ensures
        position_of(a, k1) == 1 ==> a.players@[k1].1.player_round_end->0.behind is None,
        position_of(a, k2) + 1 == position_of(a, k1) ==> a.players@[k1].1.player_round_end->0.behind
            == Some(a.players@[k2].1.name),
{
    lemma_round_order(b, awarded);
    let order = round_order(b, awarded);
    let pairs = scored_pairs(b, awarded);
    let n = b.players.len() as int;
    assert(order.contains(pairs[k1]));
    assert(order.contains(pairs[k2]));
    let r1 = choose|r: int| 0 <= r < order.len() && order[r] == pairs[k1];
    let r2 = choose|r: int| 0 <= r < order.len() && order[r] == pairs[k2];
    assert(order[r1].1 == k1);
    assert(order[r2].1 == k2);
    assert(position_of(a, k1) == n - r1);
    assert(position_of(a, k2) == n - r2);
    if position_of(a, k2) + 1 == position_of(a, k1) {
        assert(r2 == r1 + 1);
    }
}

proof fn lemma_correct_indices(answers: Seq<Answer>)
    requires
        answers.len() <= usize::MAX,
    ensures
        forall|i: usize| #[trigger] correct_indices(answers).contains(i) <==> (i < answers.len()
            && answers[i as int].correct),
    decreases answers.len(),
{
    if answers.len() > 0 {
        let rest = answers.drop_last();
        lemma_correct_indices(rest);
        let earlier = correct_indices(rest);
        let last = (answers.len() - 1) as usize;
        assert forall|i: usize| #[trigger] correct_indices(answers).contains(i) <==> (i < answers.len()
            && answers[i as int].correct) by {
            if i < rest.len() {
                assert(answers[i as int] == rest[i as int]);
            }
            if answers.last().correct {
                assert(correct_indices(answers) == earlier.push(last));
                if earlier.contains(i) {
                    let k = choose|k: int| 0 <= k < earlier.len() && earlier[k] == i;
                    assert(earlier.push(last)[k] == i);
                }
                if i == last {
                    assert(earlier.push(last)[earlier.len() as int] == i);
                }
                if correct_indices(answers).contains(i) && i != last {
                    let k = choose|k: int| 0 <= k < earlier.len() + 1 && earlier.push(last)[k] == i;
                    assert(earlier[k] == i);
                }
            } else {
                assert(correct_indices(answers) == earlier);
            }
        }
    }
}

/// Asking a question records its right answers: an index is recorded as
/// right exactly when it names one of the question's answers and that
/// answer is correct.
pub proof fn lemma_question_records_right_answers(b: Game, a: Game, now: u128, out: Seq<Outbound>)
    requires
        b.questions.len() > 0,
        question_asked(b, a, now, out),
    ensures
        forall|i: usize| #[trigger] a.correct_answers@.contains(i) <==> (i < b.questions@[0].answers.len()
            && b.questions@[0].answers@[i as int].correct),
{
    assert(b.questions@[0].answers@.len() == b.questions@[0].answers.len());
    lemma_correct_indices(b.questions@[0].answers@);
}

} // verus!
