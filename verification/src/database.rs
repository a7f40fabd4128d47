//! The quizzes of the catalogue, and how one becomes a game.
use vstd::prelude::*;

use crate::random::random_bytes;
use crate::text::{digit_text, zero_padded};
use crate::types::{Answer, ClientId, Game, GamePhase, Question};

verus! {

/// An answer of a stored question.
#[derive(Debug)]
pub struct DatabaseAnswer {
    pub answer: String,
    pub correct: bool,
}

/// A stored question; its time is in milliseconds.
#[derive(Debug)]
pub struct DatabaseQuestion {
    pub question: String,
    pub time: usize,
    pub choices: Vec<DatabaseAnswer>,
}

/// A quiz of the catalogue.
#[derive(Debug)]
pub struct DatabaseGame {
    pub id: String,
    pub name: String,
    pub description: String,
    pub author: String,
    pub image: Option<String>,
    pub questions: Vec<DatabaseQuestion>,
    pub plays: usize,
    pub kahoot: bool,
    pub featured: bool,
}

/// Question `q` is the stored question `d` as a game asks it: its time in
/// whole seconds, its choices as answers.
pub open spec fn converted_question(q: Question, d: DatabaseQuestion) -> bool {
    &&& q.question == d.question
    &&& q.duration == d.time / 1000
    &&& q.answers.len() == d.choices.len()
    &&& forall|i: int|
        0 <= i < q.answers.len() ==> {
            &&& (#[trigger] q.answers@[i]).text == d.choices@[i].answer
            &&& q.answers@[i].correct == d.choices@[i].correct
        }
}

/// `qs` are the stored questions `ds` as a game asks them.
pub open spec fn converted_questions(qs: Seq<Question>, ds: Seq<DatabaseQuestion>) -> bool {
    &&& qs.len() == ds.len()
    &&& forall|i: int| 0 <= i < qs.len() ==> converted_question(#[trigger] qs[i], ds[i])
}

/// The number that four bytes spell, most significant first.
pub open spec fn be_u32(bytes: [u8; 4]) -> nat {
    (bytes[0] as nat) * 16777216 + (bytes[1] as nat) * 65536 + (bytes[2] as nat) * 256 + (bytes[3] as nat)
}

/// A game id: six decimal digits.
pub open spec fn is_game_id(id: Seq<char>) -> bool {
    &&& id.len() == 6
    &&& forall|i: int| 0 <= i < 6 ==> '0' <= #[trigger] id[i] <= '9'
}

/// A stored question as a game asks it.
pub fn convert_question(d: &DatabaseQuestion) -> (q: Question)
    ensures
        converted_question(q, *d),
{
    let mut answers: Vec<Answer> = Vec::new();
    let mut i: usize = 0;
    while i < d.choices.len()
        invariant
            i <= d.choices.len(),
            answers.len() == i,
            forall|k: int|
                0 <= k < i ==> {
                    &&& (#[trigger] answers@[k]).text == d.choices@[k].answer
                    &&& answers@[k].correct == d.choices@[k].correct
                },
        decreases d.choices.len() - i,
    {
        answers.push(Answer { text: d.choices[i].answer.clone(), correct: d.choices[i].correct });
        i = i + 1;
    }
    Question { question: d.question.clone(), duration: d.time / 1000, answers }
}

/// Stored questions as a game asks them.
pub fn kahoot_questions_to_normal_questions(questions: &Vec<DatabaseQuestion>) -> (converted: Vec<Question>)
    ensures
        converted_questions(converted@, questions@),
{
    let mut converted: Vec<Question> = Vec::new();
    let mut i: usize = 0;
    while i < questions.len()
        invariant
            i <= questions.len(),
            converted.len() == i,
            forall|k: int| 0 <= k < i ==> converted_question(#[trigger] converted@[k], questions@[k]),
        decreases questions.len() - i,
    {
        converted.push(convert_question(&questions[i]));
        i = i + 1;
    }
    converted
}

/// The game id spelled by four random bytes: their number modulo a million,
/// in six digits.
pub fn id_from_bytes(bytes: [u8; 4]) -> (id: String)
    ensures
        id@ == zero_padded(be_u32(bytes) % 1000000, 6),
        is_game_id(id@),
{
    let value: u32 = (bytes[0] as u32) * 16777216 + (bytes[1] as u32) * 65536 + (bytes[2] as u32) * 256
        + (bytes[3] as u32);
    let n: u32 = value % 1000000;
    let mut digits: Vec<u8> = Vec::new();
    let mut rest: u32 = n;
    let mut i: usize = 0;
    while i < 6
        invariant
            i <= 6,
            digits.len() == i,
            forall|k: int| 0 <= k < i ==> #[trigger] digits@[k] < 10,
            zero_padded(n as nat, 6) == zero_padded(rest as nat, (6 - i) as nat) + Seq::new(
                i as nat,
                |k: int| crate::text::digit_char(digits@[i - 1 - k] as nat),
            ),
        decreases 6 - i,
    {
        let d = (rest % 10) as u8;
        proof {
            let w = (6 - i) as nat;
            assert(zero_padded(rest as nat, w) == zero_padded((rest / 10) as nat, (w - 1) as nat).push(
                crate::text::digit_char((rest % 10) as nat),
            ));
        }
        let ghost old_digits = digits@;
        digits.push(d);
        proof {
            let old_tail = Seq::new(i as nat, |k: int| crate::text::digit_char(old_digits[i - 1 - k] as nat));
            let new_tail = Seq::new((i + 1) as nat, |k: int| crate::text::digit_char(digits@[i - k] as nat));
            assert(new_tail =~= seq![crate::text::digit_char(d as nat)] + old_tail);
            assert(zero_padded((rest / 10) as nat, (5 - i) as nat).push(crate::text::digit_char(d as nat))
                + old_tail =~= zero_padded((rest / 10) as nat, (5 - i) as nat) + new_tail);
        }
        rest = rest / 10;
        i = i + 1;
    }
    let mut id = String::new();
    let mut j: usize = 6;
    assert(zero_padded(rest as nat, 0) =~= Seq::<char>::empty());
    while j > 0
        invariant
            j <= 6,
            digits.len() == 6,
            forall|k: int| 0 <= k < 6 ==> #[trigger] digits@[k] < 10,
            id@ == Seq::new((6 - j) as nat, |k: int| crate::text::digit_char(digits@[5 - k] as nat)),
        decreases j,
    {
        j = j - 1;
        let text = digit_text(digits[j]);
        id.append(text);
        proof {
            assert(id@ =~= Seq::new((6 - j) as nat, |k: int| crate::text::digit_char(digits@[5 - k] as nat)));
        }
    }
    proof {
        assert(id@ =~= zero_padded(n as nat, 6));
        assert forall|k: int| 0 <= k < 6 implies '0' <= #[trigger] id@[k] <= '9' by {
            assert(digits@[5 - k] < 10);
        }
    }
    id
}

/// A fresh game id: six random digits, or none if the operating system
/// gave no randomness.
pub fn generate_id() -> (id: Option<String>)
    ensures
        id matches Some(s) ==> is_game_id(s@),
{
    match random_bytes() {
        Ok(bytes) => Some(id_from_bytes(bytes)),
        Err(_) => None,
    }
}

impl DatabaseGame {
    /// The game of this quiz under `id`, hosted by `addr`, in its lobby.
    pub fn load_with_id(&self, addr: ClientId, id: String) -> (game: Game)
        ensures
            game.id == id,
            converted_questions(game.questions@, self.questions@),
            game.phase == GamePhase::Lobby,
            game.players.len() == 0,
            game.host == addr,
            game.correct_answers.len() == 0,
            game.question_start_time == 0,
    {
        Game {
            id,
            questions: kahoot_questions_to_normal_questions(&self.questions),
            phase: GamePhase::Lobby,
            players: Vec::new(),
            host: addr,
            correct_answers: Vec::new(),
            question_start_time: 0,
        }
    }

    /// The game of this quiz under a fresh random id, hosted by `addr`; none
    /// if no randomness was to be had.
    pub fn load(&self, addr: ClientId) -> (game: Option<Game>)
        ensures
            game matches Some(g) ==> {
                &&& is_game_id(g.id@)
                &&& converted_questions(g.questions@, self.questions@)
                &&& g.phase == GamePhase::Lobby
                &&& g.players.len() == 0
                &&& g.host == addr
                &&& g.correct_answers.len() == 0
                &&& g.question_start_time == 0
            },
    {
        match generate_id() {
            Some(id) => Some(self.load_with_id(addr, id)),
            None => None,
        }
    }
}

} // verus!
