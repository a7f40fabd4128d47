//! Questions answered by colour.
use vstd::prelude::*;

verus! {

/// The colour of an answer button.
#[derive(PartialEq, Eq, Structural, Clone, Copy, Debug)]
pub enum Colour {
    Red,
    Blue,
    Yellow,
    Green,
}

/// A round: a question, its answers each with a colour, and the right answer.
#[derive(Debug)]
pub struct QAndA {
    question: String,
    answers: Vec<(String, Colour)>,
    answer: String,
}

/// The questions of a quiz.
#[derive(Debug)]
pub struct Questions {
    questions: Vec<QAndA>,
}

/// A quiz being played.
#[derive(Debug)]
pub struct Game {
    questions: Questions,
}

impl QAndA {
    pub closed spec fn question(self) -> Seq<char> {
        self.question@
    }

    pub closed spec fn answers(self) -> Seq<(String, Colour)> {
        self.answers@
    }

    /// The text of the right answer.
    pub closed spec fn answer(self) -> Seq<char> {
        self.answer@
    }

    /// The round `question` with `answers`, of which the one at `answer` is
    /// right.
    pub fn new(question: String, answers: Vec<(String, Colour)>, answer: usize) -> (round: Self)
        requires
            answer < answers.len(),
        ensures
            round.question() == question@,
            round.answers() == answers@,
            round.answer() == answers@[answer as int].0@,
    {
        let right = answers[answer].0.clone();
        QAndA { question, answers, answer: right }
    }

    /// Whether `guess` is the right answer.
    pub fn is_right(&self, guess: &str) -> (right: bool)
        ensures
            right == (guess@ == self.answer()),
    {
        crate::text::str_equals(self.answer.as_str(), guess)
    }

    /// The right answer.
    pub fn get_answer(&self) -> (answer: &str)
        ensures
            answer@ == self.answer(),
    {
        self.answer.as_str()
    }

    /// Whether the first answer of colour `check_colour` is right; none if
    /// no answer has that colour.
    pub fn check_colour(&self, check_colour: Colour) -> (right: Option<bool>)
        ensures
            match right {
                Some(r) => exists|i: int|
                    0 <= i < self.answers().len() && (#[trigger] self.answers()[i]).1 == check_colour && (
                    forall|k: int| 0 <= k < i ==> (#[trigger] self.answers()[k]).1 != check_colour) && r == (
                    self.answers()[i].0@ == self.answer()),
                None => forall|i: int|
                    0 <= i < self.answers().len() ==> (#[trigger] self.answers()[i]).1 != check_colour,
            },
    {
        let mut i: usize = 0;
        while i < self.answers.len()
            invariant
                i <= self.answers.len(),
                forall|k: int| 0 <= k < i ==> (#[trigger] self.answers@[k]).1 != check_colour,
            decreases self.answers.len() - i,
        {
            if self.answers[i].1 == check_colour {
                let right = self.is_right(self.answers[i].0.as_str());
                assert(self.answers()[i as int].1 == check_colour);
                return Some(right);
            }
            i = i + 1;
        }
        None
    }
}

} // verus!
