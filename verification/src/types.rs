//! The values that cross the boundary of the question-answering pipeline.

use vstd::prelude::*;

verus! {

/// A question and the passage in which its answer is looked for.
#[derive(Clone, Debug, PartialEq, Eq)]
pub struct QaInput {
    pub question: String,
    pub context: String,
}

/// A run of consecutive tokens of an encoded input, both ends included.
#[derive(Clone, Copy, Debug, PartialEq, Eq, Structural)]
pub struct Span {
    pub start: usize,
    pub end: usize,
}

/// One decoded answer: a piece of the context, where it lies, and its score.
///
/// `start` and `end` count characters of the context, `end` excluded, and
/// `answer` holds exactly those characters.
#[derive(Clone, Debug, PartialEq, Eq)]
pub struct Answer {
    pub score: i128,
    pub start: usize,
    pub end: usize,
    pub answer: String,
}

/// The mathematical value of an [`Answer`].
pub struct AnswerView {
    pub score: int,
    pub start: int,
    pub end: int,
    pub answer: Seq<char>,
}

impl DeepView for Answer {
    type V = AnswerView;

    open spec fn deep_view(&self) -> AnswerView {
        AnswerView {
            score: self.score as int,
            start: self.start as int,
            end: self.end as int,
            answer: self.answer@,
        }
    }
}

} // verus!
