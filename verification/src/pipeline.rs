//! The decisions of the question-answering pipeline: which parameters it
//! accepts, and which answers it returns for a batch of scored inputs.
//!
//! Tokenising an input and scoring its tokens are the work of a tokenizer and
//! of the encoder with its answer head. What they return comes in as a
//! [`ScoredInput`]; everything after that is decided here.

use vstd::prelude::*;
use vstd::string::StrSliceExecFns;
use crate::config::ConfigError;
use crate::spans::ScoredInput;
use crate::types::{Answer, AnswerView, Span};

verus! {

/// The parameters of a prediction as `check_parameters` accepts them: both
/// positive.
#[derive(Clone, Copy, Debug, PartialEq, Eq, Structural)]
pub struct DecodingOptions {
    pub top_k: u64,
    pub max_answer_length: u64,
}

/// What `check_parameters` returns for the two numbers of a request.
pub open spec fn checked_parameters(top_k: i64, max_answer_length: i64) -> Result<
    DecodingOptions,
    ConfigError,
> {
    if top_k <= 0 {
        Err(ConfigError::NonPositiveTopK(top_k))
    } else if max_answer_length <= 0 {
        Err(ConfigError::NonPositiveMaxAnswerLength(max_answer_length))
    } else {
        Ok(DecodingOptions { top_k: top_k as u64, max_answer_length: max_answer_length as u64 })
    }
}

/// Checks the two numbers of a request. A caller runs this before it
/// tokenises or scores anything, so that a wrong request costs no computation.
pub fn check_parameters(top_k: i64, max_answer_length: i64) -> (checked: Result<
    DecodingOptions,
    ConfigError,
>)
    ensures
        checked == checked_parameters(top_k, max_answer_length),
{
    if top_k <= 0 {
        Err(ConfigError::NonPositiveTopK(top_k))
    } else if max_answer_length <= 0 {
        Err(ConfigError::NonPositiveMaxAnswerLength(max_answer_length))
    } else {
        Ok(DecodingOptions { top_k: top_k as u64, max_answer_length: max_answer_length as u64 })
    }
}

impl ScoredInput {
    /// The answer that a span of tokens stands for: the context's characters
    /// from the first character of its first token to the last character of
    /// its last token, with their place and the span's score.
    pub open spec fn answer_of(&self, span: Span) -> AnswerView {
        let start = self.offsets@[span.start as int].0 as int;
        let end = self.offsets@[span.end as int].1 as int;
        AnswerView {
            score: self.score(span),
            start,
            end,
            answer: self.context().subrange(start, end),
        }
    }

    /// How many tokens a span holds.
    pub open spec fn token_length(&self, span: Span) -> int {
        span.end - span.start + 1
    }

    /// Whether `answer` names a non-empty range of the context's characters
    /// and holds exactly those characters.
    pub open spec fn holds_text_of(&self, answer: Answer) -> bool {
        &&& answer.start < answer.end <= self.context().len()
        &&& answer.answer@ == self.context().subrange(answer.start as int, answer.end as int)
    }

    /// The answers of this input: its best `top_k` candidate spans of at most
    /// `max_len` tokens, best first, each as the answer it stands for.
    pub open spec fn answers(&self, top_k: int, max_len: int) -> Seq<AnswerView> {
        self.ranking(top_k, max_len).map_values(|span: Span| self.answer_of(span))
    }

    /// Whether `answers` are the answers of some ranking of the candidates of
    /// at most `max_len` tokens under the bound `top_k`.
    pub open spec fn is_decoding(&self, answers: Seq<AnswerView>, top_k: int, max_len: int) -> bool {
        exists|ranking: Seq<Span>|
            #![trigger self.ranks(ranking, top_k, self.candidates(max_len))]
            self.ranks(ranking, top_k, self.candidates(max_len)) && answers == ranking.map_values(
                |span: Span| self.answer_of(span),
            )
    }

    /// An input has one decoding: two answer lists that both come from a
    /// ranking of its candidates under the same parameters are equal.
    pub proof fn lemma_decoding_is_unique(
        &self,
        first: Seq<AnswerView>,
        second: Seq<AnswerView>,
        top_k: int,
        max_len: int,
    )
        requires
            self.is_decoding(first, top_k, max_len),
            self.is_decoding(second, top_k, max_len),
        ensures
            first == second,
    {
        let among = self.candidates(max_len);
        let one = choose|ranking: Seq<Span>|
            #![trigger self.ranks(ranking, top_k, among)]
            self.ranks(ranking, top_k, among) && first == ranking.map_values(
                |span: Span| self.answer_of(span),
            );
        let other = choose|ranking: Seq<Span>|
            #![trigger self.ranks(ranking, top_k, among)]
            self.ranks(ranking, top_k, among) && second == ranking.map_values(
                |span: Span| self.answer_of(span),
            );
        self.lemma_ranking_unique(one, other, top_k, among);
    }

    /// Decodes the best `top_k` answers of at most `max_answer_length` tokens,
    /// best first.
    ///
    /// There are `top_k` of them, or as many as there are candidate spans where
    /// those are fewer; none where the context is empty. Each lies within the
    /// context and holds the characters of its range.
    pub fn decode(&self, top_k: u64, max_answer_length: u64) -> (answers: Vec<Answer>)
        ensures
            answers.deep_view() == self.answers(top_k as int, max_answer_length as int),
            self.is_decoding(answers.deep_view(), top_k as int, max_answer_length as int),
            answers@.len() == self.ranking(top_k as int, max_answer_length as int).len(),
            forall|i: int|
                0 <= i < answers@.len() ==> (#[trigger] answers@[i]).deep_view() == self.answer_of(
                    self.ranking(top_k as int, max_answer_length as int)[i],
                ),
            self.ranks(
                self.ranking(top_k as int, max_answer_length as int),
                top_k as int,
                self.candidates(max_answer_length as int),
            ),
            self.candidates(max_answer_length as int).finite(),
            answers@.len() <= top_k,
            answers@.len() <= self.candidates(max_answer_length as int).len(),
            answers@.len() == top_k || answers@.len() == self.candidates(
                max_answer_length as int,
            ).len(),
            self.context().len() == 0 ==> answers@.len() == 0,
            forall|i: int|
                0 <= i < answers@.len() ==> self.token_length(
                    #[trigger] self.ranking(top_k as int, max_answer_length as int)[i],
                ) <= max_answer_length,
            forall|i: int| 0 <= i < answers@.len() ==> self.holds_text_of(#[trigger] answers@[i]),
            forall|i: int, j: int|
                0 <= i < j < answers@.len() ==> (#[trigger] answers@[i]).score
                    >= (#[trigger] answers@[j]).score,
    {
        let spans: Vec<Span> = self.rank_spans(top_k, max_answer_length);
        let mut answers: Vec<Answer> = Vec::new();
        let mut i: usize = 0;
        while i < spans.len()
            invariant
                i <= spans@.len(),
                answers@.len() == i,
                forall|j: int|
                    0 <= j < spans@.len() ==> self.is_candidate(
                        #[trigger] spans@[j],
                        max_answer_length as int,
                    ),
                forall|j: int|
                    0 <= j < i ==> (#[trigger] answers@[j]).deep_view() == self.answer_of(
                        spans@[j],
                    ),
            decreases spans@.len() - i,
        {
            let span: Span = spans[i];
            let start: usize = self.offsets[span.start].0;
            let end: usize = self.offsets[span.end].1;
            let answer: String = self.input.context.as_str().substring_char(start, end).to_owned();
            let score: i128 = self.span_score(span);
            answers.push(Answer { score, start, end, answer });
            i = i + 1;
        }
        proof {
            assert(answers.deep_view() =~= self.answers(
                top_k as int,
                max_answer_length as int,
            ));
            assert(self.ranks(
                spans@,
                top_k as int,
                self.candidates(max_answer_length as int),
            ));
            assert forall|i: int, j: int| 0 <= i < j < answers@.len() implies (
            #[trigger] answers@[i]).score >= (#[trigger] answers@[j]).score by {
                assert(self.outranks(spans@[i], spans@[j]));
            }
            if self.context().len() == 0 && answers@.len() > 0 {
                // No span has characters in an empty context.
                assert(self.is_candidate(spans@[0], max_answer_length as int));
            }
        }
        answers
    }
}

/// The answer lists that `predict` returns for a batch, or the error with
/// which it refuses the request: one list for each input, in the order of the
/// inputs.
pub open spec fn predicted(inputs: Seq<ScoredInput>, top_k: i64, max_answer_length: i64) -> Result<
    Seq<Seq<AnswerView>>,
    ConfigError,
> {
    match checked_parameters(top_k, max_answer_length) {
        Err(error) => Err(error),
        Ok(options) => Ok(
            Seq::new(
                inputs.len(),
                |i: int| inputs[i].answers(options.top_k as int, options.max_answer_length as int),
            ),
        ),
    }
}

/// Whether `result` is an outcome that `predict` allows: the error of the
/// parameters where they are refused, and else one list for each input, in the
/// order of the inputs, each a decoding of its input.
pub open spec fn is_prediction(
    inputs: Seq<ScoredInput>,
    top_k: i64,
    max_answer_length: i64,
    result: Result<Seq<Seq<AnswerView>>, ConfigError>,
) -> bool {
    match checked_parameters(top_k, max_answer_length) {
        Err(error) => result == Err::<Seq<Seq<AnswerView>>, ConfigError>(error),
        Ok(options) => {
            &&& result is Ok
            &&& result->Ok_0.len() == inputs.len()
            &&& forall|i: int|
                0 <= i < inputs.len() ==> (#[trigger] inputs[i]).is_decoding(
                    result->Ok_0[i],
                    options.top_k as int,
                    options.max_answer_length as int,
                )
        },
    }
}

/// The mathematical value of what `predict` returns.
pub open spec fn prediction_view(result: Result<Vec<Vec<Answer>>, ConfigError>) -> Result<
    Seq<Seq<AnswerView>>,
    ConfigError,
> {
    match result {
        Err(error) => Err(error),
        Ok(lists) => Ok(lists.deep_view()),
    }
}

/// Everything that `decode` promises of the answers of one input.
spec fn decoded(input: ScoredInput, answers: Vec<Answer>, top_k: int, max_len: int) -> bool {
    &&& answers.deep_view() == input.answers(top_k, max_len)
    &&& input.is_decoding(answers.deep_view(), top_k, max_len)
    &&& input.ranks(input.ranking(top_k, max_len), top_k, input.candidates(max_len))
    &&& input.candidates(max_len).finite()
    &&& answers@.len() <= top_k
    &&& answers@.len() <= input.candidates(max_len).len()
    &&& input.context().len() == 0 ==> answers@.len() == 0
    &&& forall|i: int|
        0 <= i < answers@.len() ==> input.token_length(#[trigger] input.ranking(top_k, max_len)[i])
            <= max_len
    &&& forall|i: int| 0 <= i < answers@.len() ==> input.holds_text_of(#[trigger] answers@[i])
    &&& forall|i: int, j: int|
        0 <= i < j < answers@.len() ==> (#[trigger] answers@[i]).score
            >= (#[trigger] answers@[j]).score
}

/// Answers a batch of scored inputs: for each input its best `top_k` answers
/// of at most `max_answer_length` tokens, best first.
///
/// A `top_k` or a `max_answer_length` that is not positive is refused, `top_k`
/// first, and nothing is decoded. Otherwise list `i` of the result belongs to
/// input `i`.
pub fn predict(inputs: &Vec<ScoredInput>, top_k: i64, max_answer_length: i64) -> (result: Result<
    Vec<Vec<Answer>>,
    ConfigError,
>)
    ensures
        prediction_view(result) == predicted(inputs@, top_k, max_answer_length),
        is_prediction(inputs@, top_k, max_answer_length, prediction_view(result)),
        top_k <= 0 ==> result == Err::<Vec<Vec<Answer>>, ConfigError>(
            ConfigError::NonPositiveTopK(top_k),
        ),
        top_k > 0 && max_answer_length <= 0 ==> result == Err::<Vec<Vec<Answer>>, ConfigError>(
            ConfigError::NonPositiveMaxAnswerLength(max_answer_length),
        ),
        top_k > 0 && max_answer_length > 0 ==> result is Ok,
        result matches Ok(lists) ==> {
            &&& lists@.len() == inputs@.len()
            &&& forall|i: int|
                0 <= i < lists@.len() ==> {
                    &&& (#[trigger] lists@[i]).deep_view() == inputs@[i].answers(
                        top_k as int,
                        max_answer_length as int,
                    )
                    &&& inputs@[i].ranks(
                        inputs@[i].ranking(top_k as int, max_answer_length as int),
                        top_k as int,
                        inputs@[i].candidates(max_answer_length as int),
                    )
                    &&& inputs@[i].candidates(max_answer_length as int).finite()
                    &&& lists@[i]@.len() <= top_k
                    &&& lists@[i]@.len() <= inputs@[i].candidates(max_answer_length as int).len()
                    &&& inputs@[i].context().len() == 0 ==> lists@[i]@.len() == 0
                }
            &&& forall|i: int, j: int|
                0 <= i < lists@.len() && 0 <= j < lists@[i]@.len() ==> inputs@[i].token_length(
                    #[trigger] inputs@[i].ranking(top_k as int, max_answer_length as int)[j],
                ) <= max_answer_length
            &&& forall|i: int, j: int|
                0 <= i < lists@.len() && 0 <= j < lists@[i]@.len() ==> inputs@[i].holds_text_of(
                    #[trigger] lists@[i]@[j],
                )
            &&& forall|i: int, j: int, k: int|
                0 <= i < lists@.len() && 0 <= j < k < lists@[i]@.len() ==> (
                #[trigger] lists@[i]@[j]).score >= (#[trigger] lists@[i]@[k]).score
        },
{
    let options = match check_parameters(top_k, max_answer_length) {
        Err(error) => {
            return Err(error);
        },
        Ok(options) => options,
    };
    let mut lists: Vec<Vec<Answer>> = Vec::new();
    let mut i: usize = 0;
    while i < inputs.len()
        invariant
            i <= inputs@.len(),
            lists@.len() == i,
            top_k > 0,
            max_answer_length > 0,
            options.top_k == top_k,
            options.max_answer_length == max_answer_length,
            forall|n: int|
                0 <= n < i ==> decoded(
                    inputs@[n],
                    #[trigger] lists@[n],
                    top_k as int,
                    max_answer_length as int,
                ),
        decreases inputs@.len() - i,
    {
        let answers = inputs[i].decode(options.top_k, options.max_answer_length);
        lists.push(answers);
        i = i + 1;
    }
    proof {
        let k = top_k as int;
        let longest = max_answer_length as int;
        assert forall|n: int| 0 <= n < lists@.len() implies {
            &&& (#[trigger] lists@[n]).deep_view() == inputs@[n].answers(k, longest)
            &&& inputs@[n].ranks(inputs@[n].ranking(k, longest), k, inputs@[n].candidates(longest))
            &&& inputs@[n].candidates(longest).finite()
            &&& lists@[n]@.len() <= top_k
            &&& lists@[n]@.len() <= inputs@[n].candidates(longest).len()
            &&& inputs@[n].context().len() == 0 ==> lists@[n]@.len() == 0
        } by {
        }
        assert forall|n: int, j: int|
            0 <= n < lists@.len() && 0 <= j < lists@[n]@.len() implies inputs@[n].token_length(
            #[trigger] inputs@[n].ranking(k, longest)[j],
        ) <= max_answer_length by {
        }
        assert forall|n: int, j: int|
            0 <= n < lists@.len() && 0 <= j < lists@[n]@.len() implies inputs@[n].holds_text_of(
            #[trigger] lists@[n]@[j],
        ) by {
        }
        assert forall|n: int, j: int, m: int|
            0 <= n < lists@.len() && 0 <= j < m < lists@[n]@.len() implies (
        #[trigger] lists@[n]@[j]).score >= (#[trigger] lists@[n]@[m]).score by {
        }
        assert(lists.deep_view() =~= Seq::new(
            inputs@.len(),
            |n: int| inputs@[n].answers(k, longest),
        ));
        assert forall|n: int| 0 <= n < inputs@.len() implies (#[trigger] inputs@[n]).is_decoding(
            lists.deep_view()[n],
            k,
            longest,
        ) by {
        }
    }
    Ok(lists)
}

/// Predicting is repeatable: two outcomes that `predict` allows for the same
/// batch and the same parameters are the same answer lists, or the same error.
pub proof fn lemma_predict_is_repeatable(
    inputs: Seq<ScoredInput>,
    top_k: i64,
    max_answer_length: i64,
    first: Result<Seq<Seq<AnswerView>>, ConfigError>,
    second: Result<Seq<Seq<AnswerView>>, ConfigError>,
)
    requires
        is_prediction(inputs, top_k, max_answer_length, first),
        is_prediction(inputs, top_k, max_answer_length, second),
    ensures
        first == second,
{
    match checked_parameters(top_k, max_answer_length) {
        Err(_) => {},
        Ok(options) => {
            let one = first->Ok_0;
            let other = second->Ok_0;
            assert forall|i: int| 0 <= i < inputs.len() implies one[i] == other[i] by {
                assert(inputs[i].is_decoding(
                    one[i],
                    options.top_k as int,
                    options.max_answer_length as int,
                ));
                inputs[i].lemma_decoding_is_unique(
                    one[i],
                    other[i],
                    options.top_k as int,
                    options.max_answer_length as int,
                );
            }
            assert(one =~= other);
        },
    }
}

/// Each list of a prediction belongs to the input at its place: an outcome
/// that `predict` allows holds at place `i` the answers of input `i`, whatever
/// the other inputs of the batch are.
pub proof fn lemma_lists_follow_inputs(
    inputs: Seq<ScoredInput>,
    top_k: i64,
    max_answer_length: i64,
    lists: Seq<Seq<AnswerView>>,
    i: int,
)
    requires
        is_prediction(
            inputs,
            top_k,
            max_answer_length,
            Ok::<Seq<Seq<AnswerView>>, ConfigError>(lists),
        ),
        0 <= i < inputs.len(),
    ensures
        lists.len() == inputs.len(),
        is_prediction(
            seq![inputs[i]],
            top_k,
            max_answer_length,
            Ok::<Seq<Seq<AnswerView>>, ConfigError>(seq![lists[i]]),
        ),
{
    assert(inputs[i].is_decoding(lists[i], top_k as int, max_answer_length as int));
}

} // verus!
