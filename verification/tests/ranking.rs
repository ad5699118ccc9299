use distilbert_qa::spans::ScoredInput;
use distilbert_qa::types::{QaInput, Span};

/// An input whose tokens all belong to the context, each one character wide.
fn scored(start_logits: Vec<i64>, end_logits: Vec<i64>) -> ScoredInput {
    let tokens = start_logits.len();
    ScoredInput {
        input: QaInput { question: String::new(), context: "x".repeat(tokens) },
        context_start: 0,
        context_end: tokens,
        offsets: (0..tokens).map(|t| (t, t + 1)).collect(),
        start_logits,
        end_logits,
    }
}

fn span(start: usize, end: usize) -> Span {
    Span { start, end }
}

#[test]
fn the_score_is_the_sum_of_both_ends() {
    let input = scored(vec![1, 20, 300], vec![4000, 50000, 600000]);
    assert_eq!(input.span_score(span(0, 0)), 4001);
    assert_eq!(input.span_score(span(1, 2)), 600020);
    assert_eq!(input.span_score(span(2, 1)), 50300);
}

#[test]
fn the_score_does_not_overflow() {
    let input = scored(vec![i64::MAX, i64::MIN], vec![i64::MAX, i64::MIN]);
    assert_eq!(input.span_score(span(0, 0)), 2 * (i64::MAX as i128));
    assert_eq!(input.span_score(span(1, 1)), 2 * (i64::MIN as i128));
    assert_eq!(input.span_score(span(0, 1)), -1);
    assert_eq!(input.rank_spans(2, 1), vec![span(0, 0), span(1, 1)]);
}

#[test]
fn the_higher_score_comes_first() {
    let input = scored(vec![0, 5, 0], vec![0, 0, 5]);
    assert!(input.comes_before(span(1, 2), span(0, 0)));
    assert!(!input.comes_before(span(0, 0), span(1, 2)));
    assert!(!input.comes_before(span(1, 1), span(1, 1)));
}

#[test]
fn of_equal_scores_the_earlier_start_comes_first() {
    let input = scored(vec![0, 0, 0], vec![0, 0, 0]);
    assert!(input.comes_before(span(0, 2), span(1, 1)));
    assert!(!input.comes_before(span(1, 1), span(0, 2)));
}

#[test]
fn of_equal_scores_and_starts_the_shorter_span_comes_first() {
    let input = scored(vec![0, 0, 0], vec![0, 0, 0]);
    assert!(input.comes_before(span(0, 0), span(0, 1)));
    assert!(!input.comes_before(span(0, 2), span(0, 1)));
}

#[test]
fn ties_are_ranked_by_start_then_by_length() {
    let input = scored(vec![0, 0, 0], vec![0, 0, 0]);
    assert_eq!(
        input.rank_spans(10, 3),
        vec![span(0, 0), span(0, 1), span(0, 2), span(1, 1), span(1, 2), span(2, 2)]
    );
    assert_eq!(input.rank_spans(4, 3), vec![span(0, 0), span(0, 1), span(0, 2), span(1, 1)]);
    assert_eq!(input.rank_spans(10, 2), vec![span(0, 0), span(0, 1), span(1, 1), span(1, 2), span(2, 2)]);
}

#[test]
fn the_ranking_is_by_descending_score() {
    let input = scored(vec![3, 1, 2], vec![10, 30, 20]);
    // (0,0)=13 (0,1)=33 (0,2)=23 (1,1)=31 (1,2)=21 (2,2)=22
    assert_eq!(
        input.rank_spans(6, 3),
        vec![span(0, 1), span(1, 1), span(0, 2), span(2, 2), span(1, 2), span(0, 0)]
    );
    assert_eq!(input.rank_spans(2, 3), vec![span(0, 1), span(1, 1)]);
    assert_eq!(input.rank_spans(1, 1), vec![span(1, 1)]);
}

#[test]
fn a_late_best_span_displaces_the_earlier_ones() {
    let input = scored(vec![0, 0, 0, 9], vec![0, 0, 0, 9]);
    assert_eq!(input.rank_spans(1, 4), vec![span(3, 3)]);
    assert_eq!(input.rank_spans(3, 4), vec![span(3, 3), span(0, 3), span(1, 3)]);
}

#[test]
fn spans_outside_the_context_segment_are_left_out() {
    let mut input = scored(vec![9, 0, 0, 0, 9], vec![9, 0, 0, 0, 9]);
    input.context_start = 1;
    input.context_end = 4;
    let spans = input.rank_spans(100, 5);
    assert_eq!(
        spans,
        vec![span(1, 1), span(1, 2), span(1, 3), span(2, 2), span(2, 3), span(3, 3)]
    );
}

#[test]
fn an_empty_or_inverted_segment_has_no_span() {
    let mut input = scored(vec![1, 2, 3], vec![1, 2, 3]);
    input.context_start = 2;
    input.context_end = 2;
    assert!(input.rank_spans(5, 5).is_empty());
    input.context_start = 3;
    input.context_end = 1;
    assert!(input.rank_spans(5, 5).is_empty());
}

#[test]
fn tokens_without_scores_or_offsets_are_left_out() {
    let mut input = scored(vec![1, 2, 3], vec![1, 2, 3]);
    input.context_end = 10;
    assert_eq!(input.rank_spans(1, 5), vec![span(2, 2)]);
    input.end_logits.pop();
    assert_eq!(input.rank_spans(1, 5), vec![span(1, 1)]);
    input.offsets.truncate(1);
    assert_eq!(input.rank_spans(5, 5), vec![span(0, 0)]);
    input.start_logits.clear();
    assert!(input.rank_spans(5, 5).is_empty());
}

#[test]
fn spans_whose_characters_leave_the_context_are_left_out() {
    let mut input = scored(vec![0, 0, 7], vec![0, 0, 7]);
    // The last token claims characters past the end of the context.
    input.offsets[2] = (2, 4);
    assert_eq!(input.rank_spans(10, 3), vec![span(0, 0), span(0, 1), span(1, 1)]);
    // A span needs at least one character: a token without any is no answer
    // alone, but may start or end a longer span.
    input.offsets[2] = (2, 2);
    input.offsets[0] = (1, 1);
    assert_eq!(
        input.rank_spans(10, 3),
        vec![span(0, 2), span(1, 2), span(0, 1), span(1, 1)]
    );
}

#[test]
fn the_longest_allowed_span_bounds_the_candidates() {
    let input = scored(vec![0; 6], vec![0, 0, 0, 0, 0, 100]);
    assert_eq!(input.rank_spans(1, 6), vec![span(0, 5)]);
    assert_eq!(input.rank_spans(1, 3), vec![span(3, 5)]);
    assert_eq!(input.rank_spans(1, 1), vec![span(5, 5)]);
    assert_eq!(input.rank_spans(1, u64::MAX), vec![span(0, 5)]);
}
