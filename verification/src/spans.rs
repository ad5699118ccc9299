//! Candidate answer spans of one scored input, and their ranking.
//!
//! A span is a run of tokens. Its score is the start score of its first token
//! plus the end score of its last token. The candidates are the spans that lie
//! in the context segment, are no longer than the caller allows, and cover a
//! non-empty range of the context's characters. `rank_spans` returns the best
//! of them, best first.

use vstd::prelude::*;
use vstd::set_lib::lemma_len_subset;
use crate::types::{QaInput, Span};

verus! {

/// One question/context pair after tokenisation and scoring.
///
/// The token sequence holds the question and the context; the tokens
/// `context_start..context_end` are those of the context. `offsets[t]` is the
/// range of context characters that token `t` covers, end excluded.
/// `start_logits[t]` and `end_logits[t]` score token `t` as the first and as the
/// last token of the answer, in fixed-point units chosen by the caller.
#[derive(Clone, Debug, PartialEq, Eq)]
pub struct ScoredInput {
    pub input: QaInput,
    pub context_start: usize,
    pub context_end: usize,
    pub offsets: Vec<(usize, usize)>,
    pub start_logits: Vec<i64>,
    pub end_logits: Vec<i64>,
}

impl ScoredInput {
    /// The characters of the context.
    pub open spec fn context(&self) -> Seq<char> {
        self.input.context@
    }

    /// Whether `span` may be returned as an answer of at most `max_len` tokens:
    /// it lies in the context segment, every token of it has scores and
    /// offsets, and its characters are a non-empty range of the context.
    pub open spec fn is_candidate(&self, span: Span, max_len: int) -> bool {
        &&& self.context_start <= span.start <= span.end < self.context_end
        &&& span.end < self.offsets@.len()
        &&& span.end < self.start_logits@.len()
        &&& span.end < self.end_logits@.len()
        &&& span.end - span.start < max_len
        &&& self.offsets@[span.start as int].0 < self.offsets@[span.end as int].1
        &&& self.offsets@[span.end as int].1 <= self.context().len()
    }

    /// All candidates of at most `max_len` tokens.
    pub open spec fn candidates(&self, max_len: int) -> Set<Span> {
        Set::new(|span: Span| self.is_candidate(span, max_len))
    }

    /// The score of a span: start score of its first token plus end score of
    /// its last.
    pub open spec fn score(&self, span: Span) -> int {
        self.start_logits@[span.start as int] + self.end_logits@[span.end as int]
    }

    /// Whether `a` comes before `b` in a ranking: the higher score first; of
    /// equal scores the span that starts earlier; of those the shorter one.
    pub open spec fn outranks(&self, a: Span, b: Span) -> bool {
        ||| self.score(a) > self.score(b)
        ||| self.score(a) == self.score(b) && a.start < b.start
        ||| self.score(a) == self.score(b) && a.start == b.start && a.end < b.end
    }

    /// Whether `ranking` lists the best `top_k` spans of `among`, best first:
    /// it holds spans of `among` in strictly descending rank, and a span of
    /// `among` is left out only when `top_k` spans rank before it.
    pub open spec fn ranks(&self, ranking: Seq<Span>, top_k: int, among: Set<Span>) -> bool {
        &&& ranking.len() <= top_k
        &&& forall|i: int| 0 <= i < ranking.len() ==> among.contains(#[trigger] ranking[i])
        &&& forall|i: int, j: int|
            0 <= i < j < ranking.len() ==> self.outranks(#[trigger] ranking[i], #[trigger] ranking[j])
        &&& forall|c: Span| #[trigger]
            among.contains(c) ==> ranking.contains(c) || self.all_outrank(ranking, top_k, c)
    }

    /// Whether `ranking` is full and each span of it comes before `c`.
    pub open spec fn all_outrank(&self, ranking: Seq<Span>, top_k: int, c: Span) -> bool {
        &&& ranking.len() == top_k
        &&& forall|i: int| 0 <= i < ranking.len() ==> self.outranks(#[trigger] ranking[i], c)
    }

    /// The best `top_k` candidates of at most `max_len` tokens, best first.
    pub open spec fn ranking(&self, top_k: int, max_len: int) -> Seq<Span> {
        choose|r: Seq<Span>| self.ranks(r, top_k, self.candidates(max_len))
    }

    /// The candidates that an enumeration by start token, then by end token,
    /// has passed when it stands at `(start, end)`.
    spec fn enumerated(&self, max_len: int, start: int, end: int) -> Set<Span> {
        Set::new(
            |span: Span|
                self.is_candidate(span, max_len) && (span.start < start || (span.start == start
                    && span.end < end)),
        )
    }

    /// The ranking order is a strict total order: no span comes before itself,
    /// of two different spans exactly one comes first, and the order is
    /// transitive.
    pub proof fn lemma_outranks_is_strict_total_order(&self, a: Span, b: Span, c: Span)
        ensures
            !self.outranks(a, a),
            a != b ==> (self.outranks(a, b) <==> !self.outranks(b, a)),
            self.outranks(a, b) && self.outranks(b, c) ==> self.outranks(a, c),
    {
    }

    /// A list of candidates has at most one ranking: two sequences that both
    /// rank the same spans under the same bound are equal.
    pub proof fn lemma_ranking_unique(
        &self,
        first: Seq<Span>,
        second: Seq<Span>,
        top_k: int,
        among: Set<Span>,
    )
        requires
            self.ranks(first, top_k, among),
            self.ranks(second, top_k, among),
        ensures
            first == second,
    {
        self.lemma_common_prefix(first, second, top_k, among, first.len() as int);
        self.lemma_common_prefix(second, first, top_k, among, second.len() as int);
    }

    /// Two rankings of the same spans agree on their first `n` entries, up to
    /// the length of the first.
    proof fn lemma_common_prefix(
        &self,
        first: Seq<Span>,
        second: Seq<Span>,
        top_k: int,
        among: Set<Span>,
        n: int,
    )
        requires
            self.ranks(first, top_k, among),
            self.ranks(second, top_k, among),
            0 <= n <= first.len(),
        ensures
            n <= second.len(),
            forall|i: int| 0 <= i < n ==> first[i] == second[i],
        decreases n,
    {
        if n > 0 {
            self.lemma_common_prefix(first, second, top_k, among, n - 1);
            // `second` has an entry at `n - 1`: it holds `a`, at that place or
            // later, or it is full and so as long as `first`.
            let a = first[n - 1];
            if second.contains(a) {
                let j = choose|j: int| 0 <= j < second.len() && second[j] == a;
                assert(j >= n - 1);
            }
            // Were the two entries different, the one that ranks first would
            // be missing from the other ranking, or stand in it too late.
            let b = second[n - 1];
            self.lemma_outranks_is_strict_total_order(a, b, a);
            if first.contains(b) {
                let j = choose|j: int| 0 <= j < first.len() && first[j] == b;
                assert(j >= n - 1);
            }
            assert(a == b);
        }
    }

    /// A ranking is as long as the bound allows: it holds `top_k` spans, or
    /// all of them where there are fewer.
    pub proof fn lemma_ranking_length(&self, ranking: Seq<Span>, top_k: int, among: Set<Span>)
        requires
            self.ranks(ranking, top_k, among),
            among.finite(),
        ensures
            ranking.len() <= among.len(),
            ranking.len() == top_k || ranking.len() == among.len(),
            ranking.no_duplicates(),
    {
        // Strictly ranked spans are all different.
        assert forall|i: int, j: int|
            0 <= i < ranking.len() && 0 <= j < ranking.len() && i != j implies ranking[i]
            != ranking[j] by {
            if i < j {
                assert(self.outranks(ranking[i], ranking[j]));
            } else {
                assert(self.outranks(ranking[j], ranking[i]));
            }
        }
        ranking.unique_seq_to_set();
        assert(ranking.to_set().subset_of(among));
        lemma_len_subset(ranking.to_set(), among);
        if ranking.len() != top_k {
            // A ranking that is not full leaves no span out.
            assert(ranking.to_set() =~= among);
        }
    }

    /// Placing a new span at its rank in a ranking, and dropping the last
    /// span where the bound is passed, ranks the spans with the new one added.
    proof fn lemma_insert_ranks(
        &self,
        ranking: Seq<Span>,
        top_k: int,
        among: Set<Span>,
        c: Span,
        at: int,
    )
        requires
            self.ranks(ranking, top_k, among),
            !among.contains(c),
            0 <= at <= ranking.len(),
            at < top_k,
            forall|i: int| 0 <= i < at ==> self.outranks(#[trigger] ranking[i], c),
            forall|i: int| at <= i < ranking.len() ==> self.outranks(c, #[trigger] ranking[i]),
        ensures
            ranking.len() < top_k ==> self.ranks(ranking.insert(at, c), top_k, among.insert(c)),
            ranking.len() == top_k ==> self.ranks(
                ranking.insert(at, c).drop_last(),
                top_k,
                among.insert(c),
            ),
    {
        let longer = ranking.insert(at, c);
        ranking.insert_ensures(at, c);
        assert forall|i: int| at < i < longer.len() implies longer[i] == ranking[i - 1] by {
            assert(longer[(i - 1) + 1] == ranking[i - 1]);
        }
        assert forall|x: Span| ranking.contains(x) implies longer.contains(x) by {
            let i = choose|i: int| 0 <= i < ranking.len() && ranking[i] == x;
            if i < at {
                assert(longer[i] == x);
            } else {
                assert(longer[i + 1] == x);
            }
        }
        assert(longer[at] == c);
        if ranking.len() < top_k {
            assert(self.ranks(longer, top_k, among.insert(c)));
        } else {
            // The span that leaves is the last of `longer`: every span kept
            // ranks before it, and before whatever the old last span preceded.
            let kept = longer.drop_last();
            assert forall|x: Span| #[trigger] among.insert(c).contains(x) implies kept.contains(x)
                || self.all_outrank(kept, top_k, x) by {
                if longer.contains(x) {
                    let i = choose|i: int| 0 <= i < longer.len() && longer[i] == x;
                    if i < kept.len() {
                        assert(kept[i] == x);
                    }
                } else {
                    assert(self.all_outrank(ranking, top_k, x));
                    assert(self.outranks(c, ranking[at]));
                }
            }
            assert(self.ranks(kept, top_k, among.insert(c)));
        }
    }

    /// The score of `span`, computed without overflow.
    pub fn span_score(&self, span: Span) -> (total: i128)
        requires
            span.start < self.start_logits@.len(),
            span.end < self.end_logits@.len(),
        ensures
            total == self.score(span),
    {
        let first: i128 = self.start_logits[span.start] as i128;
        let last: i128 = self.end_logits[span.end] as i128;
        first + last
    }

    /// Decides whether `a` comes before `b` in a ranking.
    pub fn comes_before(&self, a: Span, b: Span) -> (before: bool)
        requires
            a.start < self.start_logits@.len(),
            a.end < self.end_logits@.len(),
            b.start < self.start_logits@.len(),
            b.end < self.end_logits@.len(),
        ensures
            before == self.outranks(a, b),
    {
        let left: i128 = self.span_score(a);
        let right: i128 = self.span_score(b);
        left > right || (left == right && (a.start < b.start || (a.start == b.start && a.end
            < b.end)))
    }

    /// Adds the span `c` to a ranking of the spans `among`, which do not hold
    /// it yet: afterwards `best` ranks `among` with `c` added.
    fn place(&self, best: &mut Vec<Span>, c: Span, top_k: u64, Ghost(among): Ghost<Set<Span>>)
        requires
            self.ranks(old(best)@, top_k as int, among),
            !among.contains(c),
            c.start <= c.end,
            c.end < self.start_logits@.len(),
            c.end < self.end_logits@.len(),
            forall|x: Span| #[trigger]
                among.contains(x) ==> x.start <= x.end && x.end < self.start_logits@.len() && x.end
                    < self.end_logits@.len(),
        ensures
            self.ranks(final(best)@, top_k as int, among.insert(c)),
    {
        let ghost before = best@;
        let n: usize = best.len();
        if n as u64 >= top_k {
            if top_k == 0 {
                assert(self.all_outrank(before, 0, c));
                return ;
            }
            let last: Span = best[n - 1];
            if !self.comes_before(c, last) {
                proof {
                    // The ranking is full and its last span comes before `c`:
                    // so does every span of it.
                    self.lemma_outranks_is_strict_total_order(last, c, last);
                    assert forall|i: int| 0 <= i < before.len() implies self.outranks(
                        #[trigger] before[i],
                        c,
                    ) by {
                        if i < n - 1 {
                            assert(self.outranks(before[i], before[n - 1]));
                        }
                    }
                    assert(self.all_outrank(before, top_k as int, c));
                }
                return ;
            }
        }
        let mut at: usize = n;
        while at > 0 && self.comes_before(c, best[at - 1])
            invariant
                at <= n,
                n == best@.len(),
                best@ == before,
                self.ranks(before, top_k as int, among),
                c.start <= c.end,
                c.end < self.start_logits@.len(),
                c.end < self.end_logits@.len(),
                forall|x: Span| #[trigger]
                    among.contains(x) ==> x.start <= x.end && x.end < self.start_logits@.len()
                        && x.end < self.end_logits@.len(),
                forall|i: int| at <= i < n ==> self.outranks(c, #[trigger] before[i]),
            decreases at,
        {
            at = at - 1;
        }
        proof {
            if at > 0 {
                // The span above the place is another span than `c` and does
                // not come after it: it comes before it, and so do those above.
                let above = before[at - 1];
                self.lemma_outranks_is_strict_total_order(above, c, above);
                assert forall|i: int| 0 <= i < at implies self.outranks(#[trigger] before[i], c) by {
                    if i < at - 1 {
                        assert(self.outranks(before[i], before[at - 1]));
                    }
                }
            }
            self.lemma_insert_ranks(before, top_k as int, among, c, at as int);
        }
        best.insert(at, c);
        if n as u64 >= top_k {
            best.pop();
        }
    }

    /// The number of tokens that have a start score, an end score and offsets.
    fn scored_tokens(&self) -> (n: usize)
        ensures
            n <= self.offsets@.len(),
            n <= self.start_logits@.len(),
            n <= self.end_logits@.len(),
            n == self.offsets@.len() || n == self.start_logits@.len() || n
                == self.end_logits@.len(),
    {
        let mut n: usize = self.offsets.len();
        if self.start_logits.len() < n {
            n = self.start_logits.len();
        }
        if self.end_logits.len() < n {
            n = self.end_logits.len();
        }
        n
    }

    /// Ranks the candidate spans of at most `max_answer_length` tokens and
    /// returns the best `top_k` of them, best first.
    ///
    /// The result is the one ranking of the candidates: it is in strictly
    /// descending rank, holds `top_k` spans or every candidate where there are
    /// fewer, and no candidate left out ranks before a span in it.
    pub fn rank_spans(&self, top_k: u64, max_answer_length: u64) -> (spans: Vec<Span>)
        ensures
            spans@ == self.ranking(top_k as int, max_answer_length as int),
            self.ranks(spans@, top_k as int, self.candidates(max_answer_length as int)),
            self.candidates(max_answer_length as int).finite(),
            spans@.len() <= top_k,
            spans@.len() <= self.candidates(max_answer_length as int).len(),
            spans@.len() == top_k || spans@.len() == self.candidates(
                max_answer_length as int,
            ).len(),
            forall|i: int|
                0 <= i < spans@.len() ==> self.is_candidate(
                    #[trigger] spans@[i],
                    max_answer_length as int,
                ),
    {
        let ghost max_len = max_answer_length as int;
        let context_len: usize = self.input.context.as_str().unicode_len();
        let tokens: usize = self.scored_tokens();
        let limit: usize = if self.context_end < tokens {
            self.context_end
        } else {
            tokens
        };
        let mut best: Vec<Span> = Vec::new();
        let mut start: usize = self.context_start;
        proof {
            assert(self.enumerated(max_len, start as int, 0) =~= Set::<Span>::empty());
        }
        while start < limit
            invariant
                self.context_start <= start,
                limit <= self.context_end,
                limit <= self.offsets@.len(),
                limit <= self.start_logits@.len(),
                limit <= self.end_logits@.len(),
                limit == self.context_end || limit == self.offsets@.len() || limit
                    == self.start_logits@.len() || limit == self.end_logits@.len(),
                context_len == self.context().len(),
                max_len == max_answer_length as int,
                self.enumerated(max_len, start as int, 0).finite(),
                self.ranks(best@, top_k as int, self.enumerated(max_len, start as int, 0)),
            decreases limit - start,
        {
            let mut end: usize = start;
            proof {
                assert(self.enumerated(max_len, start as int, end as int) =~= self.enumerated(
                    max_len,
                    start as int,
                    0,
                ));
            }
            while end < limit && ((end - start) as u64) < max_answer_length
                invariant
                    self.context_start <= start <= end <= limit,
                    start < limit,
                    limit <= self.context_end,
                    limit <= self.offsets@.len(),
                    limit <= self.start_logits@.len(),
                    limit <= self.end_logits@.len(),
                    context_len == self.context().len(),
                    max_len == max_answer_length as int,
                    self.enumerated(max_len, start as int, end as int).finite(),
                    self.ranks(
                        best@,
                        top_k as int,
                        self.enumerated(max_len, start as int, end as int),
                    ),
                decreases limit - end,
            {
                let span = Span { start, end };
                let ghost passed = self.enumerated(max_len, start as int, end as int);
                let first_char: usize = self.offsets[start].0;
                let after_last_char: usize = self.offsets[end].1;
                if first_char < after_last_char && after_last_char <= context_len {
                    proof {
                        assert(self.enumerated(max_len, start as int, end + 1) =~= passed.insert(
                            span,
                        ));
                    }
                    self.place(&mut best, span, top_k, Ghost(passed));
                } else {
                    proof {
                        assert(self.enumerated(max_len, start as int, end + 1) =~= passed);
                    }
                }
                end = end + 1;
            }
            proof {
                assert(self.enumerated(max_len, start + 1, 0) =~= self.enumerated(
                    max_len,
                    start as int,
                    end as int,
                ));
            }
            start = start + 1;
        }
        proof {
            assert(self.enumerated(max_len, start as int, 0) =~= self.candidates(max_len));
            self.lemma_ranking_length(best@, top_k as int, self.candidates(max_len));
            self.lemma_ranking_unique(
                best@,
                self.ranking(top_k as int, max_len),
                top_k as int,
                self.candidates(max_len),
            );
        }
        best
    }
}

} // verus!
