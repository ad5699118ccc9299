//! Batching: sequences of different lengths become one rectangular batch.
//!
//! Every sequence is filled up to the length of the longest with the padding
//! index, and an attention mask tells the tokens from the filling.

use vstd::prelude::*;
use crate::embeddings::{sequence_length, DistilBertEmbedding, PADDING_INDEX};

verus! {

/// A rectangular batch of token ids and its attention mask.
#[derive(Clone, Debug, PartialEq, Eq)]
pub struct PaddedBatch {
    /// One row for each sequence, all of one length.
    pub token_ids: Vec<Vec<i64>>,
    /// `true` where the row holds a token of the sequence, `false` where it
    /// holds padding.
    pub attention_mask: Vec<Vec<bool>>,
}

/// The length of the longest of the sequences; zero where there is none.
pub open spec fn longest(sequences: Seq<Vec<i64>>) -> nat
    decreases sequences.len(),
{
    if sequences.len() == 0 {
        0
    } else {
        let before = longest(sequences.drop_last());
        if sequences.last()@.len() > before {
            sequences.last()@.len()
        } else {
            before
        }
    }
}

/// A sequence filled up to `width` with the padding index.
pub open spec fn padded(sequence: Seq<i64>, width: nat) -> Seq<i64> {
    Seq::new(
        width,
        |t: int|
            if t < sequence.len() {
                sequence[t]
            } else {
                PADDING_INDEX as i64
            },
    )
}

/// The mask of a row of `width` entries of which the first `length` hold tokens.
pub open spec fn mask(length: nat, width: nat) -> Seq<bool> {
    Seq::new(width, |t: int| t < length)
}

/// No sequence is longer than the longest, and one of them is as long,
/// unless there is none.
pub proof fn lemma_longest_is_the_maximum(sequences: Seq<Vec<i64>>)
    ensures
        forall|b: int| 0 <= b < sequences.len() ==> (#[trigger] sequences[b])@.len() <= longest(
            sequences,
        ),
        sequences.len() > 0 ==> exists|b: int|
            0 <= b < sequences.len() && (#[trigger] sequences[b])@.len() == longest(sequences),
    decreases sequences.len(),
{
    if sequences.len() > 0 {
        let front = sequences.drop_last();
        lemma_longest_is_the_maximum(front);
        assert forall|b: int| 0 <= b < sequences.len() implies (#[trigger] sequences[b])@.len()
            <= longest(sequences) by {
            if b < front.len() {
                assert(front[b] == sequences[b]);
            }
        }
        if sequences.last()@.len() > longest(front) || front.len() == 0 {
            assert(sequences[sequences.len() - 1]@.len() == longest(sequences));
        } else {
            let b = choose|b: int| 0 <= b < front.len() && (#[trigger] front[b])@.len() == longest(
                front,
            );
            assert(sequences[b]@.len() == longest(sequences));
        }
    }
}

/// The length of the longest sequence.
fn longest_length(sequences: &Vec<Vec<i64>>) -> (width: usize)
    ensures
        width == longest(sequences@),
{
    let mut width: usize = 0;
    let mut b: usize = 0;
    while b < sequences.len()
        invariant
            b <= sequences@.len(),
            width == longest(sequences@.take(b as int)),
        decreases sequences@.len() - b,
    {
        proof {
            assert(sequences@.take(b + 1).drop_last() =~= sequences@.take(b as int));
        }
        if sequences[b].len() > width {
            width = sequences[b].len();
        }
        b = b + 1;
    }
    proof {
        assert(sequences@.take(b as int) =~= sequences@);
    }
    width
}

/// Pads the sequences to the length of the longest and builds their mask.
/// Row `b` of the batch starts with sequence `b` and goes on with the padding
/// index; row `b` of the mask is `true` exactly on the tokens of sequence `b`.
pub fn pad_batch(sequences: &Vec<Vec<i64>>) -> (batch: PaddedBatch)
    ensures
        batch.token_ids@.len() == sequences@.len(),
        batch.attention_mask@.len() == sequences@.len(),
        forall|b: int|
            0 <= b < sequences@.len() ==> (#[trigger] batch.token_ids@[b])@ == padded(
                sequences@[b]@,
                longest(sequences@),
            ),
        forall|b: int|
            0 <= b < sequences@.len() ==> (#[trigger] batch.attention_mask@[b])@ == mask(
                sequences@[b]@.len(),
                longest(sequences@),
            ),
{
    let width: usize = longest_length(sequences);
    let mut token_ids: Vec<Vec<i64>> = Vec::new();
    let mut attention_mask: Vec<Vec<bool>> = Vec::new();
    let mut b: usize = 0;
    while b < sequences.len()
        invariant
            b <= sequences@.len(),
            width == longest(sequences@),
            token_ids@.len() == b,
            attention_mask@.len() == b,
            forall|n: int|
                0 <= n < b ==> (#[trigger] token_ids@[n])@ == padded(
                    sequences@[n]@,
                    width as nat,
                ),
            forall|n: int|
                0 <= n < b ==> (#[trigger] attention_mask@[n])@ == mask(
                    sequences@[n]@.len(),
                    width as nat,
                ),
        decreases sequences@.len() - b,
    {
        let sequence: &Vec<i64> = &sequences[b];
        let mut ids: Vec<i64> = Vec::new();
        let mut present: Vec<bool> = Vec::new();
        let mut t: usize = 0;
        while t < width
            invariant
                t <= width,
                ids@.len() == t,
                present@.len() == t,
                forall|m: int| 0 <= m < t ==> #[trigger] ids@[m] == padded(sequence@, width as nat)[m],
                forall|m: int|
                    0 <= m < t ==> #[trigger] present@[m] == mask(sequence@.len(), width as nat)[m],
            decreases width - t,
        {
            if t < sequence.len() {
                ids.push(sequence[t]);
                present.push(true);
            } else {
                ids.push(PADDING_INDEX as i64);
                present.push(false);
            }
            t = t + 1;
        }
        token_ids.push(ids);
        attention_mask.push(present);
        b = b + 1;
    }
    PaddedBatch { token_ids, attention_mask }
}

/// A padded batch is one that the embedding module takes: where the module
/// has a vocabulary, every id of the sequences is in it, and no sequence is
/// longer than the position table, the rows that `pad_batch` builds are
/// accepted.
pub proof fn lemma_padded_batch_is_accepted(
    module: DistilBertEmbedding,
    sequences: Seq<Vec<i64>>,
    rows: Seq<Vec<i64>>,
)
    requires
        module.word_embeddings.num_embeddings > 0,
        forall|b: int|
            0 <= b < sequences.len() ==> (#[trigger] sequences[b])@.len()
                <= module.position_embeddings.num_embeddings,
        forall|b: int, t: int|
            0 <= b < sequences.len() && 0 <= t < sequences[b]@.len() ==> 0
                <= #[trigger] sequences[b]@[t] < module.word_embeddings.num_embeddings,
        rows.len() == sequences.len(),
        forall|b: int|
            0 <= b < sequences.len() ==> (#[trigger] rows[b])@ == padded(
                sequences[b]@,
                longest(sequences),
            ),
    ensures
        module.accepts(rows),
        sequence_length(rows) == longest(sequences),
{
    lemma_longest_is_the_maximum(sequences);
    assert forall|b: int, t: int| 0 <= b < rows.len() && 0 <= t < rows[b]@.len() implies 0
        <= #[trigger] rows[b]@[t] < module.word_embeddings.num_embeddings by {
        // An entry of a row is an id of its sequence or the padding index.
        assert(rows[b]@ == padded(sequences[b]@, longest(sequences)));
        if t < sequences[b]@.len() {
            assert(rows[b]@[t] == sequences[b]@[t]);
        }
    }
    if rows.len() > 0 {
        assert(rows[0]@.len() == longest(sequences));
    }
}

} // verus!
