//! The embedding module of a DistilBERT encoder: its two tables, its layer
//! normalisation and its dropout, as a layout that the tensor code builds
//! from, and the integer part of a forward pass.
//!
//! A forward pass looks up a word vector for each token id and a position
//! vector for each position, adds them, normalises over the embedding
//! dimension and applies dropout. The lookups and the arithmetic run on
//! tensors. What is decided here is which inputs the module takes, which
//! position each token gets, which shape comes out, and whether dropout acts.

use vstd::prelude::*;
use crate::config::{DistilBertConfig, Scalar};
use crate::positional::{is_sinusoidal_table, sinusoidal_table, Sinusoid};

verus! {

/// The index whose vector stands for padding. Both tables reserve it.
pub const PADDING_INDEX: usize = 0;

/// Where the values of an embedding table come from.
#[derive(Clone, Debug, PartialEq, Eq)]
pub enum Weights {
    /// Loaded with the model's weights; trainable in principle.
    Learned,
    /// The fixed sinusoidal table, given entry by entry; never trained.
    Sinusoidal(Vec<Vec<Sinusoid>>),
}

/// An embedding table: a vector of `embedding_dim` reals for each index below
/// `num_embeddings`.
#[derive(Clone, Debug, PartialEq, Eq)]
pub struct Embedding {
    pub num_embeddings: usize,
    pub embedding_dim: usize,
    pub padding_idx: usize,
    pub weights: Weights,
}

/// Where the vector of one index of a table is to be had.
#[derive(Clone, Copy, Debug, PartialEq, Eq)]
pub enum Row<'a> {
    /// It is this row of the loaded weights.
    Stored(usize),
    /// It is the value of these entries, one for each column.
    Computed(&'a Vec<Sinusoid>),
}

impl Embedding {
    /// The table reserves the padding index, and a sinusoidal table has the
    /// table's own shape and the entries of the sinusoidal formula.
    pub open spec fn wf(&self) -> bool {
        &&& self.padding_idx == PADDING_INDEX
        &&& match self.weights {
            Weights::Learned => true,
            Weights::Sinusoidal(table) => is_sinusoidal_table(
                table@,
                self.num_embeddings as int,
                self.embedding_dim as int,
            ),
        }
    }

    /// Whether the table's values are fixed rather than learned.
    pub open spec fn is_frozen(&self) -> bool {
        self.weights is Sinusoidal
    }

    /// A table of `num_embeddings` rows whose values are loaded.
    pub fn learned(num_embeddings: usize, embedding_dim: usize) -> (table: Embedding)
        ensures
            table.num_embeddings == num_embeddings,
            table.embedding_dim == embedding_dim,
            table.padding_idx == PADDING_INDEX,
            table.weights is Learned,
            table.wf(),
    {
        Embedding {
            num_embeddings,
            embedding_dim,
            padding_idx: PADDING_INDEX,
            weights: Weights::Learned,
        }
    }

    /// Looks up the vector of `index`, whichever kind the table is of. There
    /// is none where the table has no such row.
    pub fn lookup(&self, index: usize) -> (row: Option<Row<'_>>)
        requires
            self.wf(),
        ensures
            row is Some <==> index < self.num_embeddings,
            index < self.num_embeddings ==> match self.weights {
                Weights::Learned => row == Some(Row::Stored(index)),
                Weights::Sinusoidal(table) => row == Some(Row::Computed(&table@[index as int])),
            },
    {
        if index >= self.num_embeddings {
            return None;
        }
        match &self.weights {
            Weights::Learned => Some(Row::Stored(index)),
            Weights::Sinusoidal(table) => Some(Row::Computed(&table[index])),
        }
    }

    /// Whether a tensor of the given shape can hold this table: it has two
    /// axes, the rows and the width of the table.
    pub fn matches_shape(&self, shape: &Vec<i64>) -> (fits: bool)
        ensures
            fits == (shape@.len() == 2 && shape@[0] == self.num_embeddings && shape@[1]
                == self.embedding_dim),
    {
        shape.len() == 2 && shape[0] >= 0 && shape[1] >= 0 && shape[0] as u64
            == self.num_embeddings as u64 && shape[1] as u64 == self.embedding_dim as u64
    }
}

/// The position table of the sinusoidal formula for the configured number of
/// positions and embedding dimension: frozen, with the padding index reserved.
pub fn create_sinusoidal_embeddings(config: &DistilBertConfig) -> (table: Embedding)
    ensures
        table.num_embeddings == config.max_position_embeddings,
        table.embedding_dim == config.dim,
        table.padding_idx == PADDING_INDEX,
        table.weights matches Weights::Sinusoidal(entries) && is_sinusoidal_table(
            entries@,
            config.max_position_embeddings as int,
            config.dim as int,
        ),
        table.wf(),
        table.is_frozen(),
{
    let entries = sinusoidal_table(config.max_position_embeddings, config.dim);
    Embedding {
        num_embeddings: config.max_position_embeddings,
        embedding_dim: config.dim,
        padding_idx: PADDING_INDEX,
        weights: Weights::Sinusoidal(entries),
    }
}

/// The layer normalisation over the last axis, of `normalized_shape` elements.
#[derive(Clone, Copy, Debug, PartialEq, Eq, Structural)]
pub struct LayerNorm {
    pub normalized_shape: usize,
    pub eps: Scalar,
}

/// Dropout with a fixed probability.
#[derive(Clone, Copy, Debug, PartialEq, Eq, Structural)]
pub struct Dropout {
    pub probability: Scalar,
}

/// What the dropout step of one forward pass does.
#[derive(Clone, Copy, Debug, PartialEq, Eq, Structural)]
pub enum DropoutMode {
    /// Inference: the step changes nothing.
    Identity,
    /// Training: each element is zeroed with this probability, independently,
    /// and the others are scaled up to keep the expected magnitude.
    Stochastic(Scalar),
}

/// The shape of the tensor that a forward pass returns.
#[derive(Clone, Copy, Debug, PartialEq, Eq, Structural)]
pub struct OutputShape {
    pub batch: usize,
    pub sequence_length: usize,
    pub dim: usize,
}

/// The integer part of one forward pass.
#[derive(Clone, Debug, PartialEq, Eq)]
pub struct ForwardPlan {
    /// For each token of the batch the row of the position table to add.
    pub position_ids: Vec<Vec<usize>>,
    /// The shape of the result.
    pub output_shape: OutputShape,
    /// What the dropout step does.
    pub dropout: DropoutMode,
}

/// The mathematical value of a [`ForwardPlan`].
pub struct ForwardPlanView {
    pub position_ids: Seq<Seq<usize>>,
    pub output_shape: OutputShape,
    pub dropout: DropoutMode,
}

impl DeepView for ForwardPlan {
    type V = ForwardPlanView;

    open spec fn deep_view(&self) -> ForwardPlanView {
        ForwardPlanView {
            position_ids: Seq::new(
                self.position_ids@.len(),
                |b: int| self.position_ids@[b]@,
            ),
            output_shape: self.output_shape,
            dropout: self.dropout,
        }
    }
}

/// The length of the sequences of a batch; zero for an empty batch.
pub open spec fn sequence_length(input: Seq<Vec<i64>>) -> nat {
    if input.len() == 0 {
        0
    } else {
        input[0]@.len()
    }
}

/// The position ids of a sequence of `length` tokens: `0, 1, .., length - 1`.
pub open spec fn positions(length: nat) -> Seq<usize> {
    Seq::new(length, |t: int| t as usize)
}

/// The embedding module of the encoder.
#[derive(Clone, Debug, PartialEq, Eq)]
pub struct DistilBertEmbedding {
    pub word_embeddings: Embedding,
    pub position_embeddings: Embedding,
    pub layer_norm: LayerNorm,
    pub dropout: Dropout,
}

impl DistilBertEmbedding {
    /// Both tables are well formed and of one width, which the layer
    /// normalisation covers, and the word table is learned.
    pub open spec fn wf(&self) -> bool {
        &&& self.word_embeddings.wf()
        &&& self.position_embeddings.wf()
        &&& self.word_embeddings.weights is Learned
        &&& self.position_embeddings.embedding_dim == self.word_embeddings.embedding_dim
        &&& self.layer_norm.normalized_shape == self.word_embeddings.embedding_dim
    }

    /// Whether the module was laid out for `config`.
    pub open spec fn is_for(&self, config: DistilBertConfig) -> bool {
        &&& self.wf()
        &&& self.word_embeddings.num_embeddings == config.vocab_size
        &&& self.word_embeddings.embedding_dim == config.dim
        &&& self.position_embeddings.num_embeddings == config.max_position_embeddings
        &&& self.position_embeddings.is_frozen() == config.sinusoidal_pos_embds
        &&& self.layer_norm.eps == config.layer_norm_eps
        &&& self.dropout.probability == config.dropout
    }

    /// Lays the module out for `config`: a learned word table of `vocab_size`
    /// rows, a position table of `max_position_embeddings` rows that is
    /// sinusoidal or learned as the configuration says, both `dim` wide, the
    /// layer normalisation over `dim` elements and the configured dropout.
    pub fn new(config: &DistilBertConfig) -> (module: DistilBertEmbedding)
        ensures
            module.is_for(*config),
    {
        let word_embeddings = Embedding::learned(config.vocab_size, config.dim);
        let position_embeddings = if config.sinusoidal_pos_embds {
            create_sinusoidal_embeddings(config)
        } else {
            Embedding::learned(config.max_position_embeddings, config.dim)
        };
        let layer_norm = LayerNorm { normalized_shape: config.dim, eps: config.layer_norm_eps };
        let dropout = Dropout { probability: config.dropout };
        DistilBertEmbedding { word_embeddings, position_embeddings, layer_norm, dropout }
    }

    /// The word table.
    pub fn word_embeddings(&self) -> (table: &Embedding)
        ensures
            *table == self.word_embeddings,
    {
        &self.word_embeddings
    }

    /// The module with another word table in place of its own. The new table
    /// must be a well-formed learned table of the module's width; where it is
    /// not, there is no such module.
    pub fn with_word_embeddings(self, new_embeddings: Embedding) -> (module: Option<
        DistilBertEmbedding,
    >)
        ensures
            module is Some <==> (new_embeddings.wf() && new_embeddings.weights is Learned
                && new_embeddings.embedding_dim == self.word_embeddings.embedding_dim),
            module matches Some(replaced) ==> {
                &&& self.wf() ==> replaced.wf()
                &&& replaced.word_embeddings == new_embeddings
                &&& replaced.position_embeddings == self.position_embeddings
                &&& replaced.layer_norm == self.layer_norm
                &&& replaced.dropout == self.dropout
            },
    {
        let learned = match &new_embeddings.weights {
            Weights::Learned => true,
            Weights::Sinusoidal(_) => false,
        };
        if learned && new_embeddings.padding_idx == PADDING_INDEX && new_embeddings.embedding_dim
            == self.word_embeddings.embedding_dim {
            Some(
                DistilBertEmbedding {
                    word_embeddings: new_embeddings,
                    position_embeddings: self.position_embeddings,
                    layer_norm: self.layer_norm,
                    dropout: self.dropout,
                },
            )
        } else {
            None
        }
    }

    /// Whether the module takes `input` as a batch of token ids: all sequences
    /// have one length, which the position table covers, and every id is an
    /// index of the word table.
    pub open spec fn accepts(&self, input: Seq<Vec<i64>>) -> bool {
        &&& forall|b: int|
            0 <= b < input.len() ==> (#[trigger] input[b])@.len() == sequence_length(input)
        &&& sequence_length(input) <= self.position_embeddings.num_embeddings
        &&& forall|b: int, t: int|
            0 <= b < input.len() && 0 <= t < input[b]@.len() ==> 0 <= #[trigger] input[b]@[t]
                < self.word_embeddings.num_embeddings
    }

    /// Decides whether the module takes `input`.
    pub fn accepts_input(&self, input: &Vec<Vec<i64>>) -> (accepted: bool)
        ensures
            accepted == self.accepts(input@),
    {
        if input.len() == 0 {
            return true;
        }
        let length: usize = input[0].len();
        if length > self.position_embeddings.num_embeddings {
            return false;
        }
        let vocabulary: usize = self.word_embeddings.num_embeddings;
        let mut b: usize = 0;
        while b < input.len()
            invariant
                b <= input@.len(),
                input@.len() > 0,
                length == sequence_length(input@),
                length <= self.position_embeddings.num_embeddings,
                vocabulary == self.word_embeddings.num_embeddings,
                forall|n: int| 0 <= n < b ==> (#[trigger] input@[n])@.len() == length,
                forall|n: int, t: int|
                    0 <= n < b && 0 <= t < input@[n]@.len() ==> 0 <= #[trigger] input@[n]@[t]
                        < vocabulary,
            decreases input@.len() - b,
        {
            let row: &Vec<i64> = &input[b];
            if row.len() != length {
                return false;
            }
            let mut t: usize = 0;
            while t < row.len()
                invariant
                    t <= row@.len(),
                    b < input@.len(),
                    *row == input@[b as int],
                    vocabulary == self.word_embeddings.num_embeddings,
                    forall|m: int| 0 <= m < t ==> 0 <= #[trigger] row@[m] < vocabulary,
                decreases row@.len() - t,
            {
                let id: i64 = row[t];
                if id < 0 || id as u64 >= vocabulary as u64 {
                    return false;
                }
                t = t + 1;
            }
            b = b + 1;
        }
        true
    }

    /// The plan of a forward pass over `input`: the positions `0, 1, ..` for
    /// every sequence of the batch, the same for each; one vector of the
    /// embedding dimension for each token; dropout only while training.
    pub open spec fn planned(&self, input: Seq<Vec<i64>>, train: bool) -> ForwardPlanView {
        ForwardPlanView {
            position_ids: Seq::new(input.len(), |b: int| positions(sequence_length(input))),
            output_shape: OutputShape {
                batch: input.len() as usize,
                sequence_length: sequence_length(input) as usize,
                dim: self.word_embeddings.embedding_dim,
            },
            dropout: if train {
                DropoutMode::Stochastic(self.dropout.probability)
            } else {
                DropoutMode::Identity
            },
        }
    }

    /// The integer part of a forward pass over `input`.
    ///
    /// Every sequence of the batch gets the positions `0, 1, ..` in order,
    /// the same for each sequence. The result has one vector of the embedding
    /// dimension for each token. Dropout acts only while training.
    pub fn forward_t(&self, input: &Vec<Vec<i64>>, train: bool) -> (plan: ForwardPlan)
        requires
            self.accepts(input@),
        ensures
            plan.deep_view() == self.planned(input@, train),
            plan.position_ids@.len() == input@.len(),
            forall|b: int|
                0 <= b < input@.len() ==> (#[trigger] plan.position_ids@[b])@ == positions(
                    sequence_length(input@),
                ),
            plan.output_shape == (OutputShape {
                batch: input@.len() as usize,
                sequence_length: sequence_length(input@) as usize,
                dim: self.word_embeddings.embedding_dim,
            }),
            plan.dropout == (if train {
                DropoutMode::Stochastic(self.dropout.probability)
            } else {
                DropoutMode::Identity
            }),
    {
        let batch: usize = input.len();
        let length: usize = if batch == 0 {
            0
        } else {
            input[0].len()
        };
        let mut position_ids: Vec<Vec<usize>> = Vec::new();
        let mut b: usize = 0;
        while b < batch
            invariant
                b <= batch,
                position_ids@.len() == b,
                forall|n: int|
                    0 <= n < b ==> (#[trigger] position_ids@[n])@ == positions(length as nat),
            decreases batch - b,
        {
            let mut row: Vec<usize> = Vec::new();
            let mut t: usize = 0;
            while t < length
                invariant
                    t <= length,
                    row@.len() == t,
                    forall|m: int| 0 <= m < t ==> #[trigger] row@[m] == m,
                decreases length - t,
            {
                row.push(t);
                t = t + 1;
            }
            position_ids.push(row);
            b = b + 1;
        }
        let dropout = if train {
            DropoutMode::Stochastic(self.dropout.probability)
        } else {
            DropoutMode::Identity
        };
        let plan = ForwardPlan {
            position_ids,
            output_shape: OutputShape {
                batch,
                sequence_length: length,
                dim: self.word_embeddings.embedding_dim,
            },
            dropout,
        };
        assert(plan.deep_view().position_ids =~= self.planned(input@, train).position_ids);
        plan
    }

    /// A forward pass in inference mode leaves nothing to chance: its dropout
    /// step is the identity, and two plans that `forward_t` may return for the
    /// same input are the same plan.
    pub proof fn lemma_inference_is_repeatable(
        &self,
        input: Seq<Vec<i64>>,
        first: ForwardPlanView,
        second: ForwardPlanView,
    )
        requires
            first == self.planned(input, false),
            second == self.planned(input, false),
        ensures
            first == second,
            first.dropout == DropoutMode::Identity,
    {
    }
}

} // verus!
