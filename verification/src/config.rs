//! The model's configuration and the errors of a wrong configuration.

use vstd::prelude::*;

verus! {

/// A real number carried by the bit pattern of its IEEE-754 double.
///
/// Verified code passes such a value on and never computes with it; the
/// tensor code that receives it reads the bits back as a double.
#[derive(Clone, Copy, Debug, PartialEq, Eq, Structural)]
pub struct Scalar {
    pub bits: u64,
}

/// The bit pattern of `1e-12`, the epsilon of the layer normalisation where
/// none is configured.
pub const DEFAULT_LAYER_NORM_EPS_BITS: u64 = 0x3d71_9799_812d_ea11;

/// What a caller got wrong before any computation ran.
#[derive(Clone, Copy, Debug, PartialEq, Eq, Structural)]
pub enum ConfigError {
    /// The number of answers asked for is not positive.
    NonPositiveTopK(i64),
    /// The longest answer allowed is not positive.
    NonPositiveMaxAnswerLength(i64),
    /// The model has no vocabulary, no embedding dimension or no positions.
    DegenerateModel { vocab_size: usize, dim: usize, max_position_embeddings: usize },
}

/// The dimensions and options of a DistilBERT model. Read-only once built.
#[derive(Clone, Copy, Debug, PartialEq, Eq, Structural)]
pub struct DistilBertConfig {
    /// How many token ids the vocabulary has.
    pub vocab_size: usize,
    /// The width of every embedding vector.
    pub dim: usize,
    /// How many positions a sequence may have.
    pub max_position_embeddings: usize,
    /// Whether the position table is the fixed sinusoidal one; else it is learned.
    pub sinusoidal_pos_embds: bool,
    /// The probability with which dropout zeroes an element while training.
    pub dropout: Scalar,
    /// The epsilon that the layer normalisation adds to the variance.
    pub layer_norm_eps: Scalar,
}

impl DistilBertConfig {
    /// Whether the model has an empty vocabulary, zero-width embeddings or
    /// no positions. No pipeline runs on such a model.
    pub open spec fn is_degenerate(&self) -> bool {
        self.vocab_size == 0 || self.dim == 0 || self.max_position_embeddings == 0
    }

    /// The configuration with the given dimensions, options and the default
    /// epsilon.
    pub fn new(
        vocab_size: usize,
        dim: usize,
        max_position_embeddings: usize,
        sinusoidal_pos_embds: bool,
        dropout: Scalar,
    ) -> (config: DistilBertConfig)
        ensures
            config == (DistilBertConfig {
                vocab_size,
                dim,
                max_position_embeddings,
                sinusoidal_pos_embds,
                dropout,
                layer_norm_eps: Scalar { bits: DEFAULT_LAYER_NORM_EPS_BITS },
            }),
    {
        DistilBertConfig {
            vocab_size,
            dim,
            max_position_embeddings,
            sinusoidal_pos_embds,
            dropout,
            layer_norm_eps: Scalar { bits: DEFAULT_LAYER_NORM_EPS_BITS },
        }
    }

    /// Accepts every configuration but a degenerate one, which it reports
    /// with the three sizes.
    pub fn validate(&self) -> (checked: Result<(), ConfigError>)
        ensures
            !self.is_degenerate() ==> checked == Ok::<(), ConfigError>(()),
            self.is_degenerate() ==> checked == Err::<(), ConfigError>(
                ConfigError::DegenerateModel {
                    vocab_size: self.vocab_size,
                    dim: self.dim,
                    max_position_embeddings: self.max_position_embeddings,
                },
            ),
    {
        if self.vocab_size == 0 || self.dim == 0 || self.max_position_embeddings == 0 {
            Err(
                ConfigError::DegenerateModel {
                    vocab_size: self.vocab_size,
                    dim: self.dim,
                    max_position_embeddings: self.max_position_embeddings,
                },
            )
        } else {
            Ok(())
        }
    }
}

} // verus!
