use distilbert_qa::batch::{pad_batch, PaddedBatch};
use distilbert_qa::config::{ConfigError, DistilBertConfig, Scalar, DEFAULT_LAYER_NORM_EPS_BITS};
use distilbert_qa::embeddings::{
    create_sinusoidal_embeddings, DistilBertEmbedding, Dropout, DropoutMode, Embedding, LayerNorm,
    OutputShape, Row, Weights,
};
use distilbert_qa::positional::{sinusoidal_row, sinusoidal_table};

fn dropout() -> Scalar {
    Scalar { bits: 0.1f64.to_bits() }
}

fn config(sinusoidal: bool) -> DistilBertConfig {
    DistilBertConfig::new(30522, 768, 512, sinusoidal, dropout())
}

fn small(sinusoidal: bool) -> DistilBertConfig {
    DistilBertConfig::new(10, 4, 6, sinusoidal, dropout())
}

#[test]
fn the_default_epsilon_is_ten_to_the_minus_twelve() {
    assert_eq!(f64::from_bits(DEFAULT_LAYER_NORM_EPS_BITS), 1e-12);
    assert_eq!(config(false).layer_norm_eps, Scalar { bits: 1e-12f64.to_bits() });
}

#[test]
fn a_configuration_keeps_what_it_was_given() {
    let config = config(true);
    assert_eq!(config.vocab_size, 30522);
    assert_eq!(config.dim, 768);
    assert_eq!(config.max_position_embeddings, 512);
    assert!(config.sinusoidal_pos_embds);
    assert_eq!(f64::from_bits(config.dropout.bits), 0.1);
}

#[test]
fn a_model_with_all_three_sizes_is_accepted() {
    assert_eq!(config(true).validate(), Ok(()));
    assert_eq!(DistilBertConfig::new(1, 1, 1, false, dropout()).validate(), Ok(()));
}

#[test]
fn a_degenerate_model_is_reported_with_its_sizes() {
    for (vocab_size, dim, max_position_embeddings) in
        [(0usize, 4usize, 6usize), (10, 0, 6), (10, 4, 0), (0, 0, 0)]
    {
        let config =
            DistilBertConfig::new(vocab_size, dim, max_position_embeddings, true, dropout());
        assert_eq!(
            config.validate(),
            Err(ConfigError::DegenerateModel { vocab_size, dim, max_position_embeddings })
        );
    }
}

#[test]
fn the_module_with_learned_positions() {
    let module = DistilBertEmbedding::new(&small(false));
    assert_eq!(
        module,
        DistilBertEmbedding {
            word_embeddings: Embedding {
                num_embeddings: 10,
                embedding_dim: 4,
                padding_idx: 0,
                weights: Weights::Learned,
            },
            position_embeddings: Embedding {
                num_embeddings: 6,
                embedding_dim: 4,
                padding_idx: 0,
                weights: Weights::Learned,
            },
            layer_norm: LayerNorm { normalized_shape: 4, eps: Scalar { bits: 1e-12f64.to_bits() } },
            dropout: Dropout { probability: dropout() },
        }
    );
}

#[test]
fn the_module_with_sinusoidal_positions() {
    let module = DistilBertEmbedding::new(&small(true));
    assert_eq!(module.word_embeddings, Embedding::learned(10, 4));
    assert_eq!(module.word_embeddings(), &Embedding::learned(10, 4));
    assert_eq!(
        module.position_embeddings,
        Embedding {
            num_embeddings: 6,
            embedding_dim: 4,
            padding_idx: 0,
            weights: Weights::Sinusoidal(sinusoidal_table(6, 4)),
        }
    );
    assert_eq!(module.layer_norm.normalized_shape, 4);
}

#[test]
fn the_full_size_module_has_the_configured_shapes() {
    let module = DistilBertEmbedding::new(&config(true));
    assert!(module.word_embeddings.matches_shape(&vec![30522, 768]));
    assert!(module.position_embeddings.matches_shape(&vec![512, 768]));
    match &module.position_embeddings.weights {
        Weights::Sinusoidal(table) => {
            assert_eq!(table.len(), 512);
            assert!(table.iter().all(|row| row.len() == 768));
        }
        Weights::Learned => panic!("the position table is sinusoidal"),
    }
}

#[test]
fn a_table_matches_only_its_own_shape() {
    let table = Embedding::learned(10, 4);
    assert!(table.matches_shape(&vec![10, 4]));
    assert!(!table.matches_shape(&vec![4, 10]));
    assert!(!table.matches_shape(&vec![10]));
    assert!(!table.matches_shape(&vec![10, 4, 1]));
    assert!(!table.matches_shape(&vec![-10, 4]));
    assert!(!table.matches_shape(&vec![10, -4]));
    assert!(!table.matches_shape(&Vec::new()));
    assert!(Embedding::learned(0, 0).matches_shape(&vec![0, 0]));
}

#[test]
fn the_word_table_can_be_replaced_by_one_of_the_same_width() {
    let module = DistilBertEmbedding::new(&small(true));
    let replaced = module.clone().with_word_embeddings(Embedding::learned(25, 4)).unwrap();
    assert_eq!(replaced.word_embeddings, Embedding::learned(25, 4));
    assert_eq!(replaced.position_embeddings, module.position_embeddings);
    assert_eq!(replaced.layer_norm, module.layer_norm);
    assert_eq!(replaced.dropout, module.dropout);
    assert!(replaced.accepts_input(&vec![vec![24]]));
    assert!(!module.accepts_input(&vec![vec![24]]));
}

#[test]
fn the_word_table_cannot_be_replaced_by_one_that_does_not_fit() {
    let module = DistilBertEmbedding::new(&small(false));
    assert_eq!(module.clone().with_word_embeddings(Embedding::learned(10, 5)), None);
    let with_other_padding = Embedding {
        num_embeddings: 10,
        embedding_dim: 4,
        padding_idx: 1,
        weights: Weights::Learned,
    };
    assert_eq!(module.clone().with_word_embeddings(with_other_padding), None);
    let frozen = Embedding {
        num_embeddings: 6,
        embedding_dim: 4,
        padding_idx: 0,
        weights: Weights::Sinusoidal(sinusoidal_table(6, 4)),
    };
    assert_eq!(module.with_word_embeddings(frozen), None);
}

#[test]
fn the_module_takes_a_rectangular_batch_of_known_ids() {
    let module = DistilBertEmbedding::new(&small(true));
    assert!(module.accepts_input(&vec![vec![0, 9, 3], vec![1, 2, 0]]));
    assert!(module.accepts_input(&vec![vec![1, 2, 3, 4, 5, 6]]));
    assert!(module.accepts_input(&Vec::new()));
    assert!(module.accepts_input(&vec![Vec::new(), Vec::new()]));
}

#[test]
fn the_module_refuses_what_it_cannot_embed() {
    let module = DistilBertEmbedding::new(&small(true));
    // An id past the vocabulary, a negative id, a ragged batch, too many positions.
    assert!(!module.accepts_input(&vec![vec![0, 10]]));
    assert!(!module.accepts_input(&vec![vec![0, 1], vec![-1, 1]]));
    assert!(!module.accepts_input(&vec![vec![0, 1], vec![1]]));
    assert!(!module.accepts_input(&vec![vec![0], vec![1, 2]]));
    assert!(!module.accepts_input(&vec![vec![0, 1, 2, 3, 4, 5, 6]]));
    assert!(!module.accepts_input(&vec![vec![i64::MIN]]));
    assert!(!module.accepts_input(&vec![vec![i64::MAX]]));
}

#[test]
fn every_sequence_gets_the_same_positions() {
    let module = DistilBertEmbedding::new(&small(true));
    let plan = module.forward_t(&vec![vec![5, 6, 7], vec![1, 0, 0]], false);
    assert_eq!(plan.position_ids, vec![vec![0, 1, 2], vec![0, 1, 2]]);
}

#[test]
fn the_output_has_one_vector_for_each_token() {
    let module = DistilBertEmbedding::new(&small(false));
    let plan = module.forward_t(&vec![vec![5, 6, 7, 8], vec![1, 0, 0, 0], vec![9, 9, 9, 9]], true);
    assert_eq!(plan.output_shape, OutputShape { batch: 3, sequence_length: 4, dim: 4 });
    let empty = module.forward_t(&Vec::new(), false);
    assert_eq!(empty.output_shape, OutputShape { batch: 0, sequence_length: 0, dim: 4 });
    assert!(empty.position_ids.is_empty());
    let no_tokens = module.forward_t(&vec![Vec::new()], false);
    assert_eq!(no_tokens.output_shape, OutputShape { batch: 1, sequence_length: 0, dim: 4 });
    assert_eq!(no_tokens.position_ids, vec![Vec::<usize>::new()]);
}

#[test]
fn dropout_acts_only_while_training() {
    let module = DistilBertEmbedding::new(&small(true));
    let input = vec![vec![1, 2]];
    assert_eq!(module.forward_t(&input, false).dropout, DropoutMode::Identity);
    assert_eq!(module.forward_t(&input, true).dropout, DropoutMode::Stochastic(dropout()));
}

#[test]
fn inference_gives_the_same_plan_each_time() {
    let module = DistilBertEmbedding::new(&small(true));
    let input = vec![vec![1, 2, 3], vec![4, 5, 6]];
    assert_eq!(module.forward_t(&input, false), module.forward_t(&input, false));
}

#[test]
fn sequences_are_padded_to_the_longest() {
    let batch = pad_batch(&vec![vec![101, 7, 102], vec![101, 102], vec![101, 7, 8, 9, 102]]);
    assert_eq!(
        batch,
        PaddedBatch {
            token_ids: vec![
                vec![101, 7, 102, 0, 0],
                vec![101, 102, 0, 0, 0],
                vec![101, 7, 8, 9, 102],
            ],
            attention_mask: vec![
                vec![true, true, true, false, false],
                vec![true, true, false, false, false],
                vec![true, true, true, true, true],
            ],
        }
    );
}

#[test]
fn padding_leaves_equal_lengths_alone() {
    let batch = pad_batch(&vec![vec![3, 4], vec![5, 6]]);
    assert_eq!(batch.token_ids, vec![vec![3, 4], vec![5, 6]]);
    assert_eq!(batch.attention_mask, vec![vec![true, true], vec![true, true]]);
}

#[test]
fn padding_an_empty_batch_or_empty_sequences() {
    let none = pad_batch(&Vec::new());
    assert!(none.token_ids.is_empty());
    assert!(none.attention_mask.is_empty());
    let empty = pad_batch(&vec![Vec::new(), Vec::new()]);
    assert_eq!(empty.token_ids, vec![Vec::<i64>::new(), Vec::new()]);
    let mixed = pad_batch(&vec![Vec::new(), vec![4]]);
    assert_eq!(mixed.token_ids, vec![vec![0], vec![4]]);
    assert_eq!(mixed.attention_mask, vec![vec![false], vec![true]]);
}

#[test]
fn a_padded_batch_of_known_ids_is_accepted() {
    let module = DistilBertEmbedding::new(&small(true));
    let batch = pad_batch(&vec![vec![1, 2, 3, 4, 5, 6], vec![9], Vec::new()]);
    assert!(module.accepts_input(&batch.token_ids));
    let plan = module.forward_t(&batch.token_ids, false);
    assert_eq!(plan.output_shape, OutputShape { batch: 3, sequence_length: 6, dim: 4 });
    let too_long = pad_batch(&vec![vec![1; 7], vec![2]]);
    assert!(!module.accepts_input(&too_long.token_ids));
}

#[test]
fn a_learned_table_is_looked_up_in_its_weights() {
    let table = Embedding::learned(10, 4);
    assert_eq!(table.lookup(0), Some(Row::Stored(0)));
    assert_eq!(table.lookup(9), Some(Row::Stored(9)));
    assert_eq!(table.lookup(10), None);
    assert_eq!(table.lookup(usize::MAX), None);
}

#[test]
fn a_sinusoidal_table_is_looked_up_in_its_entries() {
    let table = create_sinusoidal_embeddings(&small(true));
    assert_eq!(table.lookup(3), Some(Row::Computed(&sinusoidal_row(3, 4))));
    assert_eq!(table.lookup(0), Some(Row::Computed(&sinusoidal_row(0, 4))));
    assert_eq!(table.lookup(5), Some(Row::Computed(&sinusoidal_row(5, 4))));
    assert_eq!(table.lookup(6), None);
}

#[test]
fn an_empty_table_has_no_row() {
    assert_eq!(Embedding::learned(0, 4).lookup(0), None);
    let no_positions =
        create_sinusoidal_embeddings(&DistilBertConfig::new(10, 4, 0, true, dropout()));
    assert_eq!(no_positions.lookup(0), None);
}
