//! The fixed sinusoidal position table, entry by entry.
//!
//! The entry for position `pos` and column `j` of a table of width `dim` is
//! `sin(pos / 10000^(2 * floor(j / 2) / dim))` where `j` is even and the cosine
//! of the same angle where `j` is odd. This module decides, in integers, which
//! wave, which position and which exponent each entry has. Evaluating the
//! entry in floating point is left to the code that builds the tensor.

use vstd::prelude::*;

verus! {

/// The base of the geometric progression of wavelengths.
pub const WAVELENGTH_BASE: u64 = 10000;

/// The two waves that alternate over the columns of the table.
#[derive(Clone, Copy, Debug, PartialEq, Eq, Structural)]
pub enum Wave {
    Sine,
    Cosine,
}

/// One entry of the table: it stands for
/// `wave(position / WAVELENGTH_BASE^(exponent_numerator / exponent_denominator))`.
#[derive(Clone, Copy, Debug, PartialEq, Eq, Structural)]
pub struct Sinusoid {
    pub wave: Wave,
    pub position: usize,
    pub exponent_numerator: usize,
    pub exponent_denominator: usize,
}

/// The entry for `position` and `column` in a table of width `dim`: a sine in
/// the even columns, a cosine in the odd ones, both of a column pair with the
/// exponent `2 * floor(column / 2) / dim`.
pub open spec fn sinusoid_at(position: int, column: int, dim: int) -> Sinusoid {
    Sinusoid {
        wave: if column % 2 == 0 {
            Wave::Sine
        } else {
            Wave::Cosine
        },
        position: position as usize,
        exponent_numerator: (2 * (column / 2)) as usize,
        exponent_denominator: dim as usize,
    }
}

/// Whether `table` is the sinusoidal table of `positions` rows and `dim`
/// columns.
pub open spec fn is_sinusoidal_table(table: Seq<Vec<Sinusoid>>, positions: int, dim: int) -> bool {
    &&& table.len() == positions
    &&& forall|pos: int| 0 <= pos < table.len() ==> (#[trigger] table[pos])@.len() == dim
    &&& forall|pos: int, j: int|
        0 <= pos < table.len() && 0 <= j < table[pos]@.len() ==> #[trigger] table[pos]@[j]
            == sinusoid_at(pos, j, dim)
}

/// The entry for `position` and `column` in a table of width `dim`.
pub fn sinusoid(position: usize, column: usize, dim: usize) -> (entry: Sinusoid)
    ensures
        entry == sinusoid_at(position as int, column as int, dim as int),
{
    let wave = if column % 2 == 0 {
        Wave::Sine
    } else {
        Wave::Cosine
    };
    Sinusoid {
        wave,
        position,
        exponent_numerator: 2 * (column / 2),
        exponent_denominator: dim,
    }
}

/// One row of the table: the entries of `position` for the columns `0..dim`.
pub fn sinusoidal_row(position: usize, dim: usize) -> (row: Vec<Sinusoid>)
    ensures
        row@.len() == dim,
        forall|j: int|
            0 <= j < dim ==> #[trigger] row@[j] == sinusoid_at(position as int, j, dim as int),
{
    let mut row: Vec<Sinusoid> = Vec::new();
    let mut column: usize = 0;
    while column < dim
        invariant
            column <= dim,
            row@.len() == column,
            forall|j: int|
                0 <= j < column ==> #[trigger] row@[j] == sinusoid_at(
                    position as int,
                    j,
                    dim as int,
                ),
        decreases dim - column,
    {
        row.push(sinusoid(position, column, dim));
        column = column + 1;
    }
    row
}

/// The whole table: `positions` rows of `dim` entries. It is empty where
/// `positions` is zero and has empty rows where `dim` is zero.
pub fn sinusoidal_table(positions: usize, dim: usize) -> (table: Vec<Vec<Sinusoid>>)
    ensures
        is_sinusoidal_table(table@, positions as int, dim as int),
{
    let mut table: Vec<Vec<Sinusoid>> = Vec::new();
    let mut position: usize = 0;
    while position < positions
        invariant
            position <= positions,
            is_sinusoidal_table(table@, position as int, dim as int),
        decreases positions - position,
    {
        let row = sinusoidal_row(position, dim);
        table.push(row);
        position = position + 1;
    }
    table
}

/// In the row of position zero every angle is zero: the row alternates
/// `sin(0)` and `cos(0)`, whatever the table's width.
pub proof fn lemma_first_row_has_angle_zero(column: int, dim: int)
    requires
        0 <= column < dim,
    ensures
        sinusoid_at(0, column, dim).position == 0,
        sinusoid_at(0, column, dim).wave == (if column % 2 == 0 {
            Wave::Sine
        } else {
            Wave::Cosine
        }),
{
}

/// The two columns of a pair share their exponent: column `2 * pair` holds the
/// sine and column `2 * pair + 1` the cosine of the same angle.
pub proof fn lemma_column_pairs_share_exponent(position: int, pair: int, dim: int)
    requires
        0 <= pair,
        2 * pair + 1 < dim,
        dim <= usize::MAX,
    ensures
        sinusoid_at(position, 2 * pair, dim).wave == Wave::Sine,
        sinusoid_at(position, 2 * pair + 1, dim).wave == Wave::Cosine,
        sinusoid_at(position, 2 * pair, dim).exponent_numerator == 2 * pair,
        sinusoid_at(position, 2 * pair + 1, dim).exponent_numerator == 2 * pair,
{
}

} // verus!
