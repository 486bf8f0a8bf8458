//! The leakage model: what each key hypothesis predicts for each trace.
//!
//! The device is taken to leak the Hamming weight of the substituted byte
//! `SBOX[plain ^ key]`. For each of the sixteen byte positions and each of
//! the 256 values that the key byte may have, the model holds that weight
//! for every encrypted block.

use crate::parallel::par_collect;
use crate::sbox::{hamming_weight, lemma_ones_bound, ones, substitute, substituted};
use crate::tensor::{at_least_one, Cube, Matrix};
use vstd::prelude::*;

verus! {

/// The number of byte positions in a block.
pub const BLOCK_BYTES: usize = 16;

/// The number of values that a key byte may have.
pub const HYPOTHESES: usize = 256;

/// Why a clear text has no leakage model.
#[derive(Clone, Copy, Debug, PartialEq, Eq)]
pub enum LeakageError {
    /// The clear text has `actual` columns, not sixteen.
    ColumnCount { actual: usize },
    /// The cell at `row` and `column`, the first such cell in reading
    /// order, holds `value`, which is no byte.
    ByteRange { row: usize, column: usize, value: i32 },
    /// The clear text has `rows` rows, more than a model can hold.
    TooManyRows { rows: usize },
}

/// What the device leaks when it substitutes `plain ^ key`.
pub open spec fn leak(plain: u8, key: u8) -> int {
    ones(substituted(plain ^ key) as nat) as int
}

/// A leak is a number from zero to eight.
pub proof fn lemma_leak_range(plain: u8, key: u8)
    ensures
        0 <= leak(plain, key) <= 8,
{
    vstd::arithmetic::power2::lemma2_to64();
    lemma_ones_bound(substituted(plain ^ key) as nat, 8);
}

/// Whether `v` is a byte.
pub open spec fn is_byte(v: i32) -> bool {
    0 <= v <= 255
}

/// Whether the cell `[i, j]` comes before the cell `[row, col]` in reading
/// order.
pub open spec fn reads_before(i: int, j: int, row: int, col: int) -> bool {
    i < row || (i == row && j < col)
}

/// Whether every cell of `m` is a byte.
pub open spec fn all_bytes(m: Matrix) -> bool {
    forall|i: int, j: int|
        0 <= i < m.shape().0 && 0 <= j < m.shape().1 ==> is_byte(#[trigger] m.at(i, j))
}

/// Whether `[row, col]` is the first cell of `m`, in reading order, that
/// is no byte.
pub open spec fn first_stray(m: Matrix, row: int, col: int) -> bool {
    &&& 0 <= row < m.shape().0
    &&& 0 <= col < m.shape().1
    &&& !is_byte(m.at(row, col))
    &&& forall|i: int, j: int|
        0 <= i < m.shape().0 && 0 <= j < m.shape().1 && reads_before(i, j, row, col) ==> is_byte(
            #[trigger] m.at(i, j),
        )
}

/// Whether a model of `rows` traces can be stored.
pub open spec fn model_fits(rows: int) -> bool {
    BLOCK_BYTES * HYPOTHESES * at_least_one(rows) <= isize::MAX
}

/// Whether `model` is the leakage model of `clear_text`: at `[b, k, t]` it
/// holds what block `t` leaks at position `b` under the key byte `k`.
pub open spec fn is_model_of(model: Cube, clear_text: Matrix) -> bool {
    &&& model.shape() == (BLOCK_BYTES as nat, HYPOTHESES as nat, clear_text.shape().0)
    &&& forall|b: int, k: int, t: int|
        0 <= b < BLOCK_BYTES && 0 <= k < HYPOTHESES && 0 <= t < clear_text.shape().0
            ==> #[trigger] model.at(b, k, t) == leak(clear_text.at(t, b) as u8, k as u8)
}

/// Looks for the first cell, in reading order, that is no byte.
fn find_stray(clear_text: &Matrix) -> (r: Option<(usize, usize, i32)>)
    ensures
        r is None <==> all_bytes(*clear_text),
        r matches Some((row, col, value)) ==> first_stray(*clear_text, row as int, col as int)
            && value == clear_text.at(row as int, col as int),
{
    let (rows, cols) = clear_text.dim();
    let mut i: usize = 0;
    while i < rows
        invariant
            clear_text.shape() == (rows as nat, cols as nat),
            i <= rows,
            forall|p: int, q: int|
                0 <= p < i && 0 <= q < cols ==> is_byte(#[trigger] clear_text.at(p, q)),
        decreases rows - i,
    {
        let mut j: usize = 0;
        while j < cols
            invariant
                clear_text.shape() == (rows as nat, cols as nat),
                i < rows,
                j <= cols,
                forall|p: int, q: int|
                    0 <= p < i && 0 <= q < cols ==> is_byte(#[trigger] clear_text.at(p, q)),
                forall|q: int| 0 <= q < j ==> is_byte(#[trigger] clear_text.at(i as int, q)),
            decreases cols - j,
        {
            let value: i32 = match clear_text.get(i, j) {
                Some(v) => v,
                None => 0,
            };
            if value < 0 || value > 255 {
                return Some((i, j, value));
            }
            j += 1;
        }
        i += 1;
    }
    None
}

/// Copies out column `b` of a clear text whose cells are bytes.
fn column_bytes(clear_text: &Matrix, b: usize) -> (r: Vec<u8>)
    requires
        all_bytes(*clear_text),
        b < clear_text.shape().1,
    ensures
        r@.len() == clear_text.shape().0,
        forall|t: int| 0 <= t < r@.len() ==> r@[t] == clear_text.at(t, b as int) as u8,
{
    let (rows, _) = clear_text.dim();
    let mut out: Vec<u8> = Vec::with_capacity(rows);
    let mut t: usize = 0;
    while t < rows
        invariant
            all_bytes(*clear_text),
            b < clear_text.shape().1,
            rows == clear_text.shape().0,
            t <= rows,
            out@.len() == t,
            forall|q: int| 0 <= q < t ==> out@[q] == clear_text.at(q, b as int) as u8,
        decreases rows - t,
    {
        let value: i32 = match clear_text.get(t, b) {
            Some(v) => v,
            None => 0,
        };
        assert(is_byte(clear_text.at(t as int, b as int)));
        out.push(value as u8);
        t += 1;
    }
    out
}

/// What a column of plain bytes leaks under the key byte `key`.
fn leak_lane(column: &Vec<u8>, key: u8) -> (r: Vec<i16>)
    ensures
        r@.len() == column@.len(),
        forall|t: int| 0 <= t < r@.len() ==> r@[t] == leak(column@[t], key),
{
    let n: usize = column.len();
    let mut out: Vec<i16> = Vec::with_capacity(n);
    let mut t: usize = 0;
    while t < n
        invariant
            n == column@.len(),
            t <= n,
            out@.len() == t,
            forall|q: int| 0 <= q < t ==> out@[q] == leak(column@[q], key),
        decreases n - t,
    {
        let weight: u8 = hamming_weight(substitute(column[t] ^ key));
        out.push(weight as i16);
        t += 1;
    }
    out
}

/// Builds the leakage model of a clear text of sixteen-byte blocks, one
/// block to a row.
pub fn calculate_hamming_weights(clear_text: &Matrix) -> (r: Result<Cube, LeakageError>)
    ensures
        r is Ok <==> clear_text.shape().1 == BLOCK_BYTES && all_bytes(*clear_text) && model_fits(
            clear_text.shape().0 as int,
        ),
        match r {
            Ok(model) => {
                &&& clear_text.shape().1 == BLOCK_BYTES
                &&& all_bytes(*clear_text)
                &&& model_fits(clear_text.shape().0 as int)
                &&& is_model_of(model, *clear_text)
            },
            Err(LeakageError::ColumnCount { actual }) => {
                &&& actual == clear_text.shape().1
                &&& actual != BLOCK_BYTES
            },
            Err(LeakageError::ByteRange { row, column, value }) => {
                &&& clear_text.shape().1 == BLOCK_BYTES
                &&& first_stray(*clear_text, row as int, column as int)
                &&& value == clear_text.at(row as int, column as int)
            },
            Err(LeakageError::TooManyRows { rows }) => {
                &&& clear_text.shape().1 == BLOCK_BYTES
                &&& all_bytes(*clear_text)
                &&& rows == clear_text.shape().0
                &&& !model_fits(rows as int)
            },
        },
{
    let (rows, cols) = clear_text.dim();
    if cols != BLOCK_BYTES {
        return Err(LeakageError::ColumnCount { actual: cols });
    }
    match find_stray(clear_text) {
        Some((row, column, value)) => {
            return Err(LeakageError::ByteRange { row, column, value });
        },
        None => {},
    }
    if rows > (isize::MAX as usize) / (BLOCK_BYTES * HYPOTHESES) {
        return Err(LeakageError::TooManyRows { rows });
    }
    let mut columns: Vec<Vec<u8>> = Vec::with_capacity(BLOCK_BYTES);
    let mut b: usize = 0;
    while b < BLOCK_BYTES
        invariant
            all_bytes(*clear_text),
            clear_text.shape() == (rows as nat, BLOCK_BYTES as nat),
            b <= BLOCK_BYTES,
            columns@.len() == b,
            forall|p: int|
                0 <= p < b ==> (#[trigger] columns@[p])@.len() == rows && forall|t: int|
                    0 <= t < rows ==> columns@[p]@[t] == clear_text.at(t, p) as u8,
        decreases BLOCK_BYTES - b,
    {
        columns.push(column_bytes(clear_text, b));
        b += 1;
    }
    let one = |l: usize| -> (lane: Vec<i16>)
        requires
            l < BLOCK_BYTES * HYPOTHESES,
            columns@.len() == BLOCK_BYTES,
        ensures
            lane@.len() == columns@[l as int / 256]@.len(),
            forall|t: int|
                0 <= t < lane@.len() ==> lane@[t] == leak(
                    columns@[l as int / 256]@[t],
                    (l as int % 256) as u8,
                ),
        {
            let position: usize = l / HYPOTHESES;
            let key: usize = l % HYPOTHESES;
            leak_lane(&columns[position], key as u8)
        };
    let lanes = par_collect(BLOCK_BYTES * HYPOTHESES, one);
    assert forall|l: int| 0 <= l < lanes@.len() implies (#[trigger] lanes@[l])@.len() == rows by {
        assert(call_ensures(one, (l as usize,), lanes@[l]));
    }
    match Cube::from_lanes(BLOCK_BYTES, HYPOTHESES, rows, &lanes) {
        Ok(model) => {
            proof {
                assert forall|p: int, k: int, t: int|
                    0 <= p < BLOCK_BYTES && 0 <= k < HYPOTHESES && 0 <= t
                        < rows implies #[trigger] model.at(p, k, t) == leak(
                    clear_text.at(t, p) as u8,
                    k as u8,
                ) by {
                    let l = p * 256 + k;
                    assert(call_ensures(one, (l as usize,), lanes@[l]));
                    assert(model.lane(p, k) == lanes@[l]@);
                    assert(model.lane(p, k)[t] == model.at(p, k, t));
                }
            }
            Ok(model)
        },
        Err(_) => Err(LeakageError::TooManyRows { rows }),
    }
}

} // verus!
