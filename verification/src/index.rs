//! Grid dimensions and the linearization of 2d column and 3d cell
//! coordinates.
//!
//! A cell (x, y, z) has the linear index `x + y * 64 + z * 4096`; the column
//! holding it is identified by (y, z) with the linear index `y + z * 64`.
//! The x coordinate selects a bit inside the column's 64-bit mask words.

use vstd::prelude::*;

verus! {

/// Cells per axis.
pub const LEN: usize = 64;

/// Columns per chunk: one for each (y, z) pair.
pub const AREA: usize = 4096;

/// Cells per chunk.
pub const VOL: usize = 262144;

/// Linear index of the column (y, z).
pub open spec fn spec_i_2d(y: int, z: int) -> int {
    y + z * 64
}

/// Linear index of the cell (x, y, z).
pub open spec fn spec_i_3d(x: int, y: int, z: int) -> int {
    x + y * 64 + z * 4096
}

/// Linear index of the cell at bit `x` of column `i_2d`.
pub open spec fn spec_cell(i_2d: int, x: int) -> int {
    i_2d * 64 + x
}

/// The column a cell index belongs to.
pub open spec fn spec_word_of(c: int) -> int {
    c / 64
}

/// The bit position of a cell index inside its column word.
pub open spec fn spec_bit_of(c: int) -> int {
    c % 64
}

/// The y coordinate of a column index.
pub open spec fn spec_col_y(i_2d: int) -> int {
    i_2d % 64
}

/// The z coordinate of a column index.
pub open spec fn spec_col_z(i_2d: int) -> int {
    i_2d / 64
}

/// A column index that is not part of the solid border shell: its y and z
/// coordinates are both strictly inside the grid.
pub open spec fn interior_word(i_2d: int) -> bool {
    &&& 1 <= spec_col_y(i_2d) <= 62
    &&& 1 <= spec_col_z(i_2d) <= 62
}

/// A cell on the outermost shell of the grid.
pub open spec fn border_cell(c: int) -> bool {
    ||| spec_bit_of(c) == 0
    ||| spec_bit_of(c) == 63
    ||| !interior_word(spec_word_of(c))
}

/// A cell index decomposes uniquely into its column and bit position.
pub proof fn lemma_cell_decomp(c: int)
    requires
        0 <= c < VOL,
    ensures
        c == spec_word_of(c) * 64 + spec_bit_of(c),
        0 <= spec_bit_of(c) < 64,
        0 <= spec_word_of(c) < AREA,
{
}

/// Composing a column index with a bit position and splitting the result
/// again gives back the parts.
pub proof fn lemma_cell_compose(i_2d: int, x: int)
    requires
        0 <= i_2d < AREA,
        0 <= x < 64,
    ensures
        spec_word_of(spec_cell(i_2d, x)) == i_2d,
        spec_bit_of(spec_cell(i_2d, x)) == x,
        0 <= spec_cell(i_2d, x) < VOL,
{
    assert(spec_cell(i_2d, x) / 64 == i_2d && spec_cell(i_2d, x) % 64 == x) by (nonlinear_arith)
        requires
            0 <= i_2d < 4096,
            0 <= x < 64,
    ;
}

/// A column index decomposes uniquely into its y and z coordinates.
pub proof fn lemma_col_decomp(w: int)
    requires
        0 <= w < AREA,
    ensures
        w == spec_col_y(w) + spec_col_z(w) * 64,
        0 <= spec_col_y(w) < 64,
        0 <= spec_col_z(w) < 64,
{
}

/// Composing a column index from y and z and splitting it again gives back
/// the coordinates.
pub proof fn lemma_col_compose(y: int, z: int)
    requires
        0 <= y < 64,
        0 <= z < 64,
    ensures
        spec_col_y(y + z * 64) == y,
        spec_col_z(y + z * 64) == z,
        0 <= y + z * 64 < AREA,
{
    assert((y + z * 64) % 64 == y && (y + z * 64) / 64 == z) by (nonlinear_arith)
        requires
            0 <= y < 64,
            0 <= z < 64,
    ;
}

/// Linear index of the column (y, z).
pub fn i_2d(y: usize, z: usize) -> (r: usize)
    requires
        y < LEN,
        z < LEN,
    ensures
        r == spec_i_2d(y as int, z as int),
        r < AREA,
{
    y + z * 64
}

/// Linear index of the cell (x, y, z).
pub fn i_3d(x: usize, y: usize, z: usize) -> (r: usize)
    requires
        x < LEN,
        y < LEN,
        z < LEN,
    ensures
        r == spec_i_3d(x as int, y as int, z as int),
        r < VOL,
{
    x + y * 64 + z * 4096
}

/// Splits a cell index into the bit position along x and the column index.
pub fn x_and_i_2d(c: usize) -> (r: (usize, usize))
    requires
        c < VOL,
    ensures
        r.0 == spec_bit_of(c as int),
        r.1 == spec_word_of(c as int),
        r.0 < 64,
        r.1 < AREA,
{
    (c % 64, c / 64)
}

/// Linear cell index of bit `x` in column `i_2d`.
pub fn cell_index(i_2d: usize, x: usize) -> (r: usize)
    requires
        i_2d < AREA,
        x < 64,
    ensures
        r == spec_cell(i_2d as int, x as int),
        r < VOL,
{
    proof {
        lemma_cell_compose(i_2d as int, x as int);
    }
    i_2d * 64 + x
}

} // verus!
