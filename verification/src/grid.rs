//! The cell grid that partitions the world of a zone.
//!
//! The world is a square of `DIMENSION_LENGTH` units per side, cut into square
//! cells of `CELL_SIZE` units. A cell has integer coordinates (x, y), with the
//! world origin in the middle of the grid, and an index `y * width + x`.

use vstd::prelude::*;

verus! {

/// The length of a side of the world, in world units.
pub const DIMENSION_LENGTH: u32 = 131072;
/// The length of a side of a cell, in world units.
pub const CELL_SIZE: u32 = 16;
/// Half the side of a cell.
pub const HALF_CELL_SIZE: u32 = 8;
/// The number of cells along a side of the world.
pub const DIMENSION_CELL_LENGTH: u32 = 8192;
/// Half the number of cells along a side: the cell coordinate of the origin.
pub const HALF_DIMENSION_CELL_LENGTH: u32 = 4096;

/// Integer coordinates of a cell.
#[derive(Debug, Clone, Copy, PartialEq, Eq, Structural)]
pub struct CellCoords {
    pub x: u32,
    pub y: u32,
}

/// The index of the cell at `c`.
pub open spec fn spec_index(c: CellCoords) -> int {
    DIMENSION_CELL_LENGTH * c.y + c.x
}

/// Whether the index of the cell at `c` fits in 32 bits.
pub open spec fn index_fits(c: CellCoords) -> bool {
    spec_index(c) <= u32::MAX
}

/// The index of the cell at integer coordinates `coords`.
pub fn get_index_at_int_coords(coords: CellCoords) -> (i: u32)
    requires
        index_fits(coords),
    ensures
        i == spec_index(coords),
{
    DIMENSION_CELL_LENGTH * coords.y + coords.x
}

/// The integer coordinates of the cell with index `index`.
pub fn get_int_coords_at_index(index: u32) -> (c: CellCoords)
    ensures
        c.x == index % DIMENSION_CELL_LENGTH,
        c.y == index / DIMENSION_CELL_LENGTH,
        c.x < DIMENSION_CELL_LENGTH,
        spec_index(c) == index,
{
    CellCoords { x: index % DIMENSION_CELL_LENGTH, y: index / DIMENSION_CELL_LENGTH }
}

/// The cell coordinate along one axis of a world position whose value,
/// converted to an unsigned integer, is `truncated` (negative positions
/// convert to zero).
pub fn get_int_coord(truncated: u32) -> (c: u32)
    ensures
        c == truncated / CELL_SIZE + HALF_DIMENSION_CELL_LENGTH,
{
    truncated / CELL_SIZE + HALF_DIMENSION_CELL_LENGTH
}

/// Coordinates in the middle of the grid keep their index, and distinct
/// coordinates with `x` inside the grid have distinct indices.
pub proof fn lemma_index_coords_roundtrip(c: CellCoords, d: CellCoords)
    requires
        c.x < DIMENSION_CELL_LENGTH,
        d.x < DIMENSION_CELL_LENGTH,
    ensures
        spec_index(c) % (DIMENSION_CELL_LENGTH as int) == c.x,
        spec_index(c) / (DIMENSION_CELL_LENGTH as int) == c.y,
        spec_index(c) == spec_index(d) ==> c == d,
{
}

/// The lowest index whose eight neighbours all have indices in 32 bits.
pub open spec fn has_neighbours(index: u32) -> bool {
    DIMENSION_CELL_LENGTH + 1 <= index && index + DIMENSION_CELL_LENGTH + 1 <= u32::MAX
}

/// The indices of a cell and its eight neighbours: the cell, below, above,
/// right, left, then the four diagonals.
pub open spec fn spec_surrounding(index: u32) -> Seq<u32> {
    let w = DIMENSION_CELL_LENGTH as int;
    let i = index as int;
    seq![
        i as u32,
        (i - w) as u32,
        (i + w) as u32,
        (i + 1) as u32,
        (i - 1) as u32,
        (i - w + 1) as u32,
        (i - w - 1) as u32,
        (i + w + 1) as u32,
        (i + w - 1) as u32,
    ]
}

/// The indices of the cell `index` and of its eight neighbours.
pub fn get_cell_and_surrounding_indicies(index: u32) -> (v: Vec<u32>)
    requires
        has_neighbours(index),
    ensures
        v@ == spec_surrounding(index),
{
    let mut v: Vec<u32> = Vec::with_capacity(9);
    v.push(index);
    v.push(index - DIMENSION_CELL_LENGTH);
    v.push(index + DIMENSION_CELL_LENGTH);
    v.push(index + 1);
    v.push(index - 1);
    v.push((index - DIMENSION_CELL_LENGTH) + 1);
    v.push((index - DIMENSION_CELL_LENGTH) - 1);
    v.push((index + DIMENSION_CELL_LENGTH) + 1);
    v.push((index + DIMENSION_CELL_LENGTH) - 1);
    assert(v@ =~= spec_surrounding(index));
    v
}

} // verus!
