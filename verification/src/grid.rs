use vstd::prelude::*;

use crate::Cell;

verus! {

#[verifier::external_type_specification]
#[verifier::external_body]
#[verifier::reject_recursive_types(T)]
pub struct ExArray2D<T>(array2d::Array2D<T>);

/// The contents of a grid of cells, row by row: the element at row `r`
/// and column `c` sits at position `r * grid_columns + c`.
pub uninterp spec fn grid_cells(a: array2d::Array2D<Cell>) -> Seq<Cell>;

/// The number of rows the grid was built with.
pub uninterp spec fn grid_rows(a: array2d::Array2D<Cell>) -> nat;

/// The number of columns the grid was built with.
pub uninterp spec fn grid_columns(a: array2d::Array2D<Cell>) -> nat;

/// Relies on array2d::Array2D::filled_with: it builds a grid of the given
/// dimensions whose row-major backing vector holds `num_rows * num_columns`
/// clones of the given element (`Cell` is `Copy`, so a clone is the value
/// itself).
#[verifier::external_body]
pub(crate) fn grid_filled_with(element: Cell, num_rows: usize, num_columns: usize) -> (a:
    array2d::Array2D<Cell>)
    requires
        num_rows * num_columns <= usize::MAX,
    ensures
        grid_rows(a) == num_rows,
        grid_columns(a) == num_columns,
        grid_cells(a).len() == num_rows * num_columns,
        forall|i: int| 0 <= i < grid_cells(a).len() ==> grid_cells(a)[i] == element,
{
    array2d::Array2D::filled_with(element, num_rows, num_columns)
}

/// Relies on array2d::Array2D's Index impl: for in-bounds indices it
/// returns the element at `(row, column)`, which lives at position
/// `row * num_columns + column` of the row-major backing vector.
#[verifier::external_body]
pub(crate) fn grid_get(a: &array2d::Array2D<Cell>, row: usize, column: usize) -> (c: Cell)
    requires
        row < grid_rows(*a),
        column < grid_columns(*a),
    ensures
        c == grid_cells(*a)[row as int * grid_columns(*a) as int + column as int],
{
    a[(row, column)]
}

/// Relies on array2d::Array2D's IndexMut impl: for in-bounds indices it
/// replaces the element at `(row, column)`, that is, position
/// `row * num_columns + column` of the row-major backing vector, and
/// leaves the dimensions unchanged.
#[verifier::external_body]
pub(crate) fn grid_set(a: &mut array2d::Array2D<Cell>, row: usize, column: usize, element: Cell)
    requires
        row < grid_rows(*old(a)),
        column < grid_columns(*old(a)),
    ensures
        grid_rows(*final(a)) == grid_rows(*old(a)),
        grid_columns(*final(a)) == grid_columns(*old(a)),
        grid_cells(*final(a)) == grid_cells(*old(a)).update(
            row as int * grid_columns(*old(a)) as int + column as int,
            element,
        ),
{
    a[(row, column)] = element;
}

} // verus!
