//! Trusted interface to the `array2d` crate, which stores the board's cells.

use crate::piece::Piece;
use vstd::prelude::*;

verus! {

#[verifier::external_type_specification]
#[verifier::external_body]
#[verifier::reject_recursive_types(T)]
pub struct ExArray2D<T>(array2d::Array2D<T>);

/// The cells of a grid of optional pieces: a map from (row, column) to the
/// cell's content, whose domain is exactly the in-range index pairs.
pub uninterp spec fn grid_cells(a: array2d::Array2D<Option<Piece>>) -> Map<(int, int), Option<Piece>>;

/// The cells of a num_rows x num_columns grid holding `element` everywhere.
pub open spec fn filled_cells(element: Option<Piece>, num_rows: int, num_columns: int) -> Map<
    (int, int),
    Option<Piece>,
> {
    Map::new(|p: (int, int)| 0 <= p.0 < num_rows && 0 <= p.1 < num_columns, |p: (int, int)| element)
}

/// Relies on array2d::Array2D::filled_with: builds a num_rows x num_columns
/// grid holding a clone of `element` in every cell.
#[verifier::external_body]
pub(crate) fn grid_filled(element: Option<Piece>, num_rows: usize, num_columns: usize) -> (r:
    array2d::Array2D<Option<Piece>>)
    requires
        num_rows <= 8,
        num_columns <= 8,
    ensures
        grid_cells(r) == filled_cells(element, num_rows as int, num_columns as int),
{
    array2d::Array2D::filled_with(element, num_rows, num_columns)
}

/// Relies on array2d::Array2D::get: returns the cell at (row, column), which
/// is present whenever the indices are in range.
#[verifier::external_body]
pub(crate) fn grid_get(a: &array2d::Array2D<Option<Piece>>, row: usize, column: usize) -> (r:
    Option<Piece>)
    requires
        grid_cells(*a).dom().contains((row as int, column as int)),
    ensures
        r == grid_cells(*a)[(row as int, column as int)],
{
    match a.get(row, column) {
        Some(cell) => *cell,
        None => None,
    }
}

/// Relies on array2d::Array2D::set: replaces the cell at (row, column);
/// in-range indices always succeed.
#[verifier::external_body]
pub(crate) fn grid_set(
    a: &mut array2d::Array2D<Option<Piece>>,
    row: usize,
    column: usize,
    element: Option<Piece>,
)
    requires
        grid_cells(*old(a)).dom().contains((row as int, column as int)),
    ensures
        grid_cells(*final(a)) == grid_cells(*old(a)).insert(
            (row as int, column as int),
            element,
        ),
{
    let _ = a.set(row, column, element);
}

} // verus!
