//! A grid of text cells, laid out by `term_grid`.
//!
//! The grid is `term_grid`'s own: cells go in one by one, and the crate lays
//! them out in columns, each as wide as its widest cell by the measure of
//! `unicode-width`. What the grid holds and what it writes are named here.

use term_grid::{Cell, Direction, Filling, Grid, GridOptions};
use vstd::prelude::*;

verus! {

/// `term_grid::Grid`, held as it is: nothing is known of a grid but what
/// the names below say.
#[verifier::external_type_specification]
#[verifier::external_body]
pub struct ExGrid(term_grid::Grid);

/// The texts of the cells that the grid holds, in the order they went in.
pub uninterp spec fn grid_cells(grid: Grid) -> Seq<Seq<char>>;

/// How many spaces the grid puts between two columns.
pub uninterp spec fn grid_gap(grid: Grid) -> usize;

/// What `term_grid` writes for cells that fill the rows from left to right,
/// in `columns` columns with `gap` spaces between them.
pub uninterp spec fn grid_text(cells: Seq<Seq<char>>, gap: usize, columns: usize) -> Seq<char>;

/// Calls `Grid::new` for a grid that is filled row by row, with `gap` spaces
/// between its columns. The grid starts without cells. The gap is kept
/// small, since `term_grid` adds it to the width of a column without a check.
#[verifier::external_body]
pub(crate) fn grid_new(gap: usize) -> (grid: Grid)
    requires
        gap <= 0xffff,
    ensures
        grid_cells(grid) == Seq::<Seq<char>>::empty(),
        grid_gap(grid) == gap,
{
    Grid::new(GridOptions { filling: Filling::Spaces(gap), direction: Direction::LeftToRight })
}

/// Calls `Grid::add` with the cell that `Cell::from` makes of `text`: the
/// text goes behind the cells that are there, and the gap stays. The grid
/// sums the widths of its cells; a cell is no wider than its text is long in
/// bytes, so the sum stays below what memory can hold.
#[verifier::external_body]
pub(crate) fn grid_add(grid: &mut Grid, text: String)
    ensures
        grid_cells(*final(grid)) == grid_cells(*old(grid)).push(text@),
        grid_gap(*final(grid)) == grid_gap(*old(grid)),
{
    grid.add(Cell::from(text))
}

/// Calls `Grid::fit_into_columns` and writes what it returns. The text
/// depends on the cells, the gap and the number of columns alone. With no
/// column `term_grid` divides by zero, so one is asked for.
#[verifier::external_body]
pub(crate) fn grid_fit(grid: &Grid, columns: usize) -> (text: String)
    requires
        columns > 0,
    ensures
        text@ == grid_text(grid_cells(*grid), grid_gap(*grid), columns),
{
    format!("{}", grid.fit_into_columns(columns))
}

} // verus!
