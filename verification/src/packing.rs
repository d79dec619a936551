//! How many points a rectangle can hold while they keep their distance.

use crate::point::{closer_than, in_rectangle, Point};
use crate::proximity::{contained, separated};
use vstd::arithmetic::div_mod::{
    lemma_div_is_ordered, lemma_div_pos_is_pos, lemma_fundamental_div_mod,
    lemma_fundamental_div_mod_converse, lemma_mod_bound,
};
use vstd::prelude::*;
use vstd::set_lib::{lemma_int_range, lemma_len_subset, set_int_range};

verus! {

/// How many cells of side `cell` it takes to cover `[0, extent)`.
pub open spec fn cells(extent: int, cell: int) -> int {
    (extent + cell - 1) / cell
}

/// The number of the square cell of side `cell` that holds `point`, counting
/// row by row over a rectangle of the given width.
pub open spec fn cell_index(point: Point, width: int, cell: int) -> int {
    (point.x as int) / cell + ((point.y as int) / cell) * cells(width, cell)
}

/// Cells of side `cell` are small enough for `separation`: no two lattice
/// points of one cell are `separation` apart.
pub open spec fn cell_fits(cell: int, separation: int) -> bool {
    cell >= 1 && 2 * ((cell - 1) * (cell - 1)) < separation * separation
}

/// A number of points that no set of points of the rectangle exceeds while
/// they keep their distance: the number of cells of half the separation,
/// rounded up, that cover the rectangle. It is about four times the area
/// over the square of the separation.
pub open spec fn capacity(width: int, height: int, separation: int) -> int {
    cells(width, (separation + 1) / 2) * cells(height, (separation + 1) / 2)
}

/// A coordinate of `[0, extent)` falls into one of the `cells(extent, cell)`
/// cells.
proof fn lemma_cell_in_range(coordinate: int, extent: int, cell: int)
    requires
        0 <= coordinate < extent,
        cell >= 1,
    ensures
        0 <= coordinate / cell < cells(extent, cell),
{
    lemma_div_pos_is_pos(coordinate, cell);
    lemma_div_is_ordered(coordinate, extent - 1, cell);
    let q = (extent - 1) / cell;
    lemma_fundamental_div_mod(extent - 1, cell);
    lemma_mod_bound(extent - 1, cell);
    assert(extent - 1 + cell == (q + 1) * cell + (extent - 1) % cell) by (nonlinear_arith)
        requires
            extent - 1 == cell * q + (extent - 1) % cell,
    ;
    lemma_fundamental_div_mod_converse(extent - 1 + cell, cell, q + 1, (extent - 1) % cell);
}

/// Two coordinates of one cell differ by less than the cell's side.
proof fn lemma_same_cell_gap(a: int, b: int, cell: int)
    requires
        cell >= 1,
        a / cell == b / cell,
    ensures
        -(cell - 1) <= b - a <= cell - 1,
        (b - a) * (b - a) <= (cell - 1) * (cell - 1),
{
    lemma_fundamental_div_mod(a, cell);
    lemma_fundamental_div_mod(b, cell);
    lemma_mod_bound(a, cell);
    lemma_mod_bound(b, cell);
    let gap = b - a;
    let side = cell - 1;
    assert(gap * gap <= side * side) by (nonlinear_arith)
        requires
            -side <= gap <= side,
    ;
}

/// Two points of one fitting cell are closer than the separation.
pub proof fn lemma_same_cell_is_close(a: Point, b: Point, cell: int, separation: int)
    requires
        cell_fits(cell, separation),
        separation > 0,
        (a.x as int) / cell == (b.x as int) / cell,
        (a.y as int) / cell == (b.y as int) / cell,
    ensures
        closer_than(a, b, separation),
{
    lemma_same_cell_gap(a.x as int, b.x as int, cell);
    lemma_same_cell_gap(a.y as int, b.y as int, cell);
}

/// The cell number of a point of the rectangle is below the number of cells,
/// and tells the cell's column and row.
proof fn lemma_cell_index(point: Point, width: int, height: int, cell: int)
    requires
        in_rectangle(point, width, height),
        cell >= 1,
    ensures
        0 <= cell_index(point, width, cell) < cells(width, cell) * cells(height, cell),
        (point.x as int) / cell == cell_index(point, width, cell) % cells(width, cell),
        (point.y as int) / cell == cell_index(point, width, cell) / cells(width, cell),
{
    let columns = cells(width, cell);
    let rows = cells(height, cell);
    let column = (point.x as int) / cell;
    let row = (point.y as int) / cell;
    lemma_cell_in_range(point.x as int, width, cell);
    lemma_cell_in_range(point.y as int, height, cell);
    assert(0 <= column + row * columns < columns * rows) by (nonlinear_arith)
        requires
            0 <= column < columns,
            0 <= row < rows,
    ;
    lemma_fundamental_div_mod_converse(column + row * columns, columns, row, column);
}

/// No more points keep their distance in a rectangle than it has fitting
/// cells: each cell holds at most one of them.
pub proof fn lemma_packing_bound(
    points: Seq<Point>,
    width: int,
    height: int,
    separation: int,
    cell: int,
)
    requires
        separated(points, separation),
        contained(points, width, height),
        width > 0,
        height > 0,
        separation > 0,
        cell_fits(cell, separation),
    ensures
        points.len() <= cells(width, cell) * cells(height, cell),
{
    let total = cells(width, cell) * cells(height, cell);
    lemma_cell_in_range(0, width, cell);
    lemma_cell_in_range(0, height, cell);
    assert(total >= 1) by (nonlinear_arith)
        requires
            total == cells(width, cell) * cells(height, cell),
            cells(width, cell) >= 1,
            cells(height, cell) >= 1,
    ;
    let indices = Seq::new(points.len(), |i: int| cell_index(points[i], width, cell));
    assert forall|i: int, j: int|
        0 <= i < indices.len() && 0 <= j < indices.len() && i != j implies indices[i]
        != indices[j] by {
        lemma_cell_index(points[i], width, height, cell);
        lemma_cell_index(points[j], width, height, cell);
        if indices[i] == indices[j] {
            lemma_same_cell_is_close(points[i], points[j], cell, separation);
            assert(!closer_than(points[i], points[j], separation));
        }
    }
    indices.unique_seq_to_set();
    lemma_int_range(0, total);
    assert forall|index: int| indices.to_set().contains(index) implies set_int_range(
        0,
        total,
    ).contains(index) by {
        let i = choose|i: int| 0 <= i < indices.len() && indices[i] == index;
        lemma_cell_index(points[i], width, height, cell);
    }
    lemma_len_subset(indices.to_set(), set_int_range(0, total));
}

/// Cells of half the separation, rounded up, fit.
proof fn lemma_half_cell_fits(separation: int)
    requires
        separation > 0,
    ensures
        cell_fits((separation + 1) / 2, separation),
{
    let cell = (separation + 1) / 2;
    lemma_fundamental_div_mod(separation + 1, 2);
    lemma_mod_bound(separation + 1, 2);
    assert(2 * ((cell - 1) * (cell - 1)) < separation * separation) by (nonlinear_arith)
        requires
            separation > 0,
            0 <= 2 * (cell - 1) <= separation - 1,
    ;
}

/// Points of a rectangle that keep their distance are no more than the
/// rectangle's capacity.
pub proof fn lemma_capacity(points: Seq<Point>, width: int, height: int, separation: int)
    requires
        separated(points, separation),
        contained(points, width, height),
        width > 0,
        height > 0,
        separation > 0,
    ensures
        points.len() <= capacity(width, height, separation),
{
    lemma_half_cell_fits(separation);
    lemma_packing_bound(points, width, height, separation, (separation + 1) / 2);
}

} // verus!
