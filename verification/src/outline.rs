//! The outline of a live cell: a unit square around it, cut into two
//! triangles.
//!
//! A vertex names its cell and the corner of the cell's square where it lies.
//! Where the corner falls on the screen depends on the camera, and is for the
//! caller to compute.

use vstd::prelude::*;
use crate::cell::Cell;

verus! {

/// One corner of the unit square around `cell`: on the square's right side
/// if `right`, else on its left; on its upper side if `upper`, else on its
/// lower.
#[derive(Debug, Copy, Clone, PartialEq)]
pub struct Vertex {
    pub cell: Cell,
    pub right: bool,
    pub upper: bool,
}

/// The six vertices of the two triangles that cover the square of `cell`:
/// lower left, upper left, upper right; then upper right, lower right, lower
/// left.
pub open spec fn quad(cell: Cell) -> Seq<Vertex> {
    seq![
        Vertex { cell, right: false, upper: false },
        Vertex { cell, right: false, upper: true },
        Vertex { cell, right: true, upper: true },
        Vertex { cell, right: true, upper: true },
        Vertex { cell, right: true, upper: false },
        Vertex { cell, right: false, upper: false },
    ]
}

/// The vertices of all cells, cell by cell in the order of `cells`. A cell
/// that occurs twice gets its six vertices twice.
pub open spec fn quads(cells: Seq<Cell>) -> Seq<Vertex> {
    Seq::new(6 * cells.len(), |k: int| quad(cells[k / 6])[k % 6])
}

/// Every cell has six vertices, all its own: the vertex of index `k` lies on
/// the cell of index `k / 6`, at the corner that `k % 6` picks from the two
/// triangles.
pub proof fn lemma_quads_layout(cells: Seq<Cell>, k: int)
    requires
        0 <= k < 6 * cells.len(),
    ensures
        quads(cells).len() == 6 * cells.len(),
        quads(cells)[k] == quad(cells[k / 6])[k % 6],
        quads(cells)[k].cell == cells[k / 6],
{
}

/// A world without cells has no vertices.
pub proof fn lemma_quads_empty()
    ensures
        quads(Seq::empty()) == Seq::<Vertex>::empty(),
{
    assert(quads(Seq::empty()) =~= Seq::<Vertex>::empty());
}

} // verus!
