//! A lattice position.

use vstd::prelude::*;
use vstd::std_specs::cmp::PartialEqSpec;

verus! {

/// A position of the unbounded lattice: what a cell stands for.
pub struct Site {
    pub x: int,
    pub y: int,
}

/// One position of the lattice. Two cells with the same `x` and `y` are the
/// same cell.
#[derive(Debug, Copy, Clone)]
pub struct Cell {
    pub x: i32,
    pub y: i32,
}

impl Cell {
    /// Does nothing: a cell needs no set-up beyond its two coordinates.
    pub fn init(&self) {
    }
}

impl View for Cell {
    type V = Site;

    open spec fn view(&self) -> Site {
        Site { x: self.x as int, y: self.y as int }
    }
}

impl PartialEq for Cell {
    fn eq(&self, other: &Self) -> (same: bool) {
        self.x == other.x && self.y == other.y
    }
}

impl vstd::std_specs::cmp::PartialEqSpecImpl for Cell {
    open spec fn obeys_eq_spec() -> bool {
        true
    }

    open spec fn eq_spec(&self, other: &Self) -> bool {
        self.x == other.x && self.y == other.y
    }
}

/// `==` on cells is equality of both coordinates, and so it is the equality
/// of the values themselves: every cell equals itself, and the order of the
/// two sides does not matter.
pub proof fn lemma_cell_eq_exact(a: Cell, b: Cell)
    ensures
        a.eq_spec(&b) <==> (a.x == b.x && a.y == b.y),
        a.eq_spec(&b) <==> a == b,
        a.eq_spec(&b) <==> a@ == b@,
        a.eq_spec(&a),
        a.eq_spec(&b) == b.eq_spec(&a),
{
}

} // verus!
