//! The world: the list of live cells, and the step from one generation to
//! the next.

use vstd::prelude::*;
use crate::cell::{Cell, Site};
use crate::outline::{quads, Vertex};
use crate::random::RandomSource;
use crate::life::{
    candidates, keeps, lemma_next_generation_distinct, lemma_with_new_concat, neighbor_count,
    neighborhood, neighborhoods, next_generation, touching, with_new,
};

verus! {

/// The sites that a list of cells stands for, in the same order.
pub open spec fn sites(cells: Seq<Cell>) -> Seq<Site> {
    cells.map_values(|cell: Cell| cell@)
}

/// A cell is in a list exactly if its site is among the list's sites.
pub proof fn lemma_sites_contains(cells: Seq<Cell>, cell: Cell)
    ensures
        sites(cells).contains(cell@) <==> cells.contains(cell),
{
    if cells.contains(cell) {
        let i = choose|i: int| 0 <= i < cells.len() && cells[i] == cell;
        assert(sites(cells)[i] == cell@);
    }
    if sites(cells).contains(cell@) {
        let i = choose|i: int| 0 <= i < sites(cells).len() && sites(cells)[i] == cell@;
        assert(cells[i]@ == cell@);
        assert(cells[i] == cell);
    }
}

/// A cell that has all its eight neighbours among the cells: neither
/// coordinate is the least or the greatest that a cell can hold.
pub open spec fn has_room(cell: Cell) -> bool {
    i32::MIN < cell.x < i32::MAX && i32::MIN < cell.y < i32::MAX
}

/// Both coordinates of `cell` lie in the closed range from `-bound` to
/// `bound`.
pub open spec fn in_square(cell: Cell, bound: int) -> bool {
    -bound <= cell.x <= bound && -bound <= cell.y <= bound
}

/// The world in which every site has moved one to the right.
pub open spec fn moved_right(live: Seq<Site>) -> Seq<Site> {
    live.map_values(|site: Site| Site { x: site.x + 1, y: site.y })
}

/// Why a world could not be set up.
#[derive(Debug, Copy, Clone, PartialEq, Eq, Structural)]
pub enum WorldError {
    /// The bound of the square to seed is beyond the greatest coordinate.
    InvalidParameter,
}

/// The live cells, in order. A cell may occur more than once.
pub struct World {
    pub cells: Vec<Cell>,
}

impl View for World {
    type V = Seq<Site>;

    open spec fn view(&self) -> Seq<Site> {
        sites(self.cells@)
    }
}

/// Whether `cell` occurs in `cells`.
fn holds(cells: &Vec<Cell>, cell: Cell) -> (found: bool)
    ensures
        found == cells@.contains(cell),
        found == sites(cells@).contains(cell@),
{
    let mut i: usize = 0;
    while i < cells.len()
        invariant
            i <= cells.len(),
            forall|j: int| 0 <= j < i ==> cells@[j] != cell,
        decreases cells.len() - i,
    {
        if cells[i].x == cell.x && cells[i].y == cell.y {
            proof {
                assert(cells@[i as int] == cell);
                lemma_sites_contains(cells@, cell);
            }
            return true;
        }
        i += 1;
    }
    proof {
        lemma_sites_contains(cells@, cell);
    }
    false
}

/// Appends to `seen` those of the nine cells around `cell` that it does not
/// hold yet.
fn add_neighborhood(seen: &mut Vec<Cell>, cell: Cell)
    requires
        has_room(cell),
    ensures
        sites(final(seen)@) == with_new(sites(old(seen)@), neighborhood(cell@)),
{
    let ghost around = neighborhood(cell@);
    let mut k: i32 = 0;
    while k < 9
        invariant
            0 <= k <= 9,
            has_room(cell),
            around == neighborhood(cell@),
            sites(seen@) == with_new(sites(old(seen)@), around.take(k as int)),
        decreases 9 - k,
    {
        let near = Cell { x: cell.x - 1 + k / 3, y: cell.y - 1 + k % 3 };
        assert(near@ == around[k as int]);
        assert(around.take(k + 1).drop_last() =~= around.take(k as int));
        if !holds(seen, near) {
            seen.push(near);
            assert(sites(seen@) =~= with_new(sites(old(seen)@), around.take(k as int)).push(
                near@,
            ));
        }
        k += 1;
    }
    assert(around.take(9) =~= around);
}

/// The number of entries of `cells` that are adjacent to `cell`.
fn count_neighbors(cells: &Vec<Cell>, cell: Cell) -> (count: usize)
    ensures
        count == neighbor_count(sites(cells@), cell@),
{
    let ghost live = sites(cells@);
    let ghost near = touching(cell@);
    let mut count: usize = 0;
    let mut i: usize = 0;
    while i < cells.len()
        invariant
            i <= cells.len(),
            live == sites(cells@),
            near == touching(cell@),
            count == live.take(i as int).filter(near).len(),
            count <= i,
        decreases cells.len() - i,
    {
        let other = cells[i];
        let dx: i64 = cell.x as i64 - other.x as i64;
        let dy: i64 = cell.y as i64 - other.y as i64;
        proof {
            assert(live.take(i + 1) =~= live.take(i as int).push(other@));
            live.take(i as int).lemma_filter_push(other@, near);
        }
        if -1 <= dx && dx <= 1 && -1 <= dy && dy <= 1 && !(dx == 0 && dy == 0) {
            count += 1;
        }
        i += 1;
    }
    assert(live.take(cells.len() as int) =~= live);
    count
}

impl World {
    /// Every cell of the world has room for its neighbours.
    pub open spec fn has_room(&self) -> bool {
        forall|i: int| 0 <= i < self.cells@.len() ==> has_room(#[trigger] self.cells@[i])
    }

    /// Whether every cell of the world has room for its neighbours.
    pub fn can_process(&self) -> (ok: bool)
        ensures
            ok == self.has_room(),
    {
        let mut i: usize = 0;
        while i < self.cells.len()
            invariant
                i <= self.cells.len(),
                forall|j: int| 0 <= j < i ==> has_room(#[trigger] self.cells@[j]),
            decreases self.cells.len() - i,
        {
            let cell = self.cells[i];
            if cell.x == i32::MIN || cell.x == i32::MAX || cell.y == i32::MIN || cell.y
                == i32::MAX {
                assert(!has_room(self.cells@[i as int]));
                return false;
            }
            i += 1;
        }
        true
    }

    /// Replaces all live cells by `_cells`.
    pub fn set_cells(&mut self, _cells: Vec<Cell>)
        ensures
            final(self).cells == _cells,
    {
        self.cells = _cells;
    }

    /// Whether `cell` is alive. A cell that occurs several times is alive
    /// like one that occurs once.
    pub fn contains(&self, cell: &Cell) -> (found: bool)
        ensures
            found == self.cells@.contains(*cell),
            found == self@.contains(cell@),
    {
        holds(&self.cells, *cell)
    }

    /// Replaces the world by `amount_of_cells` cells whose coordinates are
    /// drawn from `-bounds..=bounds`, first `x`, then `y`, cell after cell.
    /// The same cell may be drawn more than once, and is then kept as often.
    ///
    /// A bound beyond the greatest coordinate is refused, and the world stays
    /// as it was.
    pub fn init_random<R: RandomSource>(
        &mut self,
        bounds: u32,
        amount_of_cells: u32,
        source: &mut R,
    ) -> (outcome: Result<(), WorldError>)
        ensures
            bounds > i32::MAX ==> outcome == Err::<(), WorldError>(WorldError::InvalidParameter)
                && *final(self) == *old(self),
            bounds <= i32::MAX ==> outcome.is_ok() && final(self).cells@.len() == amount_of_cells
                && forall|i: int|
                0 <= i < amount_of_cells ==> in_square(
                    #[trigger] final(self).cells@[i],
                    bounds as int,
                ),
    {
        if bounds > 0x7fff_ffff {
            return Err(WorldError::InvalidParameter);
        }
        let bound: i32 = bounds as i32;
        let mut new_cells: Vec<Cell> = Vec::new();
        let mut made: u32 = 0;
        while made < amount_of_cells
            invariant
                made <= amount_of_cells,
                0 <= bound == bounds,
                new_cells@.len() == made,
                forall|i: int| 0 <= i < made ==> in_square(#[trigger] new_cells@[i], bound as int),
            decreases amount_of_cells - made,
        {
            let rnd_x = source.random_i32(-bound, bound);
            let rnd_y = source.random_i32(-bound, bound);
            new_cells.push(Cell { x: rnd_x, y: rnd_y });
            made += 1;
        }
        self.set_cells(new_cells);
        Ok(())
    }

    /// Moves every cell one to the right.
    pub fn process_old(&mut self)
        requires
            forall|i: int| 0 <= i < old(self).cells@.len() ==> old(self).cells@[i].x < i32::MAX,
        ensures
            final(self)@ == moved_right(old(self)@),
    {
        let mut i: usize = 0;
        while i < self.cells.len()
            invariant
                i <= self.cells.len(),
                self.cells@.len() == old(self).cells@.len(),
                forall|j: int| 0 <= j < old(self).cells@.len() ==> old(self).cells@[j].x < i32::MAX,
                forall|j: int| i <= j < self.cells@.len() ==> self.cells@[j] == old(self).cells@[j],
                forall|j: int|
                    0 <= j < i ==> #[trigger] self.cells@[j]@ == (Site {
                        x: old(self).cells@[j].x + 1,
                        y: old(self).cells@[j].y as int,
                    }),
            decreases self.cells.len() - i,
        {
            let cell = self.cells[i];
            self.cells.set(i, Cell { x: cell.x + 1, y: cell.y });
            i += 1;
        }
        assert(self@ =~= moved_right(old(self)@));
    }

    /// The outline of every live cell, as the six vertices of two triangles,
    /// cell by cell in the order of the world.
    pub fn get_vec_vertices(&self) -> (vertices: Vec<Vertex>)
        ensures
            vertices@ == quads(self.cells@),
            vertices@.len() == 6 * self.cells@.len(),
    {
        let mut vertices: Vec<Vertex> = Vec::new();
        let mut i: usize = 0;
        while i < self.cells.len()
            invariant
                i <= self.cells.len(),
                vertices@ == quads(self.cells@.take(i as int)),
            decreases self.cells.len() - i,
        {
            let cell = self.cells[i];
            vertices.push(Vertex { cell, right: false, upper: false });
            vertices.push(Vertex { cell, right: false, upper: true });
            vertices.push(Vertex { cell, right: true, upper: true });
            vertices.push(Vertex { cell, right: true, upper: true });
            vertices.push(Vertex { cell, right: true, upper: false });
            vertices.push(Vertex { cell, right: false, upper: false });
            assert(vertices@ =~= quads(self.cells@.take(i + 1)));
            i += 1;
        }
        assert(self.cells@.take(self.cells.len() as int) =~= self.cells@);
        vertices
    }

    /// Replaces the world by its next generation: the cells that the rule
    /// keeps alive or brings to life, each once.
    pub fn process(&mut self)
        requires
            old(self).has_room(),
        ensures
            final(self)@ == next_generation(old(self)@),
            final(self)@.no_duplicates(),
            final(self).cells@.no_duplicates(),
    {
        let ghost live = self@;
        proof {
            lemma_next_generation_distinct(live);
        }
        let mut cells_to_check: Vec<Cell> = Vec::new();
        let mut i: usize = 0;
        while i < self.cells.len()
            invariant
                i <= self.cells.len(),
                *self == *old(self),
                self.has_room(),
                live == self@,
                sites(cells_to_check@) == with_new(Seq::empty(), neighborhoods(live.take(i as int))),
            decreases self.cells.len() - i,
        {
            let cell = self.cells[i];
            proof {
                let before = live.take(i as int);
                assert(live.take(i + 1).drop_last() =~= before);
                assert(live.take(i + 1).last() == cell@);
                lemma_with_new_concat(Seq::empty(), neighborhoods(before), neighborhood(cell@));
            }
            add_neighborhood(&mut cells_to_check, cell);
            i += 1;
        }
        assert(live.take(self.cells.len() as int) =~= live);

        let ghost checked = candidates(live);
        let ghost kept = keeps(live);
        let mut new_cells: Vec<Cell> = Vec::new();
        let mut j: usize = 0;
        while j < cells_to_check.len()
            invariant
                j <= cells_to_check.len(),
                *self == *old(self),
                live == self@,
                checked == sites(cells_to_check@),
                kept == keeps(live),
                sites(new_cells@) == checked.take(j as int).filter(kept),
            decreases cells_to_check.len() - j,
        {
            let cell = cells_to_check[j];
            proof {
                assert(checked.take(j + 1) =~= checked.take(j as int).push(cell@));
                checked.take(j as int).lemma_filter_push(cell@, kept);
            }
            let amount_of_neighbor = count_neighbors(&self.cells, cell);
            let stays = amount_of_neighbor == 3 || (amount_of_neighbor == 2 && holds(
                &self.cells,
                cell,
            ));
            if stays {
                new_cells.push(Cell { x: cell.x, y: cell.y });
                assert(sites(new_cells@) =~= checked.take(j as int).filter(kept).push(cell@));
            }
            j += 1;
        }
        assert(checked.take(cells_to_check.len() as int) =~= checked);
        self.set_cells(new_cells);
        assert forall|a: int, b: int|
            0 <= a < self.cells@.len() && 0 <= b < self.cells@.len() && a
                != b implies self.cells@[a] != self.cells@[b] by {
            assert(self@[a] == self.cells@[a]@ && self@[b] == self.cells@[b]@);
        }
    }
}

} // verus!
