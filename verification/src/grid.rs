//! The broad phase: a uniform grid over the world rectangle. Each cell holds
//! the indices of the bodies whose center lies in it; the grid is cleared and
//! rebuilt from scratch before every narrow phase.

use vstd::prelude::*;
use crate::array2d::Array2D;
use crate::num::tdiv;
use crate::num::div_i64;

verus! {

/// A grid of cells, each an ordered list of body indices.
pub type UniformGridSimple = Array2D<Vec<usize>>;

/// The mathematical contents of the grid: one sequence of indices per cell,
/// in flat row-major order.
pub open spec fn contents(g: &UniformGridSimple) -> Seq<Seq<usize>> {
    Seq::new(g@.len() as nat, |i: int| g@[i]@)
}

/// Contents of a grid whose every cell is empty.
pub open spec fn cleared(c: Seq<Seq<usize>>) -> Seq<Seq<usize>> {
    Seq::new(c.len(), |i: int| Seq::<usize>::empty())
}

/// Clearing a second time changes nothing: the world-facing statement that
/// `clear` is idempotent.
pub proof fn lemma_clear_idempotent(c: Seq<Seq<usize>>)
    ensures
        cleared(cleared(c)) == cleared(c),
{
    assert(cleared(cleared(c)) =~= cleared(c));
}

/// The grid cell that contains a world point, for a positive cell size:
/// coordinates divided by the cell size, truncated.
pub open spec fn cell_x(point: (i64, i64), cell_size: i64) -> int {
    tdiv(point.0 as int, cell_size as int)
}

/// Row of the grid cell that contains a world point.
pub open spec fn cell_y(point: (i64, i64), cell_size: i64) -> int {
    tdiv(point.1 as int, cell_size as int)
}

/// Whether a world point lands inside a `w` by `h` grid of `cell_size` cells.
/// Points with a negative coordinate are outside.
pub open spec fn point_in_grid(point: (i64, i64), cell_size: i64, w: int, h: int) -> bool {
    &&& point.0 >= 0
    &&& point.1 >= 0
    &&& cell_x(point, cell_size) < w
    &&& cell_y(point, cell_size) < h
}

/// The grid contents after inserting index `value` at `point`: the cell of
/// the point gains `value` at its end; a point outside the grid changes
/// nothing.
pub open spec fn insert_spec(
    c: Seq<Seq<usize>>,
    point: (i64, i64),
    value: usize,
    cell_size: i64,
    w: int,
    h: int,
) -> Seq<Seq<usize>> {
    if point_in_grid(point, cell_size, w, h) {
        let k = cell_x(point, cell_size) + cell_y(point, cell_size) * w;
        c.update(k, c[k].push(value))
    } else {
        c
    }
}

/// A fresh grid for a `world_width` by `world_height` world: one cell per
/// `cell_size` square, every cell empty.
pub fn new(cell_size: i64, world_width: i64, world_height: i64) -> (g: UniformGridSimple)
    requires
        cell_size >= 1,
        world_width >= 0,
        world_height >= 0,
        tdiv(world_width as int, cell_size as int) <= usize::MAX,
        tdiv(world_height as int, cell_size as int) <= usize::MAX,
        tdiv(world_width as int, cell_size as int) * tdiv(world_height as int, cell_size as int)
            <= usize::MAX,
    ensures
        g.wf(),
        g.spec_width() == tdiv(world_width as int, cell_size as int),
        g.spec_height() == tdiv(world_height as int, cell_size as int),
        contents(&g) == cleared(contents(&g)),
        g@.len() == g.spec_width() * g.spec_height(),
{
    let width: usize = div_i64(world_width, cell_size) as usize;
    let height: usize = div_i64(world_height, cell_size) as usize;
    proof {
        assert(height * width <= usize::MAX) by (nonlinear_arith)
            requires
                width * height <= usize::MAX,
                width >= 0,
                height >= 0,
        ;
    }
    let empty_cell: Vec<usize> = Vec::new();
    let ghost ec = empty_cell;
    let g = Array2D::<Vec<usize>>::new(height, width, empty_cell);
    proof {
        assert forall|i: int| 0 <= i < g@.len() implies (#[trigger] g@[i])@.len() == 0 by {
            assert(cloned::<Vec<usize>>(ec, g@[i]));
        }
        assert(contents(&g) =~~= cleared(contents(&g)));
    }
    g
}

/// Append body index `value` to the cell that contains `point`. A point
/// outside the grid is rejected silently.
pub fn insert(grid: &mut UniformGridSimple, point: (i64, i64), value: usize, cell_size: i64)
    requires
        old(grid).wf(),
        cell_size >= 1,
    ensures
        final(grid).wf(),
        final(grid).spec_width() == old(grid).spec_width(),
        final(grid).spec_height() == old(grid).spec_height(),
        contents(final(grid)) == insert_spec(
            contents(old(grid)),
            point,
            value,
            cell_size,
            old(grid).spec_width() as int,
            old(grid).spec_height() as int,
        ),
    {
    let (x, y) = point;
    if x < 0 || y < 0 {
        return ;
    }
    let cx: i64 = div_i64(x, cell_size);
    let cy: i64 = div_i64(y, cell_size);
    proof {
        crate::num::lemma_tdiv_bounds(x as int, cell_size as int);
        crate::num::lemma_tdiv_bounds(y as int, cell_size as int);
    }
    if (cx as u64) < (grid.get_width() as u64) && (cy as u64) < (grid.get_height() as u64) {
        let ghost c0 = contents(grid);
        let cxu: usize = cx as usize;
        let cyu: usize = cy as usize;
        proof {
            grid.lemma_flat_in_range(cxu as int, cyu as int);
        }
        let cell = grid.get_mut(cxu, cyu);
        cell.push(value);
        proof {
            let k = cell_x(point, cell_size) + cell_y(point, cell_size) * (
            grid.spec_width() as int);
            assert(contents(grid) =~= c0.update(k, c0[k].push(value)));
        }
    }
}

/// Empty every cell in place; the shape of the grid is kept.
pub fn clear_uniform_grid_simple(grid: &mut UniformGridSimple)
    requires
        old(grid).wf(),
    ensures
        final(grid).wf(),
        final(grid).spec_width() == old(grid).spec_width(),
        final(grid).spec_height() == old(grid).spec_height(),
        contents(final(grid)) == cleared(contents(old(grid))),
{
    let total: usize = grid.total_size();
    let mut i: usize = 0;
    while i < total
        invariant
            grid.wf(),
            grid.spec_width() == old(grid).spec_width(),
            grid.spec_height() == old(grid).spec_height(),
            grid@.len() == total,
            i <= total,
            forall|j: int| 0 <= j < i ==> (#[trigger] grid@[j])@ == Seq::<usize>::empty(),
            forall|j: int| i <= j < total ==> #[trigger] grid@[j] == old(grid)@[j],
        decreases total - i,
    {
        let cell = grid.get_mut_as_1d(i);
        cell.clear();
        i = i + 1;
    }
    proof {
        assert(contents(grid) =~= cleared(contents(old(grid))));
    }
}

} // verus!

// Counting what the grid holds.
verus! {

/// Total number of stored indices: the sum of all cell lengths.
pub open spec fn total_count(c: Seq<Seq<usize>>) -> int
    decreases c.len(),
{
    if c.len() == 0 {
        0
    } else {
        total_count(c.drop_last()) + c.last().len()
    }
}

/// Every stored index is below `m`.
pub open spec fn cells_bounded(c: Seq<Seq<usize>>, m: int) -> bool {
    forall|k: int, j: int|
        0 <= k < c.len() && 0 <= j < c[k].len() ==> (#[trigger] c[k][j]) < m
}

/// A grid of empty cells stores nothing.
pub proof fn lemma_total_count_all_empty(c: Seq<Seq<usize>>)
    requires
        forall|k: int| 0 <= k < c.len() ==> (#[trigger] c[k]).len() == 0,
    ensures
        total_count(c) == 0,
    decreases c.len(),
{
    if c.len() > 0 {
        lemma_total_count_all_empty(c.drop_last());
    }
}

/// Appending one index to one cell raises the total by one.
pub proof fn lemma_total_count_push(c: Seq<Seq<usize>>, k: int, v: usize)
    requires
        0 <= k < c.len(),
    ensures
        total_count(c.update(k, c[k].push(v))) == total_count(c) + 1,
    decreases c.len(),
{
    let c2 = c.update(k, c[k].push(v));
    if k == c.len() - 1 {
        assert(c2.drop_last() =~= c.drop_last());
        assert(c2.last() == c.last().push(v));
    } else {
        assert(c2.drop_last() =~= c.drop_last().update(k, c.drop_last()[k].push(v)));
        assert(c2.last() == c.last());
        lemma_total_count_push(c.drop_last(), k, v);
    }
}

} // verus!
