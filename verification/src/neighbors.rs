//! What the neighbour search finds, told by distances alone.
//!
//! The lists come out of a grid and a walk through the cells around each particle.
//! The laws leave both aside: they say of any two particles whether one is listed
//! for the other, of a grid in which order it has the particles, and of an offset
//! in which cell it lies.
use vstd::prelude::*;
use vstd::arithmetic::power2::{lemma_pow2_pos, pow2};
use crate::grid::{along, below, cell_members, cell_number, dims_fit, one_after, one_before, Grid};
use crate::grid::{box_candidates, layer_candidates, row_candidates};
use crate::grid::{
    lemma_box_candidates, lemma_cell_contains, lemma_layer_candidates, lemma_row_candidates,
};
use crate::grid::{
    lemma_below_ends, lemma_below_monotone, lemma_candidates_are_the_adjacent,
    lemma_candidates_once, lemma_cell_number, lemma_members_len, lemma_members_sound,
};
use crate::numbering::lemma_stretch;
use crate::sim::{candidates_of, cells_of, lists, measured, near, nearby, Distances};
use crate::sim::{lemma_close_offsets_touch, lemma_nearby_contains};
use crate::single::{Point, Single};

verus! {

/// The particles listed for particle `i`.
pub open spec fn listed(starts: Seq<usize>, neighbors: Seq<u32>, i: int) -> Seq<u32> {
    neighbors.subrange(starts[i] as int, starts[i + 1] as int)
}

/// Exactly which particles are listed: of two different ones, one is listed for the
/// other if and only if their cells are at most one apart along each axis, and
/// their squared distance is a number below the radius squared.
pub proof fn lemma_listed_exactly(
    grid: Grid,
    locals: Seq<Point>,
    distances: Distances,
    h2: Single,
    starts: Seq<usize>,
    neighbors: Seq<u32>,
    i: int,
    j: int,
)
    requires
        dims_fit(grid.cols as int, grid.rows as int, grid.layers as int),
        locals.len() <= u32::MAX,
        lists(grid, locals, distances, h2, starts, neighbors, locals.len() as int),
        0 <= i < locals.len(),
        0 <= j < locals.len(),
    ensures
        ({
            let (cols, rows, layers) = (grid.cols as int, grid.rows as int, grid.layers as int);
            let (a, b) = (locals[i], locals[j]);
            listed(starts, neighbors, i).contains(j as u32) <==> {
                &&& i != j
                &&& -1 <= along(a.x, cols) - along(b.x, cols) <= 1
                &&& -1 <= along(a.y, rows) - along(b.y, rows) <= 1
                &&& -1 <= along(a.z, layers) - along(b.z, layers) <= 1
                &&& !distances[(i, j)].nan()
                &&& !h2.nan()
                &&& distances[(i, j)].rank() < h2.rank()
            }
        }),
{
    let (cols, rows, layers) = (grid.cols as int, grid.rows as int, grid.layers as int);
    let cells = cells_of(grid, locals);
    let (a, b) = (locals[i], locals[j]);
    let (ax, ay, az) = (along(a.x, cols), along(a.y, rows), along(a.z, layers));
    let (bx, by, bz) = (along(b.x, cols), along(b.y, rows), along(b.z, layers));
    lemma_cell_number(cols, rows, layers, bx, by, bz);
    lemma_candidates_are_the_adjacent(
        cells,
        cols,
        rows,
        layers,
        ax,
        ay,
        az,
        j as u32,
        bx,
        by,
        bz,
    );
    lemma_nearby_contains(distances, h2, i, candidates_of(grid, locals, i), j as u32);
    assert(starts[i] <= starts[i + 1]);
}

/// Of two particles at most a cell apart along each axis, one is listed for the
/// other if and only if their squared distance is a number below the radius
/// squared. Offsets are counted in cells, and sizes in the smallest positive
/// single, of which there are `2^149` to one.
pub proof fn lemma_listed_if_near(
    grid: Grid,
    locals: Seq<Point>,
    distances: Distances,
    h2: Single,
    starts: Seq<usize>,
    neighbors: Seq<u32>,
    i: int,
    j: int,
)
    requires
        dims_fit(grid.cols as int, grid.rows as int, grid.layers as int),
        locals.len() <= u32::MAX,
        lists(grid, locals, distances, h2, starts, neighbors, locals.len() as int),
        0 <= i < locals.len(),
        0 <= j < locals.len(),
        i != j,
        !locals[i].x.nan() && !locals[j].x.nan(),
        !locals[i].y.nan() && !locals[j].y.nan(),
        !locals[i].z.nan() && !locals[j].z.nan(),
        -pow2(149) <= locals[i].x.rank() - locals[j].x.rank() <= pow2(149),
        -pow2(149) <= locals[i].y.rank() - locals[j].y.rank() <= pow2(149),
        -pow2(149) <= locals[i].z.rank() - locals[j].z.rank() <= pow2(149),
    ensures
        listed(starts, neighbors, i).contains(j as u32) <==> !distances[(i, j)].nan() && !h2.nan()
            && distances[(i, j)].rank() < h2.rank(),
{
    lemma_listed_exactly(grid, locals, distances, h2, starts, neighbors, i, j);
    lemma_close_offsets_touch(locals[i].x, locals[j].x, grid.cols as int);
    lemma_close_offsets_touch(locals[i].y, locals[j].y, grid.rows as int);
    lemma_close_offsets_touch(locals[i].z, locals[j].z, grid.layers as int);
}

/// Whatever is listed for a particle is another particle, nearer than the radius;
/// and nothing is listed twice.
pub proof fn lemma_only_the_near_are_listed(
    grid: Grid,
    locals: Seq<Point>,
    distances: Distances,
    h2: Single,
    starts: Seq<usize>,
    neighbors: Seq<u32>,
    i: int,
)
    requires
        dims_fit(grid.cols as int, grid.rows as int, grid.layers as int),
        locals.len() <= u32::MAX,
        lists(grid, locals, distances, h2, starts, neighbors, locals.len() as int),
        0 <= i < locals.len(),
    ensures
        forall|k: int|
            0 <= k < listed(starts, neighbors, i).len() ==> {
                let j = #[trigger] listed(starts, neighbors, i)[k] as int;
                &&& 0 <= j < locals.len()
                &&& j != i
                &&& !distances[(i, j)].nan()
                &&& !h2.nan()
                &&& distances[(i, j)].rank() < h2.rank()
            },
        listed(starts, neighbors, i).no_duplicates(),
{
    let candidates = candidates_of(grid, locals, i);
    let list = nearby(distances, h2, i, candidates);
    assert(starts[i] <= starts[i + 1]);
    assert(listed(starts, neighbors, i) == list);
    lemma_candidates_once(
        cells_of(grid, locals),
        grid.cols as int,
        grid.rows as int,
        grid.layers as int,
        along(locals[i].x, grid.cols as int),
        along(locals[i].y, grid.rows as int),
        along(locals[i].z, grid.layers as int),
    );
    lemma_nearby_once(distances, h2, i, candidates);
    assert forall|k: int| 0 <= k < list.len() implies {
        let j = #[trigger] list[k] as int;
        &&& 0 <= j < locals.len()
        &&& near(distances, h2, i, j)
    } by {
        let j = list[k];
        assert(list.contains(j));
        lemma_nearby_contains(distances, h2, i, candidates, j);
        let m = choose|m: int| 0 <= m < candidates.len() && candidates[m] == j;
        crate::sim::lemma_candidates_exist(grid, locals, i, m);
    }
}

/// Picking from a list without repeats repeats nothing.
proof fn lemma_nearby_once(distances: Distances, h2: Single, i: int, candidates: Seq<u32>)
    requires
        candidates.no_duplicates(),
    ensures
        nearby(distances, h2, i, candidates).no_duplicates(),
    decreases candidates.len(),
{
    if candidates.len() > 0 {
        let rest = candidates.drop_last();
        lemma_nearby_once(distances, h2, i, rest);
        let (shorter, list) = (
            nearby(distances, h2, i, rest),
            nearby(distances, h2, i, candidates),
        );
        let last = candidates.last();
        assert forall|a: int, b: int| 0 <= a < b < list.len() implies list[a] != list[b] by {
            if b < shorter.len() {
                assert(list[a] == shorter[a] && list[b] == shorter[b]);
            } else if shorter[a] == last {
                assert(shorter.contains(last));
                lemma_nearby_contains(distances, h2, i, rest, last);
                let m = choose|m: int| 0 <= m < rest.len() && rest[m] == last;
                assert(candidates[m] == candidates[candidates.len() - 1]);
            }
        }
    }
}

/// The same by the distances that are measured: where the squared distance of two
/// particles is always `d`, and they are at most a cell apart along each axis, one
/// is listed for the other if and only if `d` is a number below the radius squared.
pub proof fn lemma_listed_by_distance<F: Fn(usize, usize) -> Single>(
    distance2: F,
    grid: Grid,
    locals: Seq<Point>,
    distances: Distances,
    h2: Single,
    starts: Seq<usize>,
    neighbors: Seq<u32>,
    i: int,
    j: int,
    d: Single,
)
    requires
        dims_fit(grid.cols as int, grid.rows as int, grid.layers as int),
        locals.len() <= u32::MAX,
        measured(distance2, grid, locals, distances),
        lists(grid, locals, distances, h2, starts, neighbors, locals.len() as int),
        0 <= i < locals.len(),
        0 <= j < locals.len(),
        i != j,
        forall|e: Single| #[trigger] call_ensures(distance2, (i as usize, j as usize), e) ==> e == d,
        !locals[i].x.nan() && !locals[j].x.nan(),
        !locals[i].y.nan() && !locals[j].y.nan(),
        !locals[i].z.nan() && !locals[j].z.nan(),
        -pow2(149) <= locals[i].x.rank() - locals[j].x.rank() <= pow2(149),
        -pow2(149) <= locals[i].y.rank() - locals[j].y.rank() <= pow2(149),
        -pow2(149) <= locals[i].z.rank() - locals[j].z.rank() <= pow2(149),
    ensures
        listed(starts, neighbors, i).contains(j as u32) <==> !d.nan() && !h2.nan() && d.rank()
            < h2.rank(),
{
    let (cols, rows, layers) = (grid.cols as int, grid.rows as int, grid.layers as int);
    let cells = cells_of(grid, locals);
    let (a, b) = (locals[i], locals[j]);
    let (ax, ay, az) = (along(a.x, cols), along(a.y, rows), along(a.z, layers));
    let (bx, by, bz) = (along(b.x, cols), along(b.y, rows), along(b.z, layers));
    lemma_listed_if_near(grid, locals, distances, h2, starts, neighbors, i, j);
    lemma_close_offsets_touch(a.x, b.x, cols);
    lemma_close_offsets_touch(a.y, b.y, rows);
    lemma_close_offsets_touch(a.z, b.z, layers);
    lemma_cell_number(cols, rows, layers, bx, by, bz);
    lemma_candidates_are_the_adjacent(
        cells,
        cols,
        rows,
        layers,
        ax,
        ay,
        az,
        j as u32,
        bx,
        by,
        bz,
    );
    let candidates = candidates_of(grid, locals, i);
    let k = choose|k: int| 0 <= k < candidates.len() && candidates[k] == j as u32;
    assert(candidates_of(grid, locals, i)[k] == j);
    assert(distances.contains_key((i, j)));
}

/// The cell along an axis is the one that the offset lies in: the whole cells
/// before it. An offset below zero lies in the first cell, one past the end in the
/// last, and one that is not a number in the first.
pub proof fn lemma_cell_along(v: Single, size: int, k: int)
    requires
        1 <= size <= i32::MAX,
    ensures
        v.nan() ==> along(v, size) == 0,
        !v.nan() && v.rank() < pow2(149) ==> along(v, size) == 0,
        !v.nan() && 0 <= k < size && k * pow2(149) <= v.rank() < (k + 1) * pow2(149) ==> along(
            v,
            size,
        ) == k,
        !v.nan() && (size - 1) * pow2(149) <= v.rank() ==> along(v, size) == size - 1,
{
    let one = pow2(149) as int;
    lemma_pow2_pos(149);
    if !v.nan() {
        crate::sim::lemma_along_is_whole(v, size);
        let r = v.rank();
        if r < one {
            if r >= 0 {
                vstd::arithmetic::div_mod::lemma_basic_div(r, one);
            } else {
                vstd::arithmetic::div_mod::lemma_basic_div(0, one);
            }
        }
        if 0 <= k < size && k * one <= r < (k + 1) * one {
            assert(r >= 0) by (nonlinear_arith)
                requires
                    0 <= k,
                    0 < one,
                    k * one <= r,
            ;
            assert(r / one == k) by {
                assert((k + 1) * one == k * one + one) by (nonlinear_arith);
                vstd::arithmetic::div_mod::lemma_fundamental_div_mod_converse(
                    r,
                    one,
                    k,
                    r - k * one,
                );
            }
        }
        if (size - 1) * one <= r {
            assert(r >= 0) by (nonlinear_arith)
                requires
                    1 <= size,
                    0 < one,
                    (size - 1) * one <= r,
            ;
            vstd::arithmetic::div_mod::lemma_div_is_ordered((size - 1) * one, r, one);
            vstd::arithmetic::div_mod::lemma_div_multiples_vanish(size - 1, one);
            assert(one * (size - 1) == (size - 1) * one) by (nonlinear_arith);
        }
    }
}

/// A grid lists every particle once, cell by cell and in index order within a cell,
/// and a cell's stretch is the places whose particles lie in it.
pub proof fn lemma_grid_order(grid: Grid, cells: Seq<usize>, k: int, m: int)
    requires
        grid.holds(cells),
        0 <= k < m < cells.len(),
    ensures
        grid.sorted@.len() == cells.len(),
        grid.sorted@[k] < cells.len(),
        grid.sorted@[m] < cells.len(),
        cells[grid.sorted@[k] as int] < cells[grid.sorted@[m] as int]
            || cells[grid.sorted@[k] as int] == cells[grid.sorted@[m] as int]
            && grid.sorted@[k] < grid.sorted@[m],
{
    let a = lemma_place(grid, cells, k);
    let b = lemma_place(grid, cells, m);
    let n = cells.len() as int;
    if b < a {
        lemma_below_monotone(cells, b + 1, a, n);
    }
    if a == b {
        lemma_members_sound(cells, a, n);
        lemma_members_len(cells, a, n);
        let (i, j) = (k - below(cells, a, n), m - below(cells, a, n));
        assert(grid.sorted@[below(cells, a, n) + i] == cell_members(cells, a)[i]);
        assert(grid.sorted@[below(cells, a, n) + j] == cell_members(cells, a)[j]);
    }
}

/// A place of the order lies in a cell's stretch exactly if its particle lies in
/// the cell.
pub proof fn lemma_grid_stretches(grid: Grid, cells: Seq<usize>, c: int, k: int)
    requires
        grid.holds(cells),
        0 <= c < grid.cols * (grid.rows * grid.layers),
        0 <= k < cells.len(),
    ensures
        grid.cell_start@.len() == grid.cols * (grid.rows * grid.layers) + 1,
        grid.cell_start@[0] == 0,
        grid.cell_start@[grid.count()] == cells.len(),
        grid.sorted@[k] < cells.len(),
        grid.cell_start@[c] <= k < grid.cell_start@[c + 1] <==> cells[grid.sorted@[k] as int] == c,
{
    let n = cells.len() as int;
    let a = lemma_place(grid, cells, k);
    lemma_below_ends(cells, grid.count(), n);
    assert(grid.cell_start@[c] == below(cells, c, n));
    assert(grid.cell_start@[c + 1] == below(cells, c + 1, n));
    if a < c {
        lemma_below_monotone(cells, a + 1, c, n);
    }
    if c < a {
        lemma_below_monotone(cells, c + 1, a, n);
    }
}

/// The cell that a place of the order lies in.
proof fn lemma_place(grid: Grid, cells: Seq<usize>, k: int) -> (c: int)
    requires
        grid.holds(cells),
        0 <= k < cells.len(),
    ensures
        0 <= c < grid.count(),
        below(cells, c, cells.len() as int) <= k < below(cells, c + 1, cells.len() as int),
        grid.sorted@[k] < cells.len(),
        cells[grid.sorted@[k] as int] == c,
{
    let n = cells.len() as int;
    lemma_below_ends(cells, grid.count(), n);
    let c = lemma_stretch(cells, k, grid.count());
    lemma_members_len(cells, c, n);
    lemma_members_sound(cells, c, n);
    let at = k - below(cells, c, n);
    assert(grid.sorted@[below(cells, c, n) + at] == cell_members(cells, c)[at]);
    c
}

/// One particle comes before another: its cell does, or it does in the same cell.
pub open spec fn precedes(cells: Seq<usize>, i: u32, j: u32) -> bool {
    cells[i as int] < cells[j as int] || cells[i as int] == cells[j as int] && i < j
}

/// Particles listed cell by cell, and in index order within a cell.
pub open spec fn in_order(cells: Seq<usize>, list: Seq<u32>) -> bool {
    forall|a: int, b: int|
        0 <= a < b < list.len() ==> precedes(cells, #[trigger] list[a], #[trigger] list[b])
}

/// The neighbours of a particle are listed cell by cell, by the cells' numbers, and
/// in index order within a cell: so sums over them are taken in one order.
pub proof fn lemma_listed_in_order(
    grid: Grid,
    locals: Seq<Point>,
    distances: Distances,
    h2: Single,
    starts: Seq<usize>,
    neighbors: Seq<u32>,
    i: int,
)
    requires
        dims_fit(grid.cols as int, grid.rows as int, grid.layers as int),
        locals.len() <= u32::MAX,
        lists(grid, locals, distances, h2, starts, neighbors, locals.len() as int),
        0 <= i < locals.len(),
    ensures
        in_order(cells_of(grid, locals), listed(starts, neighbors, i)),
{
    let (cols, rows, layers) = (grid.cols as int, grid.rows as int, grid.layers as int);
    let (x, y, z) = (along(locals[i].x, cols), along(locals[i].y, rows), along(locals[i].z, layers));
    let candidates = candidates_of(grid, locals, i);
    assert(starts[i] <= starts[i + 1]);
    assert(listed(starts, neighbors, i) == nearby(distances, h2, i, candidates));
    lemma_box_in_order(
        cells_of(grid, locals),
        cols,
        rows,
        one_before(x),
        one_after(x, cols),
        one_before(y),
        one_after(y, rows),
        one_before(z),
        one_after(z, layers),
    );
    lemma_nearby_in_order(cells_of(grid, locals), distances, h2, i, candidates);
}

/// Picking from a list keeps its order.
proof fn lemma_nearby_in_order(
    cells: Seq<usize>,
    distances: Distances,
    h2: Single,
    i: int,
    candidates: Seq<u32>,
)
    requires
        in_order(cells, candidates),
    ensures
        in_order(cells, nearby(distances, h2, i, candidates)),
    decreases candidates.len(),
{
    if candidates.len() > 0 {
        let rest = candidates.drop_last();
        assert(in_order(cells, rest)) by {
            assert forall|a: int, b: int| 0 <= a < b < rest.len() implies precedes(
                cells,
                #[trigger] rest[a],
                #[trigger] rest[b],
            ) by {
                assert(rest[a] == candidates[a] && rest[b] == candidates[b]);
            }
        }
        lemma_nearby_in_order(cells, distances, h2, i, rest);
        let (shorter, list) = (
            nearby(distances, h2, i, rest),
            nearby(distances, h2, i, candidates),
        );
        assert forall|a: int, b: int| 0 <= a < b < list.len() implies precedes(
            cells,
            #[trigger] list[a],
            #[trigger] list[b],
        ) by {
            assert(list[a] == shorter[a]);
            if b < shorter.len() {
                assert(list[b] == shorter[b]);
            } else {
                let j = shorter[a];
                assert(shorter.contains(j));
                lemma_nearby_contains(distances, h2, i, rest, j);
                let m = choose|m: int| 0 <= m < rest.len() && rest[m] == j;
                assert(candidates[m] == j);
                assert(list[b] == candidates[candidates.len() - 1]);
            }
        }
    }
}

proof fn lemma_joined_in_order(cells: Seq<usize>, a: Seq<u32>, b: Seq<u32>)
    requires
        in_order(cells, a),
        in_order(cells, b),
        forall|i: int, k: int|
            0 <= i < a.len() && 0 <= k < b.len() ==> cells[(#[trigger] a[i]) as int] < cells[(
            #[trigger] b[k]) as int],
    ensures
        in_order(cells, a + b),
{
    let all = a + b;
    assert forall|i: int, k: int| 0 <= i < k < all.len() implies precedes(
        cells,
        #[trigger] all[i],
        #[trigger] all[k],
    ) by {
        if k < a.len() {
            assert(all[i] == a[i] && all[k] == a[k]);
        } else if i < a.len() {
            assert(all[i] == a[i] && all[k] == b[k - a.len()]);
        } else {
            assert(all[i] == b[i - a.len()] && all[k] == b[k - a.len()]);
        }
    }
}

proof fn lemma_row_in_order(
    cells: Seq<usize>,
    cols: int,
    rows: int,
    x0: int,
    x1: int,
    y: int,
    z: int,
)
    requires
        cells.len() <= u32::MAX,
    ensures
        in_order(cells, row_candidates(cells, cols, rows, x0, x1, y, z)),
    decreases x1 - x0 + 1,
{
    if x0 <= x1 {
        lemma_row_in_order(cells, cols, rows, x0, x1 - 1, y, z);
        let a = row_candidates(cells, cols, rows, x0, x1 - 1, y, z);
        let c = cell_number(cols, rows, x1, y, z);
        let b = cell_members(cells, c);
        lemma_members_sound(cells, c, cells.len() as int);
        assert(in_order(cells, b)) by {
            assert forall|i: int, k: int| 0 <= i < k < b.len() implies precedes(
                cells,
                #[trigger] b[i],
                #[trigger] b[k],
            ) by {
                assert(b[i] < b[k]);
            }
        }
        assert forall|i: int, k: int| 0 <= i < a.len() && 0 <= k < b.len() implies cells[(
        #[trigger] a[i]) as int] < cells[(#[trigger] b[k]) as int] by {
            assert(a.contains(a[i]));
            lemma_row_candidates(cells, cols, rows, x0, x1 - 1, y, z, a[i]);
            assert(b.contains(b[k]));
            lemma_cell_contains(cells, c, b[k]);
        }
        lemma_joined_in_order(cells, a, b);
    }
}

proof fn lemma_layer_in_order(
    cells: Seq<usize>,
    cols: int,
    rows: int,
    x0: int,
    x1: int,
    y0: int,
    y1: int,
    z: int,
)
    requires
        cells.len() <= u32::MAX,
        0 <= x0,
        x1 < cols,
    ensures
        in_order(cells, layer_candidates(cells, cols, rows, x0, x1, y0, y1, z)),
    decreases y1 - y0 + 1,
{
    if y0 <= y1 {
        lemma_layer_in_order(cells, cols, rows, x0, x1, y0, y1 - 1, z);
        lemma_row_in_order(cells, cols, rows, x0, x1, y1, z);
        let a = layer_candidates(cells, cols, rows, x0, x1, y0, y1 - 1, z);
        let b = row_candidates(cells, cols, rows, x0, x1, y1, z);
        assert forall|i: int, k: int| 0 <= i < a.len() && 0 <= k < b.len() implies cells[(
        #[trigger] a[i]) as int] < cells[(#[trigger] b[k]) as int] by {
            assert(a.contains(a[i]));
            lemma_layer_candidates(cells, cols, rows, x0, x1, y0, y1 - 1, z, a[i]);
            let (x, y) = choose|x: int, y: int|
                x0 <= x <= x1 && y0 <= y <= y1 - 1 && cells[a[i] as int] == #[trigger] cell_number(
                    cols,
                    rows,
                    x,
                    y,
                    z,
                );
            assert(b.contains(b[k]));
            lemma_row_candidates(cells, cols, rows, x0, x1, y1, z, b[k]);
            let u = choose|u: int|
                x0 <= u <= x1 && cells[b[k] as int] == #[trigger] cell_number(cols, rows, u, y1, z);
            assert((z * rows + y) * cols + x < (z * rows + y1) * cols + u) by (nonlinear_arith)
                requires
                    y + 1 <= y1,
                    0 <= x < cols,
                    0 <= u,
            ;
        }
        lemma_joined_in_order(cells, a, b);
    }
}

proof fn lemma_box_in_order(
    cells: Seq<usize>,
    cols: int,
    rows: int,
    x0: int,
    x1: int,
    y0: int,
    y1: int,
    z0: int,
    z1: int,
)
    requires
        cells.len() <= u32::MAX,
        0 <= x0,
        x1 < cols,
        0 <= y0,
        y1 < rows,
    ensures
        in_order(cells, box_candidates(cells, cols, rows, x0, x1, y0, y1, z0, z1)),
    decreases z1 - z0 + 1,
{
    if z0 <= z1 {
        lemma_box_in_order(cells, cols, rows, x0, x1, y0, y1, z0, z1 - 1);
        lemma_layer_in_order(cells, cols, rows, x0, x1, y0, y1, z1);
        let a = box_candidates(cells, cols, rows, x0, x1, y0, y1, z0, z1 - 1);
        let b = layer_candidates(cells, cols, rows, x0, x1, y0, y1, z1);
        assert forall|i: int, k: int| 0 <= i < a.len() && 0 <= k < b.len() implies cells[(
        #[trigger] a[i]) as int] < cells[(#[trigger] b[k]) as int] by {
            assert(a.contains(a[i]));
            lemma_box_candidates(cells, cols, rows, x0, x1, y0, y1, z0, z1 - 1, a[i]);
            let (x, y, z) = choose|x: int, y: int, z: int|
                x0 <= x <= x1 && y0 <= y <= y1 && z0 <= z <= z1 - 1 && cells[a[i] as int]
                    == #[trigger] cell_number(cols, rows, x, y, z);
            assert(b.contains(b[k]));
            lemma_layer_candidates(cells, cols, rows, x0, x1, y0, y1, z1, b[k]);
            let (u, v) = choose|u: int, v: int|
                x0 <= u <= x1 && y0 <= v <= y1 && cells[b[k] as int] == #[trigger] cell_number(
                    cols,
                    rows,
                    u,
                    v,
                    z1,
                );
            let (p, q) = (z * rows + y, z1 * rows + v);
            assert(p + 1 <= q) by (nonlinear_arith)
                requires
                    p == z * rows + y,
                    q == z1 * rows + v,
                    z + 1 <= z1,
                    0 <= y < rows,
                    0 <= v,
            ;
            assert(p * cols + x < q * cols + u) by (nonlinear_arith)
                requires
                    p + 1 <= q,
                    0 <= x < cols,
                    0 <= u,
            ;
        }
        lemma_joined_in_order(cells, a, b);
    }
}

} // verus!
