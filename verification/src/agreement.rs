//! Why the device's grid is the host's.
//!
//! The device counts particles per cell, sums the counts in place, scatters the
//! particles in whatever order its threads run, and sorts each cell back into
//! index order. Starts and order then both come out as the host's counting sort
//! leaves them, so neighbour lists agree, order included, and sums over them
//! round the same way.
use vstd::prelude::*;
use vstd::arithmetic::power2::pow2;
use crate::grid::{below, cell_members, members, Grid};
use crate::grid::{lemma_below_ends, lemma_below_monotone};
use crate::grid::{lemma_cell_contains, lemma_members_len, lemma_members_sound};
use crate::numbering::{complete, lemma_stretch, occurs};
use crate::scan::{associative, before, lemma_scan_is_the_exclusive_prefix, neutral, run, schedule};
use crate::surface::{cube_facets, mesh_facets, row_facets, slice_facets};

verus! {

/// Adding up.
pub open spec fn plus() -> spec_fn(int, int) -> int {
    |x: int, y: int| x + y
}

pub proof fn lemma_plus()
    ensures
        associative(plus()),
        neutral(plus(), 0),
{
}

/// The particles counted in each cell, and zeros after the last one.
pub open spec fn counts(cells: Seq<usize>, count: int, size: nat) -> Seq<int> {
    Seq::new(
        size,
        |c: int|
            if c < count {
                cell_members(cells, c).len() as int
            } else {
                0
            },
    )
}

/// The counts of the cells before one add up to where it starts.
proof fn lemma_counts_add_up(cells: Seq<usize>, count: int, size: nat, c: int)
    requires
        0 <= c <= count,
        count < size,
        forall|i: int| 0 <= i < cells.len() ==> (#[trigger] cells[i]) < count,
    ensures
        before(plus(), 0, counts(cells, count, size), c) == below(cells, c, cells.len() as int),
    decreases c,
{
    let n = cells.len() as int;
    if c == 0 {
        lemma_below_ends(cells, count, n);
    } else {
        lemma_counts_add_up(cells, count, size, c - 1);
        lemma_members_len(cells, c - 1, n);
    }
}

/// The device's prefix sum over the cells' counts leaves the host's starts,
/// trailing total included.
pub proof fn lemma_device_starts_are_the_hosts(grid: Grid, cells: Seq<usize>, k: nat, c: int)
    requires
        grid.holds(cells),
        1 <= k <= 31,
        grid.count() < pow2(k),
        0 <= c <= grid.count(),
    ensures
        run(plus(), 0, counts(cells, grid.count(), pow2(k)), schedule(k, true))[c]
            == grid.cell_start@[c],
{
    let a = counts(cells, grid.count(), pow2(k));
    lemma_plus();
    lemma_scan_is_the_exclusive_prefix(plus(), 0, a, k);
    lemma_counts_add_up(cells, grid.count(), pow2(k), c);
}

/// In rising order.
pub open spec fn rising(list: Seq<u32>) -> bool {
    forall|i: int, j: int| 0 <= i < j < list.len() ==> #[trigger] list[i] < #[trigger] list[j]
}

/// The same entries.
pub open spec fn same_entries(a: Seq<u32>, b: Seq<u32>) -> bool {
    forall|j: u32| #[trigger] a.contains(j) <==> b.contains(j)
}

/// However a cell's particles were scattered, sorting them gives the host's
/// list: there is only one list of them in rising order.
pub proof fn lemma_sorted_cell_is_the_hosts(cells: Seq<usize>, c: int, list: Seq<u32>)
    requires
        cells.len() <= u32::MAX,
        rising(list),
        forall|j: u32| #[trigger] list.contains(j) <==> j < cells.len() && cells[j as int] == c,
    ensures
        list == cell_members(cells, c),
{
    let host = cell_members(cells, c);
    lemma_members_sound(cells, c, cells.len() as int);
    assert(rising(host)) by {
        assert forall|i: int, j: int| 0 <= i < j < host.len() implies #[trigger] host[i]
            < #[trigger] host[j] by {
            assert(members(cells, c, cells.len() as int)[i] < members(
                cells,
                c,
                cells.len() as int,
            )[j]);
        }
    }
    assert(same_entries(list, host)) by {
        assert forall|j: u32| #[trigger] list.contains(j) <==> host.contains(j) by {
            lemma_cell_contains(cells, c, j);
        }
    }
    lemma_rising_is_unique(list, host);
}

/// Where the device's prefix sum over `2^k` counts starts each cell.
pub open spec fn device_starts(cells: Seq<usize>, count: int, k: nat) -> Seq<int> {
    run(plus(), 0, counts(cells, count, pow2(k)), schedule(k, true))
}

/// The particles were scattered into their cells, in whatever order the threads
/// ran: every one of them has a place, and it is in the stretch of its own cell.
pub open spec fn scatters(
    cells: Seq<usize>,
    starts: Seq<int>,
    count: int,
    order: Seq<u32>,
) -> bool {
    &&& complete(order, cells.len() as int)
    &&& forall|c: int, at: int|
        0 <= c < count && #[trigger] starts[c] <= at < starts[c + 1] ==> cells[(
        #[trigger] order[at]) as int] == c
}

/// Each cell's stretch was sorted: it has the entries it had, in rising order.
pub open spec fn sorts(starts: Seq<int>, count: int, scattered: Seq<u32>, order: Seq<u32>) -> bool {
    &&& order.len() == scattered.len()
    &&& forall|c: int|
        0 <= c < count ==> {
            &&& rising(#[trigger] stretch(order, starts, c))
            &&& same_entries(stretch(order, starts, c), stretch(scattered, starts, c))
        }
}

/// The part of the order that lists a cell.
pub open spec fn stretch(order: Seq<u32>, starts: Seq<int>, c: int) -> Seq<u32> {
    order.subrange(starts[c], starts[c + 1])
}

/// The device's whole order is the host's, whatever order its threads ran in: the
/// same particles stand at the same places, cell after cell. It has every particle
/// once; each cell starts after the particles of the cells before it, the total
/// comes last, and each cell's stretch lists its particles as the host does, so a
/// search through the same cells finds the same candidates in the same order.
pub proof fn lemma_device_order_is_the_hosts(
    grid: Grid,
    cells: Seq<usize>,
    k: nat,
    scattered: Seq<u32>,
    order: Seq<u32>,
)
    requires
        grid.holds(cells),
        1 <= k <= 31,
        grid.count() < pow2(k),
        scatters(cells, device_starts(cells, grid.count(), k), grid.count(), scattered),
        sorts(device_starts(cells, grid.count(), k), grid.count(), scattered, order),
    ensures
        order == grid.sorted@,
        complete(order, cells.len() as int),
        device_starts(cells, grid.count(), k)[grid.count()] == cells.len(),
        forall|c: int|
            0 <= c <= grid.count() ==> #[trigger] device_starts(cells, grid.count(), k)[c]
                == grid.cell_start@[c],
        forall|c: int|
            0 <= c < grid.count() ==> #[trigger] stretch(
                order,
                device_starts(cells, grid.count(), k),
                c,
            ) == cell_members(cells, c),
{
    let (n, count) = (cells.len() as int, grid.count());
    let starts = device_starts(cells, count, k);
    lemma_below_ends(cells, count, n);
    assert forall|c: int| 0 <= c <= count implies #[trigger] starts[c] == below(cells, c, n)
        && starts[c] == grid.cell_start@[c] by {
        lemma_device_starts_are_the_hosts(grid, cells, k, c);
    }
    assert forall|c: int| 0 <= c < count implies #[trigger] stretch(order, starts, c)
        == cell_members(cells, c) by {
        assert(starts[c] == below(cells, c, n) && starts[c + 1] == below(cells, c + 1, n));
        lemma_below_monotone(cells, 0, c, n);
        lemma_below_monotone(cells, c, c + 1, n);
        lemma_below_monotone(cells, c + 1, count, n);
        let (list, was) = (stretch(order, starts, c), stretch(scattered, starts, c));
        assert forall|j: u32| #[trigger] list.contains(j) <==> j < n && cells[j as int] == c by {
            assert(list.contains(j) <==> was.contains(j));
            if was.contains(j) {
                let i = choose|i: int| 0 <= i < was.len() && was[i] == j;
                assert(scattered[starts[c] + i] == j);
            }
            if j < n && cells[j as int] == c {
                assert(occurs(scattered, j as int));
                let i = choose|i: int| 0 <= i < scattered.len() && #[trigger] scattered[i] == j;
                let d = lemma_stretch(cells, i, count);
                assert(starts[d] == below(cells, d, n));
                assert(starts[d + 1] == below(cells, d + 1, n));
                assert(cells[scattered[i] as int] == d);
                assert(was[i - starts[c]] == j);
            }
        }
        lemma_sorted_cell_is_the_hosts(cells, c, list);
    }
    assert forall|at: int| 0 <= at < n implies #[trigger] order[at] == grid.sorted@[at] by {
        let c = lemma_stretch(cells, at, count);
        assert(starts[c] == below(cells, c, n) && starts[c + 1] == below(cells, c + 1, n));
        lemma_below_monotone(cells, 0, c, n);
        lemma_below_monotone(cells, c + 1, count, n);
        let (list, i) = (stretch(order, starts, c), at - starts[c]);
        assert(list[i] == order[at]);
        assert(grid.sorted@[below(cells, c, n) + i] == cell_members(cells, c)[i]);
    }
    assert(order =~= grid.sorted@);
    crate::numbering::lemma_grid_order_is_complete(grid, cells);
}

/// Two rising lists of the same entries are the same list.
proof fn lemma_rising_is_unique(a: Seq<u32>, b: Seq<u32>)
    requires
        rising(a),
        rising(b),
        same_entries(a, b),
    ensures
        a == b,
    decreases a.len(),
{
    if a.len() == 0 {
        if b.len() > 0 {
            assert(b.contains(b[0]));
            assert(a.contains(b[0]));
        }
        assert(a =~= b);
    } else {
        assert(a.contains(a.last()));
        assert(b.contains(a.last()));
        assert(b.len() > 0);
        assert(b.contains(b.last()));
        assert(a.contains(b.last()));
        let i = choose|i: int| 0 <= i < a.len() && a[i] == b.last();
        let j = choose|j: int| 0 <= j < b.len() && b[j] == a.last();
        assert(a.last() == b.last()) by {
            if i < a.len() - 1 {
                assert(a[i] < a[a.len() - 1]);
            }
            if j < b.len() - 1 {
                assert(b[j] < b[b.len() - 1]);
            }
        }
        let (p, q) = (a.drop_last(), b.drop_last());
        assert(rising(p)) by {
            assert forall|i: int, j: int| 0 <= i < j < p.len() implies #[trigger] p[i]
                < #[trigger] p[j] by {
                assert(a[i] < a[j]);
            }
        }
        assert(rising(q)) by {
            assert forall|i: int, j: int| 0 <= i < j < q.len() implies #[trigger] q[i]
                < #[trigger] q[j] by {
                assert(b[i] < b[j]);
            }
        }
        assert forall|x: u32| #[trigger] p.contains(x) <==> q.contains(x) by {
            lemma_dropped(a, x);
            lemma_dropped(b, x);
            assert(a.contains(x) <==> b.contains(x));
        }
        lemma_rising_is_unique(p, q);
        assert(a =~= p.push(a.last()));
        assert(b =~= q.push(b.last()));
    }
}

/// Dropping the last of a rising list drops just that entry.
proof fn lemma_dropped(a: Seq<u32>, x: u32)
    requires
        rising(a),
        a.len() > 0,
    ensures
        a.drop_last().contains(x) <==> a.contains(x) && x != a.last(),
{
    let p = a.drop_last();
    if p.contains(x) {
        let i = choose|i: int| 0 <= i < p.len() && p[i] == x;
        assert(a[i] == x);
        assert(a[i] < a[a.len() - 1]);
    }
    if a.contains(x) && x != a.last() {
        let i = choose|i: int| 0 <= i < a.len() && a[i] == x;
        assert(p[i] == x);
    }
}

/// The offset that a compaction reads past its last item is the number of items
/// it makes: the sum of what each one counted.
pub proof fn lemma_total_is_the_sum(made: Seq<int>, k: nat, count: int)
    requires
        1 <= k <= 31,
        made.len() == pow2(k),
        0 <= count < made.len(),
    ensures
        run(plus(), 0, made, schedule(k, true))[count] == before(plus(), 0, made, count),
{
    lemma_plus();
    lemma_scan_is_the_exclusive_prefix(plus(), 0, made, k);
}

/// Each cube's facets were counted, cube by cube along x, then y, then z, and the
/// counts are followed by zeros or whatever else there is room for.
pub open spec fn counts_facets(made: Seq<int>, nx: int, ny: int, nz: int, wet: Seq<bool>) -> bool {
    forall|x: int, y: int, z: int|
        0 <= x < nx - 1 && 0 <= y < ny - 1 && 0 <= z < nz - 1 ==> made[#[trigger] cube_at(
            nx,
            ny,
            x,
            y,
            z,
        )] == cube_facets(nx, ny, wet, x, y, z, 6).len()
}

/// The number of a cube.
pub open spec fn cube_at(nx: int, ny: int, x: int, y: int, z: int) -> int {
    (z * (ny - 1) + y) * (nx - 1) + x
}

proof fn lemma_row_adds_up(
    made: Seq<int>,
    nx: int,
    ny: int,
    nz: int,
    wet: Seq<bool>,
    y: int,
    z: int,
    n: int,
)
    requires
        counts_facets(made, nx, ny, nz, wet),
        0 <= y < ny - 1,
        0 <= z < nz - 1,
        0 <= n <= nx - 1,
    ensures
        before(plus(), 0, made, cube_at(nx, ny, n, y, z)) == before(
            plus(),
            0,
            made,
            cube_at(nx, ny, 0, y, z),
        ) + row_facets(nx, ny, wet, y, z, n).len(),
    decreases n,
{
    if n > 0 {
        lemma_row_adds_up(made, nx, ny, nz, wet, y, z, n - 1);
        let c = cube_at(nx, ny, n - 1, y, z);
        assert(c >= 0) by (nonlinear_arith)
            requires
                c == (z * (ny - 1) + y) * (nx - 1) + (n - 1),
                z >= 0,
                y >= 0,
                n >= 1,
                ny >= 1,
                nx >= 1,
        ;
        assert(cube_at(nx, ny, n, y, z) == c + 1);
    }
}

proof fn lemma_slice_adds_up(
    made: Seq<int>,
    nx: int,
    ny: int,
    nz: int,
    wet: Seq<bool>,
    z: int,
    n: int,
)
    requires
        counts_facets(made, nx, ny, nz, wet),
        1 <= nx,
        0 <= z < nz - 1,
        0 <= n <= ny - 1,
    ensures
        before(plus(), 0, made, cube_at(nx, ny, 0, n, z)) == before(
            plus(),
            0,
            made,
            cube_at(nx, ny, 0, 0, z),
        ) + slice_facets(nx, ny, wet, z, n).len(),
    decreases n,
{
    if n > 0 {
        lemma_slice_adds_up(made, nx, ny, nz, wet, z, n - 1);
        lemma_row_adds_up(made, nx, ny, nz, wet, n - 1, z, nx - 1);
        assert(cube_at(nx, ny, nx - 1, n - 1, z) == cube_at(nx, ny, 0, n, z)) by (nonlinear_arith);
    }
}

proof fn lemma_volume_adds_up(
    made: Seq<int>,
    nx: int,
    ny: int,
    nz: int,
    wet: Seq<bool>,
    n: int,
)
    requires
        counts_facets(made, nx, ny, nz, wet),
        1 <= nx,
        1 <= ny,
        0 <= n <= nz - 1,
    ensures
        before(plus(), 0, made, cube_at(nx, ny, 0, 0, n)) == mesh_facets(nx, ny, wet, n).len(),
    decreases n,
{
    if n > 0 {
        lemma_volume_adds_up(made, nx, ny, nz, wet, n - 1);
        lemma_slice_adds_up(made, nx, ny, nz, wet, n - 1, ny - 1);
        assert(cube_at(nx, ny, 0, ny - 1, n - 1) == cube_at(nx, ny, 0, 0, n)) by (nonlinear_arith);
    } else {
        assert(cube_at(nx, ny, 0, 0, 0) == 0) by (nonlinear_arith);
    }
}

/// The total that a surface's rebuild reads past its last cube is the number of
/// facets that the host's mesh has over the same samples, whatever there is room
/// to draw: all that the surface needs, and not what fits. Slivers, which the host
/// drops from what it draws, are counted along.
pub proof fn lemma_total_is_the_mesh(
    made: Seq<int>,
    nx: int,
    ny: int,
    nz: int,
    wet: Seq<bool>,
    k: nat,
)
    requires
        2 <= nx,
        2 <= ny,
        2 <= nz,
        1 <= k <= 31,
        made.len() == pow2(k),
        (nx - 1) * (ny - 1) * (nz - 1) < made.len(),
        counts_facets(made, nx, ny, nz, wet),
    ensures
        run(plus(), 0, made, schedule(k, true))[(nx - 1) * (ny - 1) * (nz - 1)] == mesh_facets(
            nx,
            ny,
            wet,
            nz - 1,
        ).len(),
{
    let cubes = (nx - 1) * (ny - 1) * (nz - 1);
    assert(cubes == cube_at(nx, ny, 0, 0, nz - 1)) by (nonlinear_arith)
        requires
            cubes == (nx - 1) * (ny - 1) * (nz - 1),
    ;
    assert(cubes >= 0) by (nonlinear_arith)
        requires
            cubes == (nx - 1) * (ny - 1) * (nz - 1),
            nx >= 2,
            ny >= 2,
            nz >= 2,
    ;
    lemma_volume_adds_up(made, nx, ny, nz, wet, nz - 1);
    lemma_total_is_the_sum(made, k, cubes);
}

} // verus!
