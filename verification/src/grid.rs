//! A dense uniform grid, rebuilt by counting sort.
//!
//! The bounds are fixed and the cell size is the kernel radius, so a dense grid
//! beats a hash: no modulo, no collisions, and neighbours land contiguously.
//! A flat tank is a grid of one layer.
use vstd::prelude::*;
use crate::single::Single;

verus! {

/// Those of the first `n` particles that lie in cell `c`, in index order.
pub open spec fn members(cells: Seq<usize>, c: int, n: int) -> Seq<u32>
    decreases n,
{
    if n <= 0 {
        Seq::empty()
    } else {
        let before = members(cells, c, n - 1);
        if cells[n - 1] == c {
            before.push((n - 1) as u32)
        } else {
            before
        }
    }
}

/// How many of the first `n` particles lie in a cell numbered below `c`.
pub open spec fn below(cells: Seq<usize>, c: int, n: int) -> int
    decreases n,
{
    if n <= 0 {
        0
    } else {
        below(cells, c, n - 1) + if cells[n - 1] < c {
            1int
        } else {
            0int
        }
    }
}

/// The particles of cell `c`, in index order.
pub open spec fn cell_members(cells: Seq<usize>, c: int) -> Seq<u32> {
    members(cells, c, cells.len() as int)
}

/// The number of the cell in column `x`, row `y` and layer `z`.
pub open spec fn cell_number(cols: int, rows: int, x: int, y: int, z: int) -> int {
    (z * rows + y) * cols + x
}

/// A grid's dimensions: at least one cell each way, and few enough for an `i32`.
pub open spec fn dims_fit(cols: int, rows: int, layers: int) -> bool {
    &&& 1 <= cols
    &&& 1 <= rows
    &&& 1 <= layers
    &&& rows * layers <= i32::MAX
    &&& cols * (rows * layers) <= i32::MAX
}

/// The particles in the cells `x0..=x1` of one row, cell by cell.
pub open spec fn row_candidates(
    cells: Seq<usize>,
    cols: int,
    rows: int,
    x0: int,
    x1: int,
    y: int,
    z: int,
) -> Seq<u32>
    decreases x1 - x0 + 1,
{
    if x1 < x0 {
        Seq::empty()
    } else {
        row_candidates(cells, cols, rows, x0, x1 - 1, y, z) + cell_members(
            cells,
            cell_number(cols, rows, x1, y, z),
        )
    }
}

/// The particles in the rows `y0..=y1` of one layer, row by row.
pub open spec fn layer_candidates(
    cells: Seq<usize>,
    cols: int,
    rows: int,
    x0: int,
    x1: int,
    y0: int,
    y1: int,
    z: int,
) -> Seq<u32>
    decreases y1 - y0 + 1,
{
    if y1 < y0 {
        Seq::empty()
    } else {
        layer_candidates(cells, cols, rows, x0, x1, y0, y1 - 1, z) + row_candidates(
            cells,
            cols,
            rows,
            x0,
            x1,
            y1,
            z,
        )
    }
}

/// The particles in the layers `z0..=z1`, layer by layer.
pub open spec fn box_candidates(
    cells: Seq<usize>,
    cols: int,
    rows: int,
    x0: int,
    x1: int,
    y0: int,
    y1: int,
    z0: int,
    z1: int,
) -> Seq<u32>
    decreases z1 - z0 + 1,
{
    if z1 < z0 {
        Seq::empty()
    } else {
        box_candidates(cells, cols, rows, x0, x1, y0, y1, z0, z1 - 1) + layer_candidates(
            cells,
            cols,
            rows,
            x0,
            x1,
            y0,
            y1,
            z1,
        )
    }
}

/// One before `v`, but not below the first cell.
pub open spec fn one_before(v: int) -> int {
    if v <= 0 {
        0
    } else {
        v - 1
    }
}

/// One after `v`, but not past the last of `size` cells.
pub open spec fn one_after(v: int, size: int) -> int {
    if v + 1 <= size - 1 {
        v + 1
    } else {
        size - 1
    }
}

/// The particles in the cell at `(x, y, z)` and in every cell that touches it.
pub open spec fn candidates_around(
    cells: Seq<usize>,
    cols: int,
    rows: int,
    layers: int,
    x: int,
    y: int,
    z: int,
) -> Seq<u32> {
    box_candidates(
        cells,
        cols,
        rows,
        one_before(x),
        one_after(x, cols),
        one_before(y),
        one_after(y, rows),
        one_before(z),
        one_after(z, layers),
    )
}

/// Every particle's cell exists, and a `u32` can number the particles.
pub open spec fn cells_fit(cells: Seq<usize>, count: int) -> bool {
    &&& cells.len() <= u32::MAX
    &&& forall|i: int| 0 <= i < cells.len() ==> (#[trigger] cells[i]) < count
}

pub proof fn lemma_members_len(cells: Seq<usize>, c: int, n: int)
    requires
        0 <= n <= cells.len(),
    ensures
        members(cells, c, n).len() <= n,
        below(cells, c + 1, n) == below(cells, c, n) + members(cells, c, n).len(),
        0 <= below(cells, c, n) <= n,
    decreases n,
{
    if n > 0 {
        lemma_members_len(cells, c, n - 1);
    }
}

/// Later particles only ever extend a cell's list.
pub proof fn lemma_members_prefix(cells: Seq<usize>, c: int, m: int, n: int)
    requires
        0 <= m <= n <= cells.len(),
    ensures
        members(cells, c, m).len() <= members(cells, c, n).len(),
        forall|k: int|
            0 <= k < members(cells, c, m).len() ==> members(cells, c, n)[k] == #[trigger] members(
                cells,
                c,
                m,
            )[k],
    decreases n - m,
{
    if m < n {
        lemma_members_prefix(cells, c, m, n - 1);
    }
}

/// Every entry of a cell's list is a particle in that cell, in rising order.
pub proof fn lemma_members_sound(cells: Seq<usize>, c: int, n: int)
    requires
        0 <= n <= cells.len(),
        cells.len() <= u32::MAX,
    ensures
        forall|k: int|
            0 <= k < members(cells, c, n).len() ==> {
                &&& (#[trigger] members(cells, c, n)[k]) < n
                &&& cells[members(cells, c, n)[k] as int] == c
            },
        forall|j: int, k: int|
            0 <= j < k < members(cells, c, n).len() ==> (#[trigger] members(cells, c, n)[j])
                < #[trigger] members(cells, c, n)[k],
    decreases n,
{
    if n > 0 {
        lemma_members_sound(cells, c, n - 1);
        let before = members(cells, c, n - 1);
        let m = members(cells, c, n);
        assert forall|k: int| 0 <= k < m.len() implies (#[trigger] m[k]) < n && cells[m[k] as int]
            == c by {
            if k < before.len() {
                assert(m[k] == before[k]);
            }
        }
        assert forall|j: int, k: int| 0 <= j < k < m.len() implies (#[trigger] m[j])
            < #[trigger] m[k] by {
            assert(m[j] == before[j]);
            if k < before.len() {
                assert(m[k] == before[k]);
            }
        }
    }
}

/// Every particle is in its own cell's list.
pub proof fn lemma_members_complete(cells: Seq<usize>, n: int, i: int)
    requires
        0 <= i < n <= cells.len(),
        cells.len() <= u32::MAX,
    ensures
        members(cells, cells[i] as int, n).contains(i as u32),
    decreases n,
{
    let c = cells[i] as int;
    if i == n - 1 {
        let m = members(cells, c, n);
        assert(m[m.len() - 1] == i as u32);
    } else {
        lemma_members_complete(cells, n - 1, i);
        let before = members(cells, c, n - 1);
        let k = choose|k: int| 0 <= k < before.len() && before[k] == i as u32;
        assert(members(cells, c, n)[k] == i as u32);
    }
}

/// Cells listed later start no earlier.
pub proof fn lemma_below_monotone(cells: Seq<usize>, c: int, d: int, n: int)
    requires
        0 <= n <= cells.len(),
        c <= d,
    ensures
        below(cells, c, n) <= below(cells, d, n),
    decreases n,
{
    if n > 0 {
        lemma_below_monotone(cells, c, d, n - 1);
    }
}

/// No particle lies below cell 0, and all lie below the last cell's end.
pub proof fn lemma_below_ends(cells: Seq<usize>, count: int, n: int)
    requires
        0 <= n <= cells.len(),
        forall|i: int| 0 <= i < cells.len() ==> (#[trigger] cells[i]) < count,
    ensures
        below(cells, 0, n) == 0,
        below(cells, count, n) == n,
    decreases n,
{
    if n > 0 {
        lemma_below_ends(cells, count, n - 1);
    }
}

/// A cell inside the grid has a number inside the grid.
pub proof fn lemma_cell_number(cols: int, rows: int, layers: int, x: int, y: int, z: int)
    requires
        0 <= x < cols,
        0 <= y < rows,
        0 <= z < layers,
    ensures
        0 <= z * rows + y < rows * layers,
        0 <= cell_number(cols, rows, x, y, z) < cols * (rows * layers),
{
    let w = z * rows + y;
    assert(0 <= w < rows * layers) by (nonlinear_arith)
        requires
            w == z * rows + y,
            0 <= y < rows,
            0 <= z < layers,
    ;
    assert(0 <= w * cols + x < cols * (rows * layers)) by (nonlinear_arith)
        requires
            0 <= w < rows * layers,
            0 <= x < cols,
    ;
}

/// Uniform grid over the simulation bounds.
pub struct Grid {
    pub cols: usize,
    pub rows: usize,
    pub layers: usize,
    /// Start offset of each cell into `sorted`, plus a trailing total.
    pub cell_start: Vec<u32>,
    /// Scratch copy of `cell_start` used as a write cursor while scattering.
    pub cursor: Vec<u32>,
    /// Particle indices ordered by cell.
    pub sorted: Vec<u32>,
}

/// Cells along an axis, from its length measured in cells: enough to cover it,
/// and one more.
pub open spec fn side(lengths: Single) -> int {
    lengths.ceil_as_i32() + 1
}

/// Cells along an axis that is `lengths` cells long.
pub fn cells_along(lengths: Single) -> (cells: i32)
    requires
        lengths.ceil_as_i32() < i32::MAX,
    ensures
        cells == side(lengths),
        cells == lengths.ceil_as_i32() + 1,
{
    lengths.ceil_i32() + 1
}

/// Whether a grid can have these sides.
pub fn sides_fit(cols: i32, rows: i32, layers: i32) -> (fit: bool)
    ensures
        fit == dims_fit(cols as int, rows as int, layers as int),
        fit <==> 1 <= cols && 1 <= rows && 1 <= layers && rows * layers <= 0x7fff_ffff && cols * (
        rows * layers) <= 0x7fff_ffff,
{
    if cols < 1 || rows < 1 || layers < 1 {
        return false;
    }
    proof {
        assert(0 <= rows * layers <= 0x7fff_ffff * 0x7fff_ffff) by (nonlinear_arith)
            requires
                1 <= rows <= 0x7fff_ffff,
                1 <= layers <= 0x7fff_ffff,
        ;
    }
    let flat: u64 = rows as u64 * layers as u64;
    if flat > 0x7fff_ffff {
        return false;
    }
    proof {
        assert(0 <= cols * flat <= 0x7fff_ffff * 0x7fff_ffff) by (nonlinear_arith)
            requires
                1 <= cols <= 0x7fff_ffff,
                0 <= flat <= 0x7fff_ffff,
        ;
    }
    cols as u64 * flat <= 0x7fff_ffff
}

impl Grid {
    /// The number of cells.
    pub open spec fn count(&self) -> int {
        self.cols * (self.rows * self.layers)
    }

    /// The grid lists particles by cell, where particle `i` lies in cell `cells[i]`:
    /// cell `c` owns the stretch of the order from its start to the next cell's,
    /// and lists its particles there in index order.
    pub open spec fn holds(&self, cells: Seq<usize>) -> bool {
        &&& dims_fit(self.cols as int, self.rows as int, self.layers as int)
        &&& cells_fit(cells, self.count())
        &&& self.cell_start@.len() == self.count() + 1
        &&& self.sorted@.len() == cells.len()
        &&& forall|c: int|
            0 <= c <= self.count() ==> #[trigger] self.cell_start@[c] == below(
                cells,
                c,
                cells.len() as int,
            )
        &&& forall|c: int, k: int|
            #![trigger cell_members(cells, c)[k]]
            0 <= c < self.count() && 0 <= k < cell_members(cells, c).len() ==> self.sorted@[below(
                cells,
                c,
                cells.len() as int,
            ) + k] == cell_members(cells, c)[k]
    }

    /// The grid lists some placement of particles.
    pub open spec fn wf(&self) -> bool {
        exists|cells: Seq<usize>| self.holds(cells)
    }

    /// The scratch space matches the grid's size.
    pub open spec fn scratch_fits(&self) -> bool {
        self.cursor@.len() == self.cell_start@.len()
    }

    /// An empty grid.
    pub fn new(cols: usize, rows: usize, layers: usize) -> (grid: Grid)
        requires
            dims_fit(cols as int, rows as int, layers as int),
        ensures
            grid.cols == cols,
            grid.rows == rows,
            grid.layers == layers,
            grid.holds(Seq::empty()),
            grid.scratch_fits(),
    {
        let cells: usize = cols * (rows * layers);
        let grid = Grid {
            cols,
            rows,
            layers,
            cell_start: vec![0u32; cells + 1],
            cursor: vec![0u32; cells + 1],
            sorted: Vec::new(),
        };
        assert(grid.holds(Seq::empty()));
        grid
    }

    /// Sorts the particles into the grid, where particle `i` lies in cell
    /// `cells[i]`: counts them, turns the counts into offsets, and scatters.
    #[verifier::spinoff_prover]
    #[verifier::rlimit(40)]
    pub fn rebuild(&mut self, cells: &Vec<usize>)
        requires
            old(self).wf(),
            old(self).scratch_fits(),
            cells_fit(cells@, old(self).count()),
        ensures
            final(self).cols == old(self).cols,
            final(self).rows == old(self).rows,
            final(self).layers == old(self).layers,
            final(self).holds(cells@),
            final(self).scratch_fits(),
    {
        let ghost count = self.count();
        let ghost n = cells@.len() as int;
        let total: usize = self.cell_start.len();
        let mut i: usize = 0;
        while i < total
            invariant
                i <= total,
                total == self.cell_start@.len(),
                self.cursor@.len() == total,
                self.cols == old(self).cols,
                self.rows == old(self).rows,
                self.layers == old(self).layers,
                forall|k: int| 0 <= k < i ==> self.cell_start@[k] == 0,
            decreases total - i,
        {
            self.cell_start.set(i, 0);
            i += 1;
        }
        // Counts are written one slot high so the prefix sum below turns them
        // directly into start offsets.
        let mut i: usize = 0;
        while i < cells.len()
            invariant
                i <= cells@.len(),
                count == self.count(),
                self.cols == old(self).cols,
                self.rows == old(self).rows,
                self.layers == old(self).layers,
                total == count + 1,
                total == self.cell_start@.len(),
                self.cursor@.len() == total,
                cells_fit(cells@, count),
                self.cell_start@[0] == 0,
                forall|c: int|
                    1 <= c <= count ==> #[trigger] self.cell_start@[c] == members(
                        cells@,
                        c - 1,
                        i as int,
                    ).len(),
            decreases cells@.len() - i,
        {
            let c: usize = cells[i];
            proof {
                lemma_members_len(cells@, c as int, i as int);
                assert(self.cell_start@[c as int + 1] == members(cells@, c as int, i as int).len());
            }
            let ghost before = self.cell_start@;
            let v: u32 = self.cell_start[c + 1];
            self.cell_start.set(c + 1, v + 1);
            proof {
                assert forall|d: int| 1 <= d <= count implies #[trigger] self.cell_start@[d]
                    == members(cells@, d - 1, i + 1).len() by {
                    assert(before[d] == members(cells@, d - 1, i as int).len());
                }
            }
            i += 1;
        }
        let mut i: usize = 1;
        proof {
            lemma_below_ends(cells@, count, n);
        }
        while i < total
            invariant
                1 <= i <= total,
                n == cells@.len(),
                count == self.count(),
                self.cols == old(self).cols,
                self.rows == old(self).rows,
                self.layers == old(self).layers,
                total == count + 1,
                total == self.cell_start@.len(),
                self.cursor@.len() == total,
                cells_fit(cells@, count),
                forall|c: int|
                    0 <= c < i ==> #[trigger] self.cell_start@[c] == below(cells@, c, n),
                forall|c: int|
                    i <= c <= count ==> #[trigger] self.cell_start@[c] == members(
                        cells@,
                        c - 1,
                        n,
                    ).len(),
            decreases total - i,
        {
            proof {
                lemma_members_len(cells@, i - 1, n);
                lemma_members_len(cells@, i as int, n);
            }
            let here: u32 = self.cell_start[i];
            let before: u32 = self.cell_start[i - 1];
            self.cell_start.set(i, here + before);
            i += 1;
        }
        let mut i: usize = 0;
        while i < total
            invariant
                i <= total,
                total == self.cell_start@.len(),
                total == count + 1,
                count == self.count(),
                self.cursor@.len() == total,
                self.cols == old(self).cols,
                self.rows == old(self).rows,
                self.layers == old(self).layers,
                forall|c: int|
                    0 <= c < total ==> #[trigger] self.cell_start@[c] == below(cells@, c, n),
                forall|c: int| 0 <= c < i ==> #[trigger] self.cursor@[c] == below(cells@, c, n),
            decreases total - i,
        {
            let v: u32 = self.cell_start[i];
            self.cursor.set(i, v);
            i += 1;
        }
        self.sorted.resize(cells.len(), 0);
        let mut i: usize = 0;
        while i < cells.len()
            invariant
                i <= cells@.len(),
                n == cells@.len(),
                self.sorted@.len() == n,
                count == self.count(),
                self.cols == old(self).cols,
                self.rows == old(self).rows,
                self.layers == old(self).layers,
                total == count + 1,
                total == self.cell_start@.len(),
                self.cursor@.len() == total,
                cells_fit(cells@, count),
                below(cells@, count, n) == n,
                forall|c: int|
                    0 <= c <= count ==> #[trigger] self.cell_start@[c] == below(cells@, c, n),
                forall|c: int|
                    0 <= c < count ==> #[trigger] self.cursor@[c] == below(cells@, c, n) + members(
                        cells@,
                        c,
                        i as int,
                    ).len(),
                forall|c: int, k: int|
                    #![trigger members(cells@, c, i as int)[k]]
                    0 <= c < count && 0 <= k < members(cells@, c, i as int).len()
                        ==> self.sorted@[below(cells@, c, n) + k] == members(
                        cells@,
                        c,
                        i as int,
                    )[k],
            decreases cells@.len() - i,
        {
            let c: usize = cells[i];
            let ghost m = members(cells@, c as int, i as int);
            proof {
                lemma_members_prefix(cells@, c as int, i + 1, n);
                lemma_members_len(cells@, c as int, n);
                lemma_below_monotone(cells@, c + 1, count, n);
                assert(self.cursor@[c as int] == below(cells@, c as int, n) + m.len());
            }
            let slot: u32 = self.cursor[c];
            let ghost sorted0 = self.sorted@;
            let ghost cursor0 = self.cursor@;
            self.sorted.set(slot as usize, i as u32);
            self.cursor.set(c, slot + 1);
            proof {
                assert forall|d: int| 0 <= d < count implies #[trigger] self.cursor@[d] == below(
                    cells@,
                    d,
                    n,
                ) + members(cells@, d, i + 1).len() by {
                    assert(cursor0[d] == below(cells@, d, n) + members(cells@, d, i as int).len());
                }
                assert forall|d: int, k: int|
                    #![trigger members(cells@, d, i + 1)[k]]
                    0 <= d < count && 0 <= k < members(cells@, d, i + 1).len() implies self.sorted@[
                below(cells@, d, n) + k] == members(cells@, d, i + 1)[k] by {
                    let md = members(cells@, d, i as int);
                    lemma_members_prefix(cells@, d, i + 1, n);
                    lemma_members_len(cells@, d, n);
                    lemma_below_monotone(cells@, d + 1, count, n);
                    if d == c {
                        if k < md.len() {
                            assert(md[k] == members(cells@, d, i + 1)[k]);
                        }
                    } else {
                        assert(md[k] == members(cells@, d, i + 1)[k]);
                        if d < c {
                            lemma_below_monotone(cells@, d + 1, c as int, n);
                        } else {
                            lemma_below_monotone(cells@, c + 1, d, n);
                        }
                    }
                }
            }
            i += 1;
        }
        proof {
            assert(self.holds(cells@));
        }
    }

    /// The cell a point lies in, from its offset into the grid in cells. Points
    /// outside the grid count towards the nearest cell at its edge.
    pub fn cell_of(&self, x: Single, y: Single, z: Single) -> (cell: (usize, usize, usize))
        requires
            dims_fit(self.cols as int, self.rows as int, self.layers as int),
        ensures
            cell.0 == along(x, self.cols as int),
            cell.1 == along(y, self.rows as int),
            cell.2 == along(z, self.layers as int),
            cell.0 < self.cols,
            cell.1 < self.rows,
            cell.2 < self.layers,
    {
        proof {
            lemma_dims(self.cols as int, self.rows as int, self.layers as int);
        }
        (clamp_cell(x, self.cols), clamp_cell(y, self.rows), clamp_cell(z, self.layers))
    }

    /// The number of the cell at `(x, y, z)`.
    pub fn number(&self, x: usize, y: usize, z: usize) -> (c: usize)
        requires
            dims_fit(self.cols as int, self.rows as int, self.layers as int),
            x < self.cols,
            y < self.rows,
            z < self.layers,
        ensures
            c == cell_number(self.cols as int, self.rows as int, x as int, y as int, z as int),
            c == (z * self.rows + y) * self.cols + x,
            c < self.count(),
    {
        proof {
            lemma_cell_number(
                self.cols as int,
                self.rows as int,
                self.layers as int,
                x as int,
                y as int,
                z as int,
            );
            assert(z * self.rows <= self.rows * self.layers) by (nonlinear_arith)
                requires
                    z < self.layers,
                    self.rows >= 0,
            ;
            let w = z * self.rows + y;
            assert(w * self.cols <= self.cols * (self.rows * self.layers)) by (nonlinear_arith)
                requires
                    0 <= w < self.rows * self.layers,
                    self.cols >= 0,
            ;
        }
        (z * self.rows + y) * self.cols + x
    }

    /// Appends the particles of cell `c`, in index order.
    fn append_cell(&self, c: usize, out: &mut Vec<u32>)
        requires
            self.wf(),
            c < self.count(),
        ensures
            forall|cells: Seq<usize>| #[trigger]
                self.holds(cells) ==> final(out)@ == old(out)@ + cell_members(cells, c as int),
    {
        let ghost placed = choose|cells: Seq<usize>| self.holds(cells);
        let from: u32 = self.cell_start[c];
        let to: u32 = self.cell_start[c + 1];
        proof {
            let n = placed.len() as int;
            lemma_members_len(placed, c as int, n);
            lemma_members_len(placed, c + 1, n);
            assert(self.cell_start@[c as int] == below(placed, c as int, n));
            assert(self.cell_start@[c + 1] == below(placed, c + 1, n));
        }
        let mut k: u32 = from;
        while k < to
            invariant
                from <= k <= to,
                to <= self.sorted@.len(),
                out@ == old(out)@ + self.sorted@.subrange(from as int, k as int),
            decreases to - k,
        {
            let j: u32 = self.sorted[k as usize];
            out.push(j);
            proof {
                assert(self.sorted@.subrange(from as int, k + 1) =~= self.sorted@.subrange(
                    from as int,
                    k as int,
                ).push(j));
            }
            k += 1;
        }
        proof {
            assert forall|cells: Seq<usize>| #[trigger] self.holds(cells) implies out@ == old(out)@
                + cell_members(cells, c as int) by {
                let n = cells.len() as int;
                lemma_members_len(cells, c as int, n);
                assert(self.cell_start@[c as int] == below(cells, c as int, n));
                assert(self.cell_start@[c + 1] == below(cells, c + 1, n));
                assert(self.sorted@.subrange(from as int, to as int) =~= cell_members(
                    cells,
                    c as int,
                )) by {
                    assert forall|k: int| 0 <= k < cell_members(cells, c as int).len() implies
                        self.sorted@[from + k] == cell_members(cells, c as int)[k] by {}
                }
            }
        }
    }

    /// Every particle in the cell at `(x, y, z)` or a cell that touches it, in
    /// cell order, and in index order within a cell.
    #[verifier::rlimit(40)]
    pub fn candidates(&self, x: usize, y: usize, z: usize) -> (out: Vec<u32>)
        requires
            self.wf(),
            x < self.cols,
            y < self.rows,
            z < self.layers,
        ensures
            forall|cells: Seq<usize>| #[trigger]
                self.holds(cells) ==> out@ == candidates_around(
                    cells,
                    self.cols as int,
                    self.rows as int,
                    self.layers as int,
                    x as int,
                    y as int,
                    z as int,
                ),
    {
        let x0: usize = if x == 0 {
            0
        } else {
            x - 1
        };
        let y0: usize = if y == 0 {
            0
        } else {
            y - 1
        };
        let z0: usize = if z == 0 {
            0
        } else {
            z - 1
        };
        let x1: usize = if x < self.cols - 1 {
            x + 1
        } else {
            x
        };
        let y1: usize = if y < self.rows - 1 {
            y + 1
        } else {
            y
        };
        let z1: usize = if z < self.layers - 1 {
            z + 1
        } else {
            z
        };
        let ghost (cols, rows) = (self.cols as int, self.rows as int);
        let mut out: Vec<u32> = Vec::new();
        let mut gz: usize = z0;
        while gz <= z1
            invariant
                self.wf(),
                z0 <= gz <= z1 + 1,
                z1 < self.layers,
                y0 <= y1 < self.rows,
                x0 <= x1 < self.cols,
                dims_fit(self.cols as int, self.rows as int, self.layers as int),
                cols == self.cols,
                rows == self.rows,
                forall|cells: Seq<usize>| #[trigger]
                    self.holds(cells) ==> out@ == box_candidates(
                        cells,
                        cols,
                        rows,
                        x0 as int,
                        x1 as int,
                        y0 as int,
                        y1 as int,
                        z0 as int,
                        gz - 1,
                    ),
            decreases z1 + 1 - gz,
        {
            let ghost base = out@;
            let mut gy: usize = y0;
            while gy <= y1
                invariant
                    self.wf(),
                    gz < self.layers,
                    y0 <= gy <= y1 + 1,
                    y1 < self.rows,
                    x0 <= x1 < self.cols,
                    dims_fit(self.cols as int, self.rows as int, self.layers as int),
                    cols == self.cols,
                    rows == self.rows,
                    forall|cells: Seq<usize>| #[trigger]
                        self.holds(cells) ==> out@ == base + layer_candidates(
                            cells,
                            cols,
                            rows,
                            x0 as int,
                            x1 as int,
                            y0 as int,
                            gy - 1,
                            gz as int,
                        ),
                decreases y1 + 1 - gy,
            {
                let ghost row_base = out@;
                let mut gx: usize = x0;
                while gx <= x1
                    invariant
                        self.wf(),
                        gz < self.layers,
                        gy < self.rows,
                        x0 <= gx <= x1 + 1,
                        x1 < self.cols,
                        dims_fit(self.cols as int, self.rows as int, self.layers as int),
                        cols == self.cols,
                        rows == self.rows,
                        forall|cells: Seq<usize>| #[trigger]
                            self.holds(cells) ==> out@ == row_base + row_candidates(
                                cells,
                                cols,
                                rows,
                                x0 as int,
                                gx - 1,
                                gy as int,
                                gz as int,
                            ),
                    decreases x1 + 1 - gx,
                {
                    let cell: usize = self.number(gx, gy, gz);
                    let ghost before = out@;
                    self.append_cell(cell, &mut out);
                    proof {
                        assert forall|cells: Seq<usize>| #[trigger] self.holds(cells) implies out@
                            == row_base + row_candidates(
                            cells,
                            cols,
                            rows,
                            x0 as int,
                            gx as int,
                            gy as int,
                            gz as int,
                        ) by {
                            assert(out@ =~= row_base + (row_candidates(
                                cells,
                                cols,
                                rows,
                                x0 as int,
                                gx - 1,
                                gy as int,
                                gz as int,
                            ) + cell_members(cells, cell as int)));
                        }
                    }
                    gx += 1;
                }
                proof {
                    assert forall|cells: Seq<usize>| #[trigger] self.holds(cells) implies out@
                        == base + layer_candidates(
                        cells,
                        cols,
                        rows,
                        x0 as int,
                        x1 as int,
                        y0 as int,
                        gy as int,
                        gz as int,
                    ) by {
                        assert(out@ =~= base + (layer_candidates(
                            cells,
                            cols,
                            rows,
                            x0 as int,
                            x1 as int,
                            y0 as int,
                            gy - 1,
                            gz as int,
                        ) + row_candidates(
                            cells,
                            cols,
                            rows,
                            x0 as int,
                            x1 as int,
                            gy as int,
                            gz as int,
                        )));
                    }
                }
                gy += 1;
            }
            gz += 1;
        }
        out
    }
}

/// The cell along one axis for an offset in cells: rounded towards zero, and
/// held inside the grid.
pub open spec fn along(v: Single, size: int) -> int {
    if v.as_i32() < 0 {
        0
    } else if v.as_i32() > size - 1 {
        size - 1
    } else {
        v.as_i32()
    }
}

fn clamp_cell(v: Single, size: usize) -> (c: usize)
    requires
        1 <= size <= i32::MAX,
    ensures
        c == along(v, size as int),
        c < size,
{
    let i: i32 = v.to_i32();
    if i < 0 {
        0
    } else if i as usize > size - 1 {
        size - 1
    } else {
        i as usize
    }
}

/// Each side of a grid of cells that an `i32` can count is itself within one.
pub proof fn lemma_dims(cols: int, rows: int, layers: int)
    requires
        dims_fit(cols, rows, layers),
    ensures
        cols <= i32::MAX,
        rows <= i32::MAX,
        layers <= i32::MAX,
{
    assert(1 <= rows * layers && rows <= rows * layers && layers <= rows * layers)
        by (nonlinear_arith)
        requires
            1 <= rows,
            1 <= layers,
    ;
    let w = rows * layers;
    assert(cols <= cols * w) by (nonlinear_arith)
        requires
            1 <= cols,
            1 <= w,
    ;
}

/// The cells of one row are listed exactly: particle `j` is among them just
/// where its own cell is.
pub proof fn lemma_row_candidates(
    cells: Seq<usize>,
    cols: int,
    rows: int,
    x0: int,
    x1: int,
    y: int,
    z: int,
    j: u32,
)
    requires
        cells.len() <= u32::MAX,
    ensures
        row_candidates(cells, cols, rows, x0, x1, y, z).contains(j) <==> j < cells.len() && exists|
            x: int,
        |
            x0 <= x <= x1 && cells[j as int] == #[trigger] cell_number(cols, rows, x, y, z),
    decreases x1 - x0 + 1,
{
    if x0 <= x1 {
        lemma_row_candidates(cells, cols, rows, x0, x1 - 1, y, z, j);
        let c = cell_number(cols, rows, x1, y, z);
        lemma_cell_contains(cells, c, j);
        let a = row_candidates(cells, cols, rows, x0, x1 - 1, y, z);
        let b = cell_members(cells, c);
        lemma_concat_contains(a, b, j);
    }
}

/// As [`lemma_row_candidates`], over the rows of a layer.
pub proof fn lemma_layer_candidates(
    cells: Seq<usize>,
    cols: int,
    rows: int,
    x0: int,
    x1: int,
    y0: int,
    y1: int,
    z: int,
    j: u32,
)
    requires
        cells.len() <= u32::MAX,
    ensures
        layer_candidates(cells, cols, rows, x0, x1, y0, y1, z).contains(j) <==> j < cells.len()
            && exists|x: int, y: int|
            x0 <= x <= x1 && y0 <= y <= y1 && cells[j as int] == #[trigger] cell_number(
                cols,
                rows,
                x,
                y,
                z,
            ),
    decreases y1 - y0 + 1,
{
    if y0 <= y1 {
        lemma_layer_candidates(cells, cols, rows, x0, x1, y0, y1 - 1, z, j);
        lemma_row_candidates(cells, cols, rows, x0, x1, y1, z, j);
        lemma_concat_contains(
            layer_candidates(cells, cols, rows, x0, x1, y0, y1 - 1, z),
            row_candidates(cells, cols, rows, x0, x1, y1, z),
            j,
        );
    }
}

/// As [`lemma_row_candidates`], over a box of cells.
pub proof fn lemma_box_candidates(
    cells: Seq<usize>,
    cols: int,
    rows: int,
    x0: int,
    x1: int,
    y0: int,
    y1: int,
    z0: int,
    z1: int,
    j: u32,
)
    requires
        cells.len() <= u32::MAX,
    ensures
        box_candidates(cells, cols, rows, x0, x1, y0, y1, z0, z1).contains(j) <==> j < cells.len()
            && exists|x: int, y: int, z: int|
            x0 <= x <= x1 && y0 <= y <= y1 && z0 <= z <= z1 && cells[j as int]
                == #[trigger] cell_number(cols, rows, x, y, z),
    decreases z1 - z0 + 1,
{
    if z0 <= z1 {
        lemma_box_candidates(cells, cols, rows, x0, x1, y0, y1, z0, z1 - 1, j);
        lemma_layer_candidates(cells, cols, rows, x0, x1, y0, y1, z1, j);
        lemma_concat_contains(
            box_candidates(cells, cols, rows, x0, x1, y0, y1, z0, z1 - 1),
            layer_candidates(cells, cols, rows, x0, x1, y0, y1, z1),
            j,
        );
    }
}

proof fn lemma_concat_contains(a: Seq<u32>, b: Seq<u32>, j: u32)
    ensures
        (a + b).contains(j) <==> a.contains(j) || b.contains(j),
{
    let s = a + b;
    if a.contains(j) {
        let k = choose|k: int| 0 <= k < a.len() && a[k] == j;
        assert(s[k] == j);
    }
    if b.contains(j) {
        let k = choose|k: int| 0 <= k < b.len() && b[k] == j;
        assert(s[a.len() + k] == j);
    }
}

/// A cell lists exactly the particles that lie in it.
pub proof fn lemma_cell_contains(cells: Seq<usize>, c: int, j: u32)
    requires
        cells.len() <= u32::MAX,
    ensures
        cell_members(cells, c).contains(j) <==> j < cells.len() && cells[j as int] == c,
{
    lemma_members_sound(cells, c, cells.len() as int);
    if j < cells.len() && cells[j as int] == c {
        lemma_members_complete(cells, cells.len() as int, j as int);
        assert(j as int as u32 == j);
    }
    if cell_members(cells, c).contains(j) {
        let k = choose|k: int|
            0 <= k < cell_members(cells, c).len() && cell_members(cells, c)[k] == j;
        assert(members(cells, c, cells.len() as int)[k] == j);
    }
}

/// Two cells of a grid have one number only if they are the same cell.
pub proof fn lemma_cell_number_injective(
    cols: int,
    rows: int,
    x: int,
    y: int,
    z: int,
    u: int,
    v: int,
    w: int,
)
    requires
        0 <= x < cols,
        0 <= u < cols,
        0 <= y < rows,
        0 <= v < rows,
        cell_number(cols, rows, x, y, z) == cell_number(cols, rows, u, v, w),
    ensures
        x == u,
        y == v,
        z == w,
{
    lemma_digits(cols, z * rows + y, x, w * rows + v, u);
    lemma_digits(rows, z, y, w, v);
}

/// A number has one quotient and one remainder by `base`.
pub proof fn lemma_digits(base: int, a: int, r: int, b: int, s: int)
    requires
        0 <= r < base,
        0 <= s < base,
        a * base + r == b * base + s,
    ensures
        a == b,
        r == s,
{
    if a < b {
        assert(a * base + base <= b * base) by (nonlinear_arith)
            requires
                a < b,
                0 < base,
        ;
    } else if b < a {
        assert(b * base + base <= a * base) by (nonlinear_arith)
            requires
                b < a,
                0 < base,
        ;
    }
}

/// The candidates around a cell are the particles of the cells next to it, and
/// no others: particle `j`, in the cell at `(u, v, w)`, is a candidate around
/// `(x, y, z)` exactly where the two cells are at most one apart on every axis.
pub proof fn lemma_candidates_are_the_adjacent(
    cells: Seq<usize>,
    cols: int,
    rows: int,
    layers: int,
    x: int,
    y: int,
    z: int,
    j: u32,
    u: int,
    v: int,
    w: int,
)
    requires
        cells.len() <= u32::MAX,
        0 <= x < cols,
        0 <= y < rows,
        0 <= z < layers,
        0 <= u < cols,
        0 <= v < rows,
        0 <= w < layers,
        j < cells.len(),
        cells[j as int] == cell_number(cols, rows, u, v, w),
    ensures
        candidates_around(cells, cols, rows, layers, x, y, z).contains(j) <==> -1 <= u - x <= 1
            && -1 <= v - y <= 1 && -1 <= w - z <= 1,
{
    let (x0, x1) = (one_before(x), one_after(x, cols));
    let (y0, y1) = (one_before(y), one_after(y, rows));
    let (z0, z1) = (one_before(z), one_after(z, layers));
    lemma_box_candidates(cells, cols, rows, x0, x1, y0, y1, z0, z1, j);
    if candidates_around(cells, cols, rows, layers, x, y, z).contains(j) {
        let (a, b, c) = choose|a: int, b: int, c: int|
            x0 <= a <= x1 && y0 <= b <= y1 && z0 <= c <= z1 && cells[j as int]
                == #[trigger] cell_number(cols, rows, a, b, c);
        lemma_cell_number_injective(cols, rows, u, v, w, a, b, c);
    }
}

/// No particle is listed twice among the candidates around a cell.
pub proof fn lemma_candidates_once(
    cells: Seq<usize>,
    cols: int,
    rows: int,
    layers: int,
    x: int,
    y: int,
    z: int,
)
    requires
        cells.len() <= u32::MAX,
        0 <= x < cols,
        0 <= y < rows,
        0 <= z < layers,
    ensures
        candidates_around(cells, cols, rows, layers, x, y, z).no_duplicates(),
{
    lemma_box_once(
        cells,
        cols,
        rows,
        one_before(x),
        one_after(x, cols),
        one_before(y),
        one_after(y, rows),
        one_before(z),
        one_after(z, layers),
    );
}

proof fn lemma_row_once(
    cells: Seq<usize>,
    cols: int,
    rows: int,
    x0: int,
    x1: int,
    y: int,
    z: int,
)
    requires
        cells.len() <= u32::MAX,
        0 <= x0,
        x1 < cols,
        0 <= y < rows,
    ensures
        row_candidates(cells, cols, rows, x0, x1, y, z).no_duplicates(),
    decreases x1 - x0 + 1,
{
    if x0 <= x1 {
        lemma_row_once(cells, cols, rows, x0, x1 - 1, y, z);
        let a = row_candidates(cells, cols, rows, x0, x1 - 1, y, z);
        let c = cell_number(cols, rows, x1, y, z);
        let b = cell_members(cells, c);
        lemma_members_sound(cells, c, cells.len() as int);
        assert(b.no_duplicates());
        assert forall|i: int, k: int| 0 <= i < a.len() && 0 <= k < b.len() implies a[i] != b[k] by {
            let j = a[i];
            assert(a.contains(j));
            lemma_row_candidates(cells, cols, rows, x0, x1 - 1, y, z, j);
            let x = choose|x: int|
                x0 <= x <= x1 - 1 && cells[j as int] == #[trigger] cell_number(cols, rows, x, y, z);
            if a[i] == b[k] {
                assert(b.contains(j));
                lemma_cell_contains(cells, c, j);
                lemma_cell_number_injective(cols, rows, x, y, z, x1, y, z);
            }
        }
        vstd::seq_lib::lemma_no_dup_in_concat(a, b);
    }
}

proof fn lemma_layer_once(
    cells: Seq<usize>,
    cols: int,
    rows: int,
    x0: int,
    x1: int,
    y0: int,
    y1: int,
    z: int,
)
    requires
        cells.len() <= u32::MAX,
        0 <= x0,
        x1 < cols,
        0 <= y0,
        y1 < rows,
    ensures
        layer_candidates(cells, cols, rows, x0, x1, y0, y1, z).no_duplicates(),
    decreases y1 - y0 + 1,
{
    if y0 <= y1 {
        lemma_layer_once(cells, cols, rows, x0, x1, y0, y1 - 1, z);
        lemma_row_once(cells, cols, rows, x0, x1, y1, z);
        let a = layer_candidates(cells, cols, rows, x0, x1, y0, y1 - 1, z);
        let b = row_candidates(cells, cols, rows, x0, x1, y1, z);
        assert forall|i: int, k: int| 0 <= i < a.len() && 0 <= k < b.len() implies a[i] != b[k] by {
            let j = a[i];
            assert(a.contains(j));
            lemma_layer_candidates(cells, cols, rows, x0, x1, y0, y1 - 1, z, j);
            let (x, y) = choose|x: int, y: int|
                x0 <= x <= x1 && y0 <= y <= y1 - 1 && cells[j as int] == #[trigger] cell_number(
                    cols,
                    rows,
                    x,
                    y,
                    z,
                );
            if a[i] == b[k] {
                assert(b.contains(j));
                lemma_row_candidates(cells, cols, rows, x0, x1, y1, z, j);
                let u = choose|u: int|
                    x0 <= u <= x1 && cells[j as int] == #[trigger] cell_number(
                        cols,
                        rows,
                        u,
                        y1,
                        z,
                    );
                lemma_cell_number_injective(cols, rows, x, y, z, u, y1, z);
            }
        }
        vstd::seq_lib::lemma_no_dup_in_concat(a, b);
    }
}

proof fn lemma_box_once(
    cells: Seq<usize>,
    cols: int,
    rows: int,
    x0: int,
    x1: int,
    y0: int,
    y1: int,
    z0: int,
    z1: int,
)
    requires
        cells.len() <= u32::MAX,
        0 <= x0,
        x1 < cols,
        0 <= y0,
        y1 < rows,
    ensures
        box_candidates(cells, cols, rows, x0, x1, y0, y1, z0, z1).no_duplicates(),
    decreases z1 - z0 + 1,
{
    if z0 <= z1 {
        lemma_box_once(cells, cols, rows, x0, x1, y0, y1, z0, z1 - 1);
        lemma_layer_once(cells, cols, rows, x0, x1, y0, y1, z1);
        let a = box_candidates(cells, cols, rows, x0, x1, y0, y1, z0, z1 - 1);
        let b = layer_candidates(cells, cols, rows, x0, x1, y0, y1, z1);
        assert forall|i: int, k: int| 0 <= i < a.len() && 0 <= k < b.len() implies a[i] != b[k] by {
            let j = a[i];
            assert(a.contains(j));
            lemma_box_candidates(cells, cols, rows, x0, x1, y0, y1, z0, z1 - 1, j);
            let (x, y, z) = choose|x: int, y: int, z: int|
                x0 <= x <= x1 && y0 <= y <= y1 && z0 <= z <= z1 - 1 && cells[j as int]
                    == #[trigger] cell_number(cols, rows, x, y, z);
            if a[i] == b[k] {
                assert(b.contains(j));
                lemma_layer_candidates(cells, cols, rows, x0, x1, y0, y1, z1, j);
                let (u, v) = choose|u: int, v: int|
                    x0 <= u <= x1 && y0 <= v <= y1 && cells[j as int] == #[trigger] cell_number(
                        cols,
                        rows,
                        u,
                        v,
                        z1,
                    );
                lemma_cell_number_injective(cols, rows, x, y, z, u, v, z1);
            }
        }
        vstd::seq_lib::lemma_no_dup_in_concat(a, b);
    }
}

} // verus!
