//! The solver on a compute device: what runs, in what order, and how large the
//! buffers are.
//!
//! The particles stay on the device. The one structural difference from the
//! host's bookkeeping is the neighbour lists: every particle gets a fixed number
//! of slots, which avoids a readback per substep to size the buffer. The
//! capacity is generous, grows if it is ever exceeded, and the largest
//! neighbourhood seen is tracked.
use vstd::prelude::*;
use vstd::arithmetic::power2::pow2;
use crate::gpu::{Buffer, Command, Extra, GridOf, Group, Kernel, Levels, Span};
use crate::gpu::{run, run_levels};
use crate::gpu_params::{Impulse, Quad, Sizes};
use crate::sim::Fluid;
use crate::sim_gpu::Pass;
use crate::single::{zero, Point, Single};

verus! {

/// Steps between renumbering the particles into grid order.
pub const RENUMBER_EVERY: u32 = 1;

/// A hit is reported with how far along the ray it lies, negated; this stands
/// for none.
pub const NO_HIT: u32 = 0xff61_b1e6;

/// The bits of a quantity with nothing to report.
pub const NOT_A_NUMBER: u32 = 0x7fc0_0000;

/// Bytes set aside for a buffer: at least a word, and whole words.
pub open spec fn storage(bytes: int) -> int {
    crate::num::ceil_to(
        if bytes < 4 {
            4
        } else {
            bytes
        },
        4,
    )
}

/// Bytes to set aside for a buffer of `bytes`.
pub fn storage_size(bytes: u64) -> (size: u64)
    requires
        bytes <= u64::MAX - 3,
    ensures
        size == storage(bytes as int),
        size >= bytes,
        size >= 4,
        size % 4 == 0,
        size == 4 || size < bytes + 4,
{
    crate::num::next_multiple_of_4(
        if bytes < 4 {
            4
        } else {
            bytes
        },
    )
}

/// Bytes that are whole words already are set aside as they are.
pub proof fn lemma_storage(words: int)
    requires
        words >= 1,
    ensures
        storage(4 * words) == 4 * words,
{
}

/// Room for this many neighbours per particle, from twice the volume of the
/// kernel ball in rest spacings: rounded up, then up to a multiple of 8, and at
/// least 32.
pub open spec fn capacity_for(twice_ball: Single) -> int {
    let slots = crate::num::ceil_to(twice_ball.ceil_as_u32(), 8);
    if slots < 32 {
        32
    } else {
        slots
    }
}

/// A settled fluid averages the kernel ball's volume in rest spacings; the layer
/// packed against a wall runs about half as dense again.
pub fn neighbor_capacity(twice_ball: Single) -> (capacity: u32)
    requires
        twice_ball.ceil_as_u32() <= u32::MAX - 7,
    ensures
        capacity == capacity_for(twice_ball),
        capacity % 8 == 0,
        capacity >= 32,
        twice_ball.ceil_as_u32() <= capacity,
        capacity == 32 || capacity < twice_ball.ceil_as_u32() + 8,
{
    let slots: u32 = crate::num::next_multiple_of(twice_ball.ceil_u32(), 8);
    if slots < 32 {
        32
    } else {
        slots
    }
}

/// A dense grid over a buffer of positions, rebuilt by counting sort, then a
/// sort within each cell so cells list particles in index order.
pub struct GpuGrid {
    pub n: u32,
    pub cells: u32,
    /// Power-of-two length of the prefix sum over the cells.
    pub size: u32,
    pub levels: Levels,
}

/// The least power of two that is at least `n`.
pub open spec fn is_least_power(size: int, n: int) -> bool {
    &&& crate::num::is_power_of_two(size)
    &&& n <= size
    &&& size == 1 || size < 2 * n
}

impl GpuGrid {
    /// The scan covers every cell and a trailing total.
    pub open spec fn wf(&self, align: int) -> bool {
        &&& is_least_power(self.size as int, self.cells + 1)
        &&& forall|k: nat| #[trigger]
            pow2(k) == self.size ==> crate::gpu::tabulates(
                self.levels,
                crate::scan::schedule(k, true),
                align,
            )
    }

    /// A grid of `cells` over `n` positions.
    pub fn new(n: u32, cells: u32, align: u32) -> (grid: GpuGrid)
        requires
            cells < 0x8000_0000,
            align >= 16,
            62 * align <= u32::MAX,
        ensures
            grid.n == n,
            grid.cells == cells,
            grid.wf(align as int),
            exists|k: nat| #[trigger] pow2(k) == grid.size,
            cells < grid.size,
            cells > 0 ==> grid.size <= 2 * cells,
    {
        let size: u32 = crate::num::next_power_of_two(cells + 1);
        GpuGrid { n, cells, size, levels: sweep(size, true, align) }
    }
}

/// The levels of a sweep, tabulated.
pub fn sweep(size: u32, down_sweep: bool, align: u32) -> (table: Levels)
    requires
        crate::num::is_power_of_two(size as int),
        align >= 16,
        62 * align <= u32::MAX,
    ensures
        forall|k: nat| #[trigger]
            pow2(k) == size ==> crate::gpu::tabulates(
                table,
                crate::scan::schedule(k, down_sweep),
                align as int,
            ),
{
    let levels = crate::scan::levels(size, down_sweep);
    proof {
        let n = levels@.len() as int;
        assert(n * align <= 62 * align) by (nonlinear_arith)
            requires
                n <= 62,
                align >= 0,
        ;
    }
    crate::gpu::tabulate(&levels, align)
}

/// Everything sized by the particle count.
pub struct Buffers {
    pub n: usize,
    /// Neighbour slots per particle.
    pub capacity: u32,
    pub dims_x: i32,
    pub dims_y: i32,
    pub dims_z: i32,
    pub cells: u32,
    /// Power-of-two length of the particle reductions.
    pub reduce_size: u32,
    pub reduce_levels: Levels,
    pub grid: GpuGrid,
}

/// The particle buffers' length for a fluid: room for one even if it is empty.
pub open spec fn slots_for(count: int) -> int {
    if count < 1 {
        1
    } else {
        count
    }
}

/// A device can hold the fluid, with this many neighbour slots per particle.
pub open spec fn fits(fluid: Fluid, capacity: int) -> bool {
    &&& fluid.wf()
    &&& fluid.count <= 0x8000_0000
    &&& 4 * (slots_for(fluid.count as int) * capacity) <= u64::MAX - 3
}

impl Buffers {
    pub open spec fn wf(&self, align: int) -> bool {
        &&& 1 <= self.n <= 0x8000_0000
        &&& 4 * (self.n * self.capacity) <= u64::MAX - 3
        &&& 1 <= self.dims_x
        &&& 1 <= self.dims_y
        &&& 1 <= self.dims_z
        &&& self.cells == self.dims_x * (self.dims_y * self.dims_z)
        &&& self.reduce_size >= 2
        &&& self.reduce_size >= self.n
        &&& crate::num::is_power_of_two(self.reduce_size as int)
        &&& forall|k: nat| #[trigger]
            pow2(k) == self.reduce_size ==> crate::gpu::tabulates(
                self.reduce_levels,
                crate::scan::schedule(k, false),
                align,
            )
        &&& self.grid.n == self.n
        &&& self.grid.cells == self.cells
        &&& self.grid.wf(align)
    }

    /// Buffers made for a fluid. The grid's dimensions are those of the fluid's
    /// own, so cell indices agree; reductions take the least power of two that
    /// holds the particles, and at least two.
    pub open spec fn made_for(&self, fluid: Fluid, capacity: int) -> bool {
        let n = slots_for(fluid.count as int);
        &&& self.n == n
        &&& self.capacity == capacity
        &&& self.dims_x == fluid.grid.cols
        &&& self.dims_y == fluid.grid.rows
        &&& self.dims_z == fluid.grid.layers
        &&& self.cells == fluid.grid.count()
        &&& is_least_power(
            self.reduce_size as int,
            if n < 2 {
                2
            } else {
                n
            },
        )
    }

    /// Buffers for a fluid.
    pub fn new(fluid: &Fluid, capacity: u32, align: u32) -> (b: Buffers)
        requires
            fits(*fluid, capacity as int),
            align >= 16,
            62 * align <= u32::MAX,
        ensures
            b.wf(align as int),
            b.made_for(*fluid, capacity as int),
    {
        let n: usize = if fluid.len() < 1 {
            1
        } else {
            fluid.len()
        };
        let (cols, rows, layers) = (fluid.grid.cols, fluid.grid.rows, fluid.grid.layers);
        proof {
            crate::grid::lemma_dims(cols as int, rows as int, layers as int);
        }
        let cells: u32 = (cols * (rows * layers)) as u32;
        let power: u32 = crate::num::next_power_of_two(n as u32);
        let reduce_size: u32 = if power < 2 {
            2
        } else {
            power
        };
        proof {
            vstd::arithmetic::power2::lemma2_to64();
        }
        Buffers {
            n,
            capacity,
            dims_x: cols as i32,
            dims_y: rows as i32,
            dims_z: layers as i32,
            cells,
            reduce_size,
            reduce_levels: sweep(reduce_size, false, align),
            grid: GpuGrid::new(n as u32, cells, align),
        }
    }

    /// The sizes the shader is told of.
    pub fn sizes(&self) -> (sizes: Sizes)
        requires
            self.n <= 0x8000_0000,
        ensures
            sizes.n == self.n,
            sizes.capacity == self.capacity,
            sizes.dims_x == self.dims_x,
            sizes.dims_y == self.dims_y,
            sizes.dims_z == self.dims_z,
            sizes.cells == self.cells,
            sizes.reduce_size == self.reduce_size,
    {
        Sizes {
            n: self.n as u32,
            capacity: self.capacity,
            dims_x: self.dims_x,
            dims_y: self.dims_y,
            dims_z: self.dims_z,
            cells: self.cells,
            reduce_size: self.reduce_size,
        }
    }

    /// Bytes set aside for each of the solver's buffers; none for those that are
    /// not the solver's.
    pub open spec fn bytes(&self, buffer: Buffer) -> int {
        match buffer {
            Buffer::Params => crate::sim_gpu::PARAM_BYTES as int,
            Buffer::GridParams(GridOf::Solver) => crate::sim_gpu::PARAM_BYTES as int,
            Buffer::Positions
            | Buffer::Previous
            | Buffer::Velocities
            | Buffer::Predicted
            | Buffer::Deltas
            | Buffer::Boundary
            | Buffer::Scratch => storage(16 * self.n),
            Buffer::Lambdas
            | Buffer::Foam
            | Buffer::Spray
            | Buffer::NeighborCount
            | Buffer::Ids
            | Buffer::Gathered
            | Buffer::CellsOf(GridOf::Solver)
            | Buffer::Sorted(GridOf::Solver) => storage(4 * self.n),
            Buffer::Neighbors => storage(4 * (self.n * self.capacity)),
            Buffer::MaxNeighbors => storage(4),
            Buffer::Stats => storage(16 * self.reduce_size),
            Buffer::Top => storage(16),
            Buffer::Probe => storage(16),
            Buffer::Readback => storage(60 * self.n),
            Buffer::Starts(GridOf::Solver) | Buffer::Cursor(GridOf::Solver) => storage(
                4 * self.grid.size,
            ),
            Buffer::ReduceLevels => self.reduce_levels.bytes@.len() as int,
            Buffer::GridLevels(GridOf::Solver) => self.grid.levels.bytes@.len() as int,
            _ => 0,
        }
    }

    /// Bytes to set aside for one of the solver's buffers.
    pub fn size(&self, buffer: Buffer) -> (size: u64)
        requires
            1 <= self.n <= 0x8000_0000,
            4 * (self.n * self.capacity) <= u64::MAX - 3,
        ensures
            size == self.bytes(buffer),
    {
        let n: u64 = self.n as u64;
        match buffer {
            Buffer::Params => crate::sim_gpu::PARAM_BYTES,
            Buffer::GridParams(GridOf::Solver) => crate::sim_gpu::PARAM_BYTES,
            Buffer::Positions
            | Buffer::Previous
            | Buffer::Velocities
            | Buffer::Predicted
            | Buffer::Deltas
            | Buffer::Boundary
            | Buffer::Scratch => storage_size(16 * n),
            Buffer::Lambdas
            | Buffer::Foam
            | Buffer::Spray
            | Buffer::NeighborCount
            | Buffer::Ids
            | Buffer::Gathered
            | Buffer::CellsOf(GridOf::Solver)
            | Buffer::Sorted(GridOf::Solver) => storage_size(4 * n),
            Buffer::Neighbors => {
                proof {
                    assert(0 <= self.n * self.capacity) by (nonlinear_arith)
                        requires
                            0 <= self.n,
                            0 <= self.capacity,
                    ;
                }
                storage_size(4 * (n * self.capacity as u64))
            },
            Buffer::MaxNeighbors => storage_size(4),
            Buffer::Stats => storage_size(16 * self.reduce_size as u64),
            Buffer::Top => storage_size(16),
            Buffer::Probe => storage_size(16),
            Buffer::Readback => storage_size(60 * n),
            Buffer::Starts(GridOf::Solver) | Buffer::Cursor(GridOf::Solver) => storage_size(
                4 * self.grid.size as u64,
            ),
            Buffer::ReduceLevels => self.reduce_levels.bytes.len() as u64,
            Buffer::GridLevels(GridOf::Solver) => self.grid.levels.bytes.len() as u64,
            _ => 0,
        }
    }
}

/// A pass around some commands.
pub open spec fn passed(inner: Seq<Command>) -> Seq<Command> {
    seq![Command::BeginPass] + inner + seq![Command::EndPass]
}

/// A solver pass over `count` items, from the solver's own buffers.
pub open spec fn solved(pass: Pass, count: u32) -> Seq<Command> {
    crate::gpu::ran(Kernel::Solver(pass), Group::Solver(pass), count)
}

fn solve(program: &mut Vec<Command>, pass: Pass, count: u32)
    ensures
        final(program)@ == old(program)@ + solved(pass, count),
{
    run(program, Kernel::Solver(pass), Group::Solver(pass), count);
}

/// The whole of a buffer into another.
pub open spec fn copied(from: Buffer, to: Buffer) -> Command {
    Command::Copy { from, at: 0, to, to_at: 0, bytes: None }
}

fn sorted(program: &mut Vec<Command>, which: GridOf, pass: Pass, count: u32)
    ensures
        final(program)@ == old(program)@ + crate::gpu::ran(
            Kernel::Solver(pass),
            Group::Grid(which, pass),
            count,
        ),
{
    run(program, Kernel::Solver(pass), Group::Grid(which, pass), count);
}

/// A grid's rebuild: count the particles of each cell, turn the counts into
/// starts, copy those as cursors, scatter the particles, and sort each cell.
pub open spec fn rebuilt(which: GridOf, grid: GpuGrid) -> Seq<Command> {
    seq![Command::Clear(Buffer::Starts(which))] + passed(
        crate::gpu::ran(Kernel::Solver(Pass::Bin), Group::Grid(which, Pass::Bin), grid.n)
            + crate::gpu::ran(Kernel::Solver(Pass::Count), Group::Grid(which, Pass::Count), grid.n)
            + crate::gpu::ran_levels(
            Kernel::Solver(Pass::Prefix),
            Group::Grid(which, Pass::Prefix),
            grid.levels.runs@,
        ),
    ) + seq![copied(Buffer::Starts(which), Buffer::Cursor(which))] + passed(
        crate::gpu::ran(Kernel::Solver(Pass::Scatter), Group::Grid(which, Pass::Scatter), grid.n)
            + crate::gpu::ran(
            Kernel::Solver(Pass::SortCells),
            Group::Grid(which, Pass::SortCells),
            grid.cells,
        ),
    )
}

/// Encodes a rebuild of a grid from its positions as they are when it runs.
pub fn rebuild_grid(program: &mut Vec<Command>, which: GridOf, grid: &GpuGrid)
    ensures
        final(program)@ == old(program)@ + rebuilt(which, *grid),
{
    program.push(Command::Clear(Buffer::Starts(which)));
    program.push(Command::BeginPass);
    sorted(program, which, Pass::Bin, grid.n);
    sorted(program, which, Pass::Count, grid.n);
    run_levels(
        program,
        Kernel::Solver(Pass::Prefix),
        Group::Grid(which, Pass::Prefix),
        &grid.levels.runs,
    );
    program.push(Command::EndPass);
    program.push(
        Command::Copy {
            from: Buffer::Starts(which),
            at: 0,
            to: Buffer::Cursor(which),
            to_at: 0,
            bytes: None,
        },
    );
    program.push(Command::BeginPass);
    sorted(program, which, Pass::Scatter, grid.n);
    sorted(program, which, Pass::SortCells, grid.cells);
    program.push(Command::EndPass);
    assert(program@ =~= old(program)@ + rebuilt(which, *grid));
}

/// One buffer taken in the cell order of the last grid, and put back.
pub open spec fn gathered(target: Buffer, n: u32, bytes: u64) -> Seq<Command> {
    passed(
        crate::gpu::ran(
            Kernel::Solver(crate::sim_gpu::gather_pass(target)),
            Group::Gather(target),
            n,
        ),
    ) + seq![
        Command::Copy {
            from: crate::sim_gpu::gather_out(target),
            at: 0,
            to: target,
            to_at: 0,
            bytes: Some(bytes),
        },
    ]
}

fn gather(program: &mut Vec<Command>, pass: Pass, out: Buffer, target: Buffer, n: u32, bytes: u64)
    requires
        pass == crate::sim_gpu::gather_pass(target),
        out == crate::sim_gpu::gather_out(target),
    ensures
        final(program)@ == old(program)@ + gathered(target, n, bytes),
{
    program.push(Command::BeginPass);
    run(program, Kernel::Solver(pass), Group::Gather(target), n);
    program.push(Command::EndPass);
    program.push(Command::Copy { from: out, at: 0, to: target, to_at: 0, bytes: Some(bytes) });
    assert(program@ =~= old(program)@ + gathered(target, n, bytes));
}

/// All the particle state taken in the cell order of the last grid.
pub open spec fn renumbered(b: Buffers) -> Seq<Command> {
    let n = b.n as u32;
    gathered(Buffer::Positions, n, b.bytes(Buffer::Positions) as u64) + gathered(
        Buffer::Previous,
        n,
        b.bytes(Buffer::Previous) as u64,
    ) + gathered(Buffer::Velocities, n, b.bytes(Buffer::Velocities) as u64) + gathered(
        Buffer::Foam,
        n,
        b.bytes(Buffer::Foam) as u64,
    ) + gathered(Buffer::Spray, n, b.bytes(Buffer::Spray) as u64) + gathered(
        Buffer::Ids,
        n,
        b.bytes(Buffer::Ids) as u64,
    )
}

/// Renumbers the particles into the cell order of the last substep's grid. As
/// the flow mixes, fill order stops putting neighbours near each other in
/// memory; in grid order they stay near.
fn encode_renumber(program: &mut Vec<Command>, b: &Buffers)
    requires
        1 <= b.n <= 0x8000_0000,
        4 * (b.n * b.capacity) <= u64::MAX - 3,
    ensures
        final(program)@ == old(program)@ + renumbered(*b),
{
    let n: u32 = b.n as u32;
    let (vectors, scalars) = (b.size(Buffer::Positions), b.size(Buffer::Foam));
    let (v, s) = (Pass::GatherVectors, Pass::GatherScalars);
    gather(program, v, Buffer::Scratch, Buffer::Positions, n, vectors);
    gather(program, v, Buffer::Scratch, Buffer::Previous, n, vectors);
    gather(program, v, Buffer::Scratch, Buffer::Velocities, n, vectors);
    gather(program, s, Buffer::Gathered, Buffer::Foam, n, scalars);
    gather(program, s, Buffer::Gathered, Buffer::Spray, n, scalars);
    gather(program, s, Buffer::Gathered, Buffer::Ids, n, scalars);
    assert(program@ =~= old(program)@ + renumbered(*b));
}

/// So many Jacobi iterations.
pub open spec fn iterated(n: u32, iterations: int) -> Seq<Command>
    decreases iterations,
{
    if iterations <= 0 {
        Seq::empty()
    } else {
        iterated(n, iterations - 1) + solved(Pass::Lambda, n) + solved(Pass::Delta, n) + solved(
            Pass::ApplyDelta,
            n,
        )
    }
}

/// One substep: predict, rebuild the grid, find neighbours, iterate, and derive
/// the velocities.
pub open spec fn substep(b: Buffers, iterations: int) -> Seq<Command> {
    let n = b.n as u32;
    passed(solved(Pass::Predict, n)) + rebuilt(GridOf::Solver, b.grid) + passed(
        solved(Pass::Neighbors, n) + iterated(n, iterations) + solved(Pass::Velocity, n) + solved(
            Pass::Viscosity,
            n,
        ),
    ) + seq![copied(Buffer::Scratch, Buffer::Velocities)]
}

/// Encodes one substep.
fn encode_substep(program: &mut Vec<Command>, b: &Buffers, iterations: u32)
    requires
        b.n <= 0x8000_0000,
    ensures
        final(program)@ == old(program)@ + substep(*b, iterations as int),
{
    let n: u32 = b.n as u32;
    program.push(Command::BeginPass);
    solve(program, Pass::Predict, n);
    program.push(Command::EndPass);
    rebuild_grid(program, GridOf::Solver, &b.grid);
    program.push(Command::BeginPass);
    solve(program, Pass::Neighbors, n);
    let ghost start = program@;
    assert(program@ =~= start + iterated(n, 0));
    let mut i: u32 = 0;
    while i < iterations
        invariant
            i <= iterations,
            program@ == start + iterated(n, i as int),
        decreases iterations - i,
    {
        solve(program, Pass::Lambda, n);
        solve(program, Pass::Delta, n);
        solve(program, Pass::ApplyDelta, n);
        i += 1;
        assert(program@ =~= start + iterated(n, i as int));
    }
    solve(program, Pass::Velocity, n);
    solve(program, Pass::Viscosity, n);
    program.push(Command::EndPass);
    program.push(
        Command::Copy {
            from: Buffer::Scratch,
            at: 0,
            to: Buffer::Velocities,
            to_at: 0,
            bytes: None,
        },
    );
    assert(program@ =~= old(program)@ + substep(*b, iterations as int));
}

/// The particles copied to the device, and what a step would read of the last
/// ones zeroed. The dam break never writes boundary support, and relies on it
/// being zero.
pub open spec fn uploaded(reallocate: bool) -> Seq<Command> {
    (if reallocate {
        seq![Command::Allocate]
    } else {
        Seq::empty()
    }) + seq![
        Command::Write(Buffer::Positions),
        Command::Write(Buffer::Previous),
        Command::Write(Buffer::Velocities),
        Command::Write(Buffer::Foam),
        Command::Write(Buffer::Spray),
        Command::Write(Buffer::Ids),
        Command::Clear(Buffer::Boundary),
        Command::Clear(Buffer::NeighborCount),
        Command::Clear(Buffer::MaxNeighbors),
        Command::Submit,
    ]
}

fn write_particles(program: &mut Vec<Command>, reallocate: bool)
    ensures
        final(program)@ == old(program)@ + uploaded(reallocate),
{
    if reallocate {
        program.push(Command::Allocate);
    }
    program.push(Command::Write(Buffer::Positions));
    program.push(Command::Write(Buffer::Previous));
    program.push(Command::Write(Buffer::Velocities));
    program.push(Command::Write(Buffer::Foam));
    program.push(Command::Write(Buffer::Spray));
    program.push(Command::Write(Buffer::Ids));
    program.push(Command::Clear(Buffer::Boundary));
    program.push(Command::Clear(Buffer::NeighborCount));
    program.push(Command::Clear(Buffer::MaxNeighbors));
    program.push(Command::Submit);
    assert(program@ =~= old(program)@ + uploaded(reallocate));
}

/// One queued push, with its own parameters and its own submission.
pub open spec fn pushed(k: int, n: u32) -> Seq<Command> {
    seq![Command::WriteParams(Span::Substep, Extra::Impulse(k as usize))] + passed(
        solved(Pass::Impulse, n),
    ) + seq![Command::Submit]
}

/// The first `count` queued pushes, in order.
pub open spec fn all_pushed(count: int, n: u32) -> Seq<Command>
    decreases count,
{
    if count <= 0 {
        Seq::empty()
    } else {
        all_pushed(count - 1, n) + pushed(count - 1, n)
    }
}

/// So many substeps. A queued write lands before the commands submitted with
/// it, so each substep has its own parameters and its own submission.
pub open spec fn substepped(b: Buffers, iterations: int, substeps: int) -> Seq<Command>
    decreases substeps,
{
    if substeps <= 0 {
        Seq::empty()
    } else {
        substepped(b, iterations, substeps - 1) + seq![
            Command::AdvanceClock,
            Command::WriteParams(Span::Substep, Extra::Nothing),
        ] + substep(b, iterations) + seq![Command::Submit]
    }
}

/// A frame's end: foam, and the largest neighbourhood copied out to be read.
pub open spec fn finished(n: u32) -> Seq<Command> {
    seq![Command::WriteParams(Span::Frame, Extra::Nothing)] + passed(solved(Pass::Foam, n)) + seq![
        Command::Copy {
            from: Buffer::MaxNeighbors,
            at: 0,
            to: Buffer::Probe,
            to_at: 0,
            bytes: Some(4),
        },
        Command::Submit,
    ]
}

/// A frame, from what is queued to what is read back.
pub open spec fn framed(
    b: Buffers,
    impulses: int,
    renumber: bool,
    iterations: int,
    substeps: int,
) -> Seq<Command> {
    let n = b.n as u32;
    all_pushed(impulses, n) + (if renumber {
        seq![Command::WriteParams(Span::Substep, Extra::Nothing)] + renumbered(b)
    } else {
        Seq::empty()
    }) + seq![copied(Buffer::Positions, Buffer::Previous)] + substepped(b, iterations, substeps)
        + finished(n)
}

/// Encodes the queued pushes.
fn encode_pushes(program: &mut Vec<Command>, count: usize, n: u32)
    ensures
        final(program)@ == old(program)@ + all_pushed(count as int, n),
{
    assert(program@ =~= old(program)@ + all_pushed(0, n));
    let mut k: usize = 0;
    while k < count
        invariant
            k <= count,
            program@ == old(program)@ + all_pushed(k as int, n),
        decreases count - k,
    {
        program.push(Command::WriteParams(Span::Substep, Extra::Impulse(k)));
        program.push(Command::BeginPass);
        solve(program, Pass::Impulse, n);
        program.push(Command::EndPass);
        program.push(Command::Submit);
        k += 1;
        assert(program@ =~= old(program)@ + all_pushed(k as int, n));
    }
}

/// Encodes a frame's substeps.
fn encode_substeps(program: &mut Vec<Command>, b: &Buffers, iterations: u32, substeps: u32)
    requires
        b.n <= 0x8000_0000,
    ensures
        final(program)@ == old(program)@ + substepped(*b, iterations as int, substeps as int),
{
    assert(program@ =~= old(program)@ + substepped(*b, iterations as int, 0));
    let mut i: u32 = 0;
    while i < substeps
        invariant
            i <= substeps,
            b.n <= 0x8000_0000,
            program@ == old(program)@ + substepped(*b, iterations as int, i as int),
        decreases substeps - i,
    {
        program.push(Command::AdvanceClock);
        program.push(Command::WriteParams(Span::Substep, Extra::Nothing));
        encode_substep(program, b, iterations);
        program.push(Command::Submit);
        i += 1;
        assert(program@ =~= old(program)@ + substepped(*b, iterations as int, i as int));
    }
}

/// Encodes a frame's end.
fn encode_finish(program: &mut Vec<Command>, n: u32)
    ensures
        final(program)@ == old(program)@ + finished(n),
{
    program.push(Command::WriteParams(Span::Frame, Extra::Nothing));
    program.push(Command::BeginPass);
    solve(program, Pass::Foam, n);
    program.push(Command::EndPass);
    program.push(
        Command::Copy {
            from: Buffer::MaxNeighbors,
            at: 0,
            to: Buffer::Probe,
            to_at: 0,
            bytes: Some(4),
        },
    );
    program.push(Command::Submit);
    assert(program@ =~= old(program)@ + finished(n));
}

/// Encodes a frame.
fn encode_frame(
    program: &mut Vec<Command>,
    b: &Buffers,
    impulses: usize,
    renumber: bool,
    iterations: u32,
    substeps: u32,
)
    requires
        1 <= b.n <= 0x8000_0000,
        4 * (b.n * b.capacity) <= u64::MAX - 3,
    ensures
        final(program)@ == old(program)@ + framed(
            *b,
            impulses as int,
            renumber,
            iterations as int,
            substeps as int,
        ),
{
    let n: u32 = b.n as u32;
    encode_pushes(program, impulses, n);
    if renumber {
        program.push(Command::WriteParams(Span::Substep, Extra::Nothing));
        encode_renumber(program, b);
    }
    program.push(
        Command::Copy {
            from: Buffer::Positions,
            at: 0,
            to: Buffer::Previous,
            to_at: 0,
            bytes: None,
        },
    );
    encode_substeps(program, b, iterations, substeps);
    encode_finish(program, n);
    assert(program@ =~= old(program)@ + framed(
        *b,
        impulses as int,
        renumber,
        iterations as int,
        substeps as int,
    ));
}

/// A reduction over the particles, whose result is left in the last entry.
pub open spec fn reduced(first: Pass, reduce: Pass, b: Buffers) -> Seq<Command> {
    passed(
        solved(first, b.reduce_size) + crate::gpu::ran_levels(
            Kernel::Solver(reduce),
            Group::Solver(reduce),
            b.reduce_levels.runs@,
        ),
    )
}

/// The last entry of the statistics copied out.
pub open spec fn taken(b: Buffers, to: Buffer) -> Command {
    Command::Copy {
        from: Buffer::Stats,
        at: (16 * (b.reduce_size - 1)) as u64,
        to,
        to_at: 0,
        bytes: Some(16),
    }
}

/// The measurements behind the title: the water's top first, then the rest,
/// which are measured against it.
pub open spec fn measured(b: Buffers) -> Seq<Command> {
    seq![Command::WriteParams(Span::Instant, Extra::Nothing)] + reduced(
        Pass::MeasureTop,
        Pass::Reduce,
        b,
    ) + seq![taken(b, Buffer::Top)] + reduced(Pass::Measure, Pass::Reduce, b) + seq![
        taken(b, Buffer::Probe),
        Command::Submit,
    ]
}

/// The search for the particle nearest along a ray.
pub open spec fn probed(b: Buffers) -> Seq<Command> {
    seq![Command::WriteParams(Span::Instant, Extra::Ray)] + reduced(
        Pass::RayHits,
        Pass::ReduceNearest,
        b,
    ) + seq![taken(b, Buffer::Probe), Command::Submit]
}

/// The particle state laid end to end for reading back: positions, the
/// positions the last step started from, velocities, foam, spray, ids.
pub open spec fn downloaded(n: int) -> Seq<Command> {
    seq![
        read_back(Buffer::Positions, 0, 16 * n),
        read_back(Buffer::Previous, 16 * n, 16 * n),
        read_back(Buffer::Velocities, 32 * n, 16 * n),
        read_back(Buffer::Foam, 48 * n, 4 * n),
        read_back(Buffer::Spray, 52 * n, 4 * n),
        read_back(Buffer::Ids, 56 * n, 4 * n),
        Command::Submit,
    ]
}

pub open spec fn read_back(from: Buffer, to_at: int, bytes: int) -> Command {
    Command::Copy {
        from,
        at: 0,
        to: Buffer::Readback,
        to_at: to_at as u64,
        bytes: Some(bytes as u64),
    }
}

/// The title readout's raw figures, as the device leaves them.
#[derive(Clone, Copy, PartialEq, Eq, Structural, Debug)]
pub struct Readout {
    pub compression: Single,
    /// Not a number when the water has no bulk.
    pub bulk: Single,
    pub peak_speed: Single,
}

/// A push from the mouse, and which water it was made for.
#[derive(Clone, Copy, PartialEq, Eq, Structural, Debug)]
pub struct Push {
    pub impulse: Impulse,
    /// The fluid's generation when the push was made.
    pub generation: u64,
}

/// The pushes made for the water of a generation, in order.
pub open spec fn meant_for(pushes: Seq<Push>, generation: u64) -> Seq<Push>
    decreases pushes.len(),
{
    if pushes.len() == 0 {
        Seq::empty()
    } else {
        let before = meant_for(pushes.drop_last(), generation);
        if pushes.last().generation == generation {
            before.push(pushes.last())
        } else {
            before
        }
    }
}

/// What a step of the water of a generation plays: the impulses of the pushes
/// made for it, in order.
pub open spec fn played(pushes: Seq<Push>, generation: u64) -> Seq<Impulse> {
    meant_for(pushes, generation).map_values(|push: Push| push.impulse)
}

/// A push is played exactly if it was made for the water that is stepped.
pub proof fn lemma_pushes_reach_their_water(pushes: Seq<Push>, generation: u64, push: Push)
    ensures
        meant_for(pushes, generation).contains(push) <==> pushes.contains(push) && push.generation
            == generation,
    decreases pushes.len(),
{
    if pushes.len() > 0 {
        let before = pushes.drop_last();
        lemma_pushes_reach_their_water(before, generation, push);
        let kept = meant_for(before, generation);
        assert(pushes =~= before.push(pushes.last()));
        assert(pushes.contains(push) <==> before.contains(push) || push == pushes.last()) by {
            if before.contains(push) {
                let i = choose|i: int| 0 <= i < before.len() && before[i] == push;
                assert(pushes[i] == push);
            }
            assert(pushes[pushes.len() - 1] == pushes.last());
        }
        if pushes.last().generation == generation {
            let all = kept.push(pushes.last());
            assert(all.contains(push) <==> kept.contains(push) || push == pushes.last()) by {
                if kept.contains(push) {
                    let i = choose|i: int| 0 <= i < kept.len() && kept[i] == push;
                    assert(all[i] == push);
                }
                assert(all[all.len() - 1] == pushes.last());
            }
        }
    }
}

/// Dropping the pushes for other water takes none from this: an upload before
/// the step changes nothing of what the step plays.
pub proof fn lemma_kept_pushes_are_played(pushes: Seq<Push>, generation: u64)
    ensures
        meant_for(meant_for(pushes, generation), generation) == meant_for(pushes, generation),
        played(meant_for(pushes, generation), generation) == played(pushes, generation),
    decreases pushes.len(),
{
    if pushes.len() > 0 {
        lemma_kept_pushes_are_played(pushes.drop_last(), generation);
        let kept = meant_for(pushes, generation);
        if pushes.last().generation == generation {
            assert(kept.drop_last() =~= meant_for(pushes.drop_last(), generation));
        }
    }
}

/// Keeps the pushes made for the water of a generation.
fn keep_pushes(pushes: &Vec<Push>, generation: u64) -> (kept: Vec<Push>)
    ensures
        kept@ == meant_for(pushes@, generation),
{
    let mut kept: Vec<Push> = Vec::new();
    let mut i: usize = 0;
    while i < pushes.len()
        invariant
            i <= pushes.len(),
            kept@ == meant_for(pushes@.take(i as int), generation),
        decreases pushes.len() - i,
    {
        assert(pushes@.take(i + 1).drop_last() =~= pushes@.take(i as int));
        if pushes[i].generation == generation {
            kept.push(pushes[i]);
        }
        i = i + 1;
    }
    assert(pushes@.take(i as int) =~= pushes@);
    kept
}

/// The impulses of the pushes made for the water of a generation.
fn play_pushes(pushes: &Vec<Push>, generation: u64) -> (impulses: Vec<Impulse>)
    ensures
        impulses@ == played(pushes@, generation),
{
    let kept: Vec<Push> = keep_pushes(pushes, generation);
    let mut impulses: Vec<Impulse> = Vec::new();
    let mut i: usize = 0;
    while i < kept.len()
        invariant
            i <= kept.len(),
            impulses@.len() == i,
            forall|k: int| 0 <= k < i ==> #[trigger] impulses@[k] == kept@[k].impulse,
        decreases kept.len() - i,
    {
        impulses.push(kept[i].impulse);
        i = i + 1;
    }
    assert(impulses@ =~= played(pushes@, generation));
    impulses
}

/// The solver's state between frames.
pub struct GpuFluid {
    pub buffers: Buffers,
    /// Steps since the particles were last renumbered into grid order.
    pub since_renumber: u32,
    /// The fluid's generation last uploaded.
    pub generation: u64,
    /// Neighbour lists exist once a step has run since the last upload.
    pub stepped: bool,
    /// Largest neighbourhood seen since the last upload, capped or not.
    pub max_neighbors: u32,
    /// Pushes waiting for the next step of the water they were made for.
    pub impulses: Vec<Push>,
    /// Bumped whenever the particle buffers are replaced, so bind groups made
    /// elsewhere know to follow.
    pub revision: u64,
    /// Alignment of dynamic offsets into uniform buffers.
    pub align: u32,
}

impl GpuFluid {
    pub open spec fn wf(&self) -> bool {
        &&& self.align >= 16
        &&& 62 * self.align <= u32::MAX
        &&& self.buffers.wf(self.align as int)
    }

    /// Whether the device holds other particles than the fluid's.
    pub open spec fn stale(&self, fluid: Fluid) -> bool {
        fluid.generation != self.generation || slots_for(fluid.count as int) != self.buffers.n
    }

    /// The solver after the fluid's particles were uploaded: buffers of another
    /// length are replaced by the fluid's own, the neighbourhoods seen are
    /// forgotten, and of the pushes only those made for these particles stay.
    pub open spec fn uploads(&self, fluid: Fluid, then: GpuFluid) -> bool {
        &&& then.wf()
        &&& then.align == self.align
        &&& then.since_renumber == self.since_renumber
        &&& then.generation == fluid.generation
        &&& !then.stepped
        &&& then.impulses@ == meant_for(self.impulses@, fluid.generation)
        &&& then.max_neighbors == 0
        &&& then.buffers.n == slots_for(fluid.count as int)
        &&& then.buffers.capacity == self.buffers.capacity
        &&& then.revision == self.revision + if slots_for(fluid.count as int) != self.buffers.n {
            1int
        } else {
            0int
        }
        &&& slots_for(fluid.count as int) == self.buffers.n ==> then.buffers == self.buffers
        &&& slots_for(fluid.count as int) != self.buffers.n ==> then.buffers.made_for(
            fluid,
            self.buffers.capacity as int,
        )
    }

    /// The solver after a step of `dt` seconds, with the program that runs and the
    /// pushes it plays. Nothing happens if there is nothing to move or no time to
    /// move it in. A stale device is brought up to date first. Once a step has
    /// run, the particles are renumbered before they move whenever that is due.
    pub open spec fn steps(
        &self,
        fluid: Fluid,
        dt: Single,
        then: GpuFluid,
        program: Seq<Command>,
        pushes: Seq<Impulse>,
    ) -> bool {
        if fluid.count == 0 || dt.at_most(zero()) {
            &&& program.len() == 0
            &&& pushes.len() == 0
            &&& then == *self
        } else {
            let stale = self.stale(fluid);
            let renumber = !stale && self.stepped && self.since_renumber + 1 >= RENUMBER_EVERY;
            let substeps = if fluid.params.substeps == 0 {
                1
            } else {
                fluid.params.substeps as int
            };
            &&& then.wf()
            &&& then.stepped
            &&& then.impulses@.len() == 0
            &&& then.generation == fluid.generation
            &&& then.buffers.n == fluid.count
            &&& then.buffers.capacity == self.buffers.capacity
            &&& fluid.count == self.buffers.n ==> then.buffers == self.buffers
            &&& fluid.count != self.buffers.n ==> then.buffers.made_for(
                fluid,
                self.buffers.capacity as int,
            )
            &&& then.since_renumber == if renumber {
                0int
            } else {
                self.since_renumber + 1
            }
            &&& then.max_neighbors == if stale {
                0
            } else {
                self.max_neighbors
            }
            &&& then.revision == self.revision + if fluid.count != self.buffers.n {
                1int
            } else {
                0int
            }
            &&& then.align == self.align
            &&& pushes == played(self.impulses@, fluid.generation)
            &&& program == (if stale {
                uploaded(fluid.count != self.buffers.n)
            } else {
                Seq::empty()
            }) + framed(
                then.buffers,
                pushes.len() as int,
                renumber,
                fluid.params.iterations as int,
                substeps,
            )
        }
    }

    /// A solver with the fluid's particles uploaded, and what to run for that.
    pub fn new(fluid: &Fluid, capacity: u32, align: u32) -> (made: (GpuFluid, Vec<Command>))
        requires
            fits(*fluid, capacity as int),
            align >= 16,
            62 * align <= u32::MAX,
        ensures
            made.0.wf(),
            made.0.buffers.made_for(*fluid, capacity as int),
            made.0.since_renumber == 0,
            made.0.generation == fluid.generation,
            !made.0.stepped,
            made.0.max_neighbors == 0,
            made.0.impulses@.len() == 0,
            made.0.revision == 0,
            made.0.align == align,
            made.1@ == uploaded(true),
            made.1@ == seq![
                Command::Allocate,
                Command::Write(Buffer::Positions),
                Command::Write(Buffer::Previous),
                Command::Write(Buffer::Velocities),
                Command::Write(Buffer::Foam),
                Command::Write(Buffer::Spray),
                Command::Write(Buffer::Ids),
                Command::Clear(Buffer::Boundary),
                Command::Clear(Buffer::NeighborCount),
                Command::Clear(Buffer::MaxNeighbors),
                Command::Submit,
            ],
            made.0.buffers.n == (if fluid.count == 0 {
                1
            } else {
                fluid.count as int
            }),
            made.0.buffers.capacity == capacity,
    {
        let mut program: Vec<Command> = Vec::new();
        write_particles(&mut program, true);
        assert(program@ =~= uploaded(true));
        (
            GpuFluid {
                buffers: Buffers::new(fluid, capacity, align),
                since_renumber: 0,
                generation: fluid.generation,
                stepped: false,
                max_neighbors: 0,
                impulses: Vec::new(),
                revision: 0,
                align,
            },
            program,
        )
    }

    /// Particles there is room for.
    pub fn len(&self) -> (n: usize)
        ensures
            n == self.buffers.n,
    {
        self.buffers.n
    }

    /// Which set of particle buffers is current.
    pub fn revision(&self) -> (r: u64)
        ensures
            r == self.revision,
    {
        self.revision
    }

    /// The largest neighbourhood seen since the last upload. The lists are whole
    /// only while this stays within the capacity.
    pub fn max_neighbors(&self) -> (m: u32)
        ensures
            m == self.max_neighbors,
    {
        self.max_neighbors
    }

    /// Neighbour slots per particle.
    pub fn capacity(&self) -> (c: u32)
        ensures
            c == self.buffers.capacity,
    {
        self.buffers.capacity
    }

    /// Copies the particles in `fluid` to the device, replacing whatever was
    /// there.
    pub fn upload(&mut self, fluid: &Fluid, program: &mut Vec<Command>)
        requires
            old(self).wf(),
            fits(*fluid, old(self).buffers.capacity as int),
            old(self).revision < u64::MAX,
        ensures
            old(self).uploads(*fluid, *final(self)),
            final(program)@ == old(program)@ + uploaded(
                slots_for(fluid.count as int) != old(self).buffers.n,
            ),
            final(program)@ == old(program)@ + ((if final(self).buffers.n != old(self).buffers.n {
                seq![Command::Allocate]
            } else {
                Seq::empty()
            }) + seq![
                Command::Write(Buffer::Positions),
                Command::Write(Buffer::Previous),
                Command::Write(Buffer::Velocities),
                Command::Write(Buffer::Foam),
                Command::Write(Buffer::Spray),
                Command::Write(Buffer::Ids),
                Command::Clear(Buffer::Boundary),
                Command::Clear(Buffer::NeighborCount),
                Command::Clear(Buffer::MaxNeighbors),
                Command::Submit,
            ]),
            final(self).buffers.n == (if fluid.count == 0 {
                1
            } else {
                fluid.count as int
            }),
            final(self).revision == old(self).revision || final(self).revision == old(
                self,
            ).revision + 1,
            final(self).revision != old(self).revision <==> final(self).buffers.n != old(
                self,
            ).buffers.n,
    {
        let wanted: usize = if fluid.len() < 1 {
            1
        } else {
            fluid.len()
        };
        let reallocate: bool = wanted != self.buffers.n;
        if reallocate {
            self.buffers = Buffers::new(fluid, self.buffers.capacity, self.align);
            self.revision = self.revision + 1;
        }
        write_particles(program, reallocate);
        self.max_neighbors = 0;
        self.generation = fluid.generation;
        self.stepped = false;
        self.impulses = keep_pushes(&self.impulses, fluid.generation);
    }

    /// Uploads `fluid` if it has been reset since the device last saw it.
    /// Stepping does this itself; anything that reads the particles while paused
    /// should call it first.
    pub fn sync(&mut self, fluid: &Fluid, program: &mut Vec<Command>)
        requires
            old(self).wf(),
            fits(*fluid, old(self).buffers.capacity as int),
            old(self).revision < u64::MAX,
        ensures
            old(self).stale(*fluid) ==> old(self).uploads(*fluid, *final(self)) && final(program)@
                == old(program)@ + uploaded(slots_for(fluid.count as int) != old(self).buffers.n),
            !old(self).stale(*fluid) ==> *final(self) == *old(self) && final(program)@ == old(
                program,
            )@,
            fluid.generation == old(self).generation && (fluid.count == old(self).buffers.n
                || fluid.count == 0 && old(self).buffers.n == 1) ==> *final(self) == *old(self)
                && final(program)@ == old(program)@,
            fluid.generation != old(self).generation || fluid.count > 0 && fluid.count != old(
                self,
            ).buffers.n || fluid.count == 0 && old(self).buffers.n != 1 ==> {
                &&& final(program)@ == old(program)@ + ((if final(self).buffers.n != old(self).buffers.n {
                        seq![Command::Allocate]
                    } else {
                        Seq::empty()
                    }) + seq![
                        Command::Write(Buffer::Positions),
                        Command::Write(Buffer::Previous),
                        Command::Write(Buffer::Velocities),
                        Command::Write(Buffer::Foam),
                        Command::Write(Buffer::Spray),
                        Command::Write(Buffer::Ids),
                        Command::Clear(Buffer::Boundary),
                        Command::Clear(Buffer::NeighborCount),
                        Command::Clear(Buffer::MaxNeighbors),
                        Command::Submit,
                    ])
                &&& final(self).generation == fluid.generation
                &&& !final(self).stepped
                &&& final(self).buffers.n == if fluid.count == 0 {
                    1
                } else {
                    fluid.count as int
                }
            },
    {
        let wanted: usize = if fluid.len() < 1 {
            1
        } else {
            fluid.len()
        };
        if fluid.generation != self.generation || wanted != self.buffers.n {
            self.upload(fluid, program);
        }
    }

    /// Queues a push from the mouse on the water in `fluid`, for its next step.
    /// A reset in between takes the push with it.
    pub fn apply_radial_impulse(
        &mut self,
        fluid: &Fluid,
        center: Point,
        radius: Single,
        strength: Single,
    )
        requires
            old(self).wf(),
        ensures
            final(self).wf(),
            final(self).impulses@ == old(self).impulses@.push(
                (Push {
                    impulse: Impulse { center, radius, strength },
                    generation: fluid.generation,
                }),
            ),
            final(self).buffers == old(self).buffers,
            final(self).since_renumber == old(self).since_renumber,
            final(self).generation == old(self).generation,
            final(self).stepped == old(self).stepped,
            final(self).max_neighbors == old(self).max_neighbors,
            final(self).revision == old(self).revision,
            final(self).align == old(self).align,
    {
        let impulse = Impulse { center, radius, strength };
        self.impulses.push(Push { impulse, generation: fluid.generation });
    }

    /// Advances the fluid by `dt` seconds. Returns what to run, nothing if there
    /// is nothing to move or no time to move it in, and the pushes it refers to:
    /// those queued for this water.
    pub fn step(&mut self, fluid: &Fluid, dt: Single) -> (work: (Vec<Command>, Vec<Impulse>))
        requires
            old(self).wf(),
            fits(*fluid, old(self).buffers.capacity as int),
            old(self).revision < u64::MAX,
            old(self).since_renumber < u32::MAX,
        ensures
            old(self).steps(*fluid, dt, *final(self), work.0@, work.1@),
    {
        let mut program: Vec<Command> = Vec::new();
        let substeps: u32 = match fluid.substeps(dt) {
            Some(substeps) => substeps,
            None => {
                return (program, Vec::new());
            },
        };
        self.sync(fluid, &mut program);
        let ghost stale = old(self).stale(*fluid);
        assert(program@ =~= if stale {
            uploaded(fluid.count != old(self).buffers.n)
        } else {
            Seq::empty()
        });
        let impulses: Vec<Impulse> = play_pushes(&self.impulses, fluid.generation);
        proof {
            lemma_kept_pushes_are_played(old(self).impulses@, fluid.generation);
        }
        self.impulses = Vec::new();
        self.since_renumber = self.since_renumber + 1;
        let renumber: bool = self.stepped && self.since_renumber >= RENUMBER_EVERY;
        if renumber {
            self.since_renumber = 0;
        }
        encode_frame(
            &mut program,
            &self.buffers,
            impulses.len(),
            renumber,
            fluid.params.iterations,
            substeps,
        );
        self.stepped = true;
        (program, impulses)
    }

    /// Grows the neighbour lists if a step outran them, by a quarter more than
    /// was seen. Only the lists move; the particle buffers others have bound
    /// stay where they are. Returns what to run, and whether the step ran on
    /// truncated neighbourhoods.
    pub fn note_neighbors(&mut self, seen: u32) -> (program: Vec<Command>)
        requires
            old(self).wf(),
            seen + seen / 4 <= u32::MAX - 7,
            4 * (old(self).buffers.n * crate::num::ceil_to(seen + seen / 4, 8)) <= u64::MAX - 3,
        ensures
            final(self).wf(),
            final(self).max_neighbors == if old(self).max_neighbors < seen {
                seen
            } else {
                old(self).max_neighbors
            },
            seen <= old(self).buffers.capacity ==> {
                &&& program@.len() == 0
                &&& final(self).buffers == old(self).buffers
            },
            seen > old(self).buffers.capacity ==> {
                &&& program@ == seq![Command::AllocateNeighbors]
                &&& final(self).buffers.capacity == crate::num::ceil_to(seen + seen / 4, 8)
                &&& final(self).buffers.capacity >= seen
                &&& final(self).buffers.capacity % 8 == 0
                &&& seen + seen / 4 <= final(self).buffers.capacity < seen + seen / 4 + 8
                &&& final(self).buffers == (Buffers {
                    capacity: final(self).buffers.capacity,
                    ..old(self).buffers
                })
            },
            final(self).since_renumber == old(self).since_renumber,
            final(self).generation == old(self).generation,
            final(self).stepped == old(self).stepped,
            final(self).impulses@ == old(self).impulses@,
            final(self).revision == old(self).revision,
            final(self).align == old(self).align,
    {
        let mut program: Vec<Command> = Vec::new();
        if self.max_neighbors < seen {
            self.max_neighbors = seen;
        }
        if seen > self.buffers.capacity {
            let grown: u32 = crate::num::next_multiple_of(seen + seen / 4, 8);
            self.buffers.capacity = grown;
            program.push(Command::AllocateNeighbors);
        }
        program
    }

    /// What to run to have the particles read back.
    pub fn download(&self) -> (program: Vec<Command>)
        requires
            self.wf(),
        ensures
            program@ == downloaded(self.buffers.n as int),
            program@.len() == 7,
            program@[0] == (Command::Copy {
                from: Buffer::Positions,
                at: 0,
                to: Buffer::Readback,
                to_at: (0 * self.buffers.n) as u64,
                bytes: Some((16 * self.buffers.n) as u64),
            }),
            program@[1] == (Command::Copy {
                from: Buffer::Previous,
                at: 0,
                to: Buffer::Readback,
                to_at: (16 * self.buffers.n) as u64,
                bytes: Some((16 * self.buffers.n) as u64),
            }),
            program@[2] == (Command::Copy {
                from: Buffer::Velocities,
                at: 0,
                to: Buffer::Readback,
                to_at: (32 * self.buffers.n) as u64,
                bytes: Some((16 * self.buffers.n) as u64),
            }),
            program@[3] == (Command::Copy {
                from: Buffer::Foam,
                at: 0,
                to: Buffer::Readback,
                to_at: (48 * self.buffers.n) as u64,
                bytes: Some((4 * self.buffers.n) as u64),
            }),
            program@[4] == (Command::Copy {
                from: Buffer::Spray,
                at: 0,
                to: Buffer::Readback,
                to_at: (52 * self.buffers.n) as u64,
                bytes: Some((4 * self.buffers.n) as u64),
            }),
            program@[5] == (Command::Copy {
                from: Buffer::Ids,
                at: 0,
                to: Buffer::Readback,
                to_at: (56 * self.buffers.n) as u64,
                bytes: Some((4 * self.buffers.n) as u64),
            }),
            program@[6] == Command::Submit,
    {
        let n: u64 = self.buffers.n as u64;
        let mut program: Vec<Command> = Vec::new();
        push_read_back(&mut program, Buffer::Positions, 0, 16 * n);
        push_read_back(&mut program, Buffer::Previous, 16 * n, 16 * n);
        push_read_back(&mut program, Buffer::Velocities, 32 * n, 16 * n);
        push_read_back(&mut program, Buffer::Foam, 48 * n, 4 * n);
        push_read_back(&mut program, Buffer::Spray, 52 * n, 4 * n);
        push_read_back(&mut program, Buffer::Ids, 56 * n, 4 * n);
        program.push(Command::Submit);
        assert(program@ =~= downloaded(self.buffers.n as int));
        program
    }

    /// What to run for the title's figures; nothing until a step has built
    /// neighbour lists for the current particles.
    pub fn readout(&self, fluid: &Fluid) -> (program: Option<Vec<Command>>)
        requires
            self.wf(),
        ensures
            program is None <==> !self.stepped || fluid.generation != self.generation,
            program is Some ==> program->0@ == measured(self.buffers),
            program is Some ==> crate::programs::runs_measure(
                crate::programs::deeds(program->0@),
                self.buffers,
            ),
    {
        if !self.stepped || fluid.generation != self.generation {
            return None;
        }
        let mut program: Vec<Command> = Vec::new();
        program.push(Command::WriteParams(Span::Instant, Extra::Nothing));
        self.reduce(&mut program, Pass::MeasureTop, Pass::Reduce);
        program.push(self.take(Buffer::Top));
        self.reduce(&mut program, Pass::Measure, Pass::Reduce);
        program.push(self.take(Buffer::Probe));
        program.push(Command::Submit);
        assert(program@ =~= measured(self.buffers));
        proof {
            crate::programs::lemma_measure_runs(self.buffers, self.align as int);
        }
        Some(program)
    }

    /// What to run for the particle nearest along a ray; nothing for a ray that
    /// leads nowhere.
    pub fn nearest_along_ray(&self, direction: Point) -> (program: Option<Vec<Command>>)
        requires
            self.wf(),
        ensures
            program is None <==> direction.x.same(zero()) && direction.y.same(
                zero(),
            ) && direction.z.same(zero()),
            program is Some ==> program->0@ == probed(self.buffers),
            program is Some ==> crate::programs::runs_probe(
                crate::programs::deeds(program->0@),
                self.buffers,
            ),
    {
        let none = Single { bits: 0 };
        if direction.x.equals(none) && direction.y.equals(none) && direction.z.equals(none) {
            return None;
        }
        let mut program: Vec<Command> = Vec::new();
        program.push(Command::WriteParams(Span::Instant, Extra::Ray));
        self.reduce(&mut program, Pass::RayHits, Pass::ReduceNearest);
        program.push(self.take(Buffer::Probe));
        program.push(Command::Submit);
        assert(program@ =~= probed(self.buffers));
        proof {
            crate::programs::lemma_probe_runs(self.buffers, self.align as int);
        }
        Some(program)
    }

    fn reduce(&self, program: &mut Vec<Command>, first: Pass, reduce: Pass)
        ensures
            final(program)@ == old(program)@ + reduced(first, reduce, self.buffers),
    {
        program.push(Command::BeginPass);
        solve(program, first, self.buffers.reduce_size);
        run_levels(
            program,
            Kernel::Solver(reduce),
            Group::Solver(reduce),
            &self.buffers.reduce_levels.runs,
        );
        program.push(Command::EndPass);
        assert(program@ =~= old(program)@ + reduced(first, reduce, self.buffers));
    }

    fn take(&self, to: Buffer) -> (command: Command)
        requires
            self.buffers.reduce_size >= 2,
        ensures
            command == taken(self.buffers, to),
    {
        Command::Copy {
            from: Buffer::Stats,
            at: 16 * (self.buffers.reduce_size as u64 - 1),
            to,
            to_at: 0,
            bytes: Some(16),
        }
    }
}

fn push_read_back(program: &mut Vec<Command>, from: Buffer, to_at: u64, bytes: u64)
    ensures
        final(program)@ == old(program)@.push(read_back(from, to_at as int, bytes as int)),
{
    program.push(Command::Copy { from, at: 0, to: Buffer::Readback, to_at, bytes: Some(bytes) });
}

/// The readout from what the device measured: the sums of the compression and of
/// the bulk density, the number of samples in the bulk, and the peak speed. The
/// sums come over the particles and over the samples; with no samples there is
/// no bulk to report.
pub fn readout_of(stats: Quad, compression: Single, bulk: Single) -> (readout: Readout)
    ensures
        readout == (Readout {
            compression,
            bulk: if zero().below(stats.z) {
                bulk
            } else {
                Single { bits: NOT_A_NUMBER }
            },
            peak_speed: stats.w,
        }),
        readout.compression == compression,
        readout.peak_speed == stats.w,
        !stats.z.nan() && stats.z.rank() > 0 ==> readout.bulk == bulk,
        stats.z.nan() || stats.z.rank() <= 0 ==> readout.bulk.nan(),
{
    proof {
        crate::single::lemma_zero();
    }
    Readout {
        compression,
        bulk: if stats.z.gt(Single { bits: 0 }) {
            bulk
        } else {
            Single { bits: NOT_A_NUMBER }
        },
        peak_speed: stats.w,
    }
}

/// The particle a ray hit, if it hit one: the device marks a miss with a
/// distance beyond any scene.
pub fn ray_hit(point: Point, along: Single) -> (hit: Option<Point>)
    ensures
        hit is Some <==> (Single { bits: NO_HIT }).below(along),
        hit is Some <==> !along.nan() && along.rank() > (Single { bits: 0xff61_b1e6 }).rank(),
        hit is Some ==> hit->0 == point,
{
    if along.gt(Single { bits: NO_HIT }) {
        Some(point)
    } else {
        None
    }
}

} // verus!
