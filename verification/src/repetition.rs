//! Why runs on the device repeat.
//!
//! What the device is asked to run depends on the water and on what has been done
//! with it since it was last uploaded, and on nothing else that a solver
//! remembers. So two solvers given the same water ask for the same programs, and
//! a solver whose water is reset asks for those of a new one.
use vstd::prelude::*;
use vstd::arithmetic::power2::{lemma_pow2_strictly_increases, pow2};
use crate::gpu::{Command, GridOf};
use crate::gpu_fluid::{framed, is_least_power, rebuilt, renumbered, substep, substepped};
use crate::gpu_fluid::{Buffers, GpuFluid, GpuGrid};
use crate::gpu_params::Impulse;
use crate::sim::Fluid;
use crate::single::Single;

verus! {

/// Buffers of the same sizes.
pub open spec fn same_sizes(a: Buffers, b: Buffers) -> bool {
    &&& a.n == b.n
    &&& a.capacity == b.capacity
    &&& a.dims_x == b.dims_x
    &&& a.dims_y == b.dims_y
    &&& a.dims_z == b.dims_z
    &&& a.cells == b.cells
    &&& a.reduce_size == b.reduce_size
}

/// Two solvers that hold the same water, and have done as much with it since it
/// was uploaded. How often either has been renumbered, or had its buffers
/// replaced, does not matter.
pub open spec fn alike(a: GpuFluid, b: GpuFluid) -> bool {
    &&& a.wf()
    &&& b.wf()
    &&& a.align == b.align
    &&& same_sizes(a.buffers, b.buffers)
    &&& a.stepped == b.stepped
    &&& a.generation == b.generation
    &&& a.impulses@ == b.impulses@
}

/// There is only one least power of two.
proof fn lemma_least_power_is_one(p: int, q: int, n: int)
    requires
        is_least_power(p, n),
        is_least_power(q, n),
        n >= 1,
    ensures
        p == q,
{
    let i = choose|k: nat| #[trigger] pow2(k) == p;
    let j = choose|k: nat| #[trigger] pow2(k) == q;
    if p < q {
        lemma_next_power(i, j);
    }
    if q < p {
        lemma_next_power(j, i);
    }
}

/// The next power of two is twice as large.
proof fn lemma_next_power(i: nat, j: nat)
    requires
        pow2(i) < pow2(j),
    ensures
        2 * pow2(i) <= pow2(j),
{
    if j <= i {
        if j < i {
            lemma_pow2_strictly_increases(j, i);
        }
    } else {
        vstd::arithmetic::power2::lemma_pow2_unfold(i + 1);
        if i + 1 < j {
            lemma_pow2_strictly_increases(i + 1, j);
        }
    }
}

/// Grids of the same sizes run the same levels.
proof fn lemma_same_runs(a: GpuGrid, b: GpuGrid, align: int)
    requires
        a.wf(align),
        b.wf(align),
        a.n == b.n,
        a.cells == b.cells,
    ensures
        a.size == b.size,
        a.levels.runs@ == b.levels.runs@,
        rebuilt(GridOf::Solver, a) == rebuilt(GridOf::Solver, b),
{
    lemma_least_power_is_one(a.size as int, b.size as int, a.cells + 1);
    let k = choose|k: nat| #[trigger] pow2(k) == a.size;
    assert(pow2(k) == a.size && pow2(k) == b.size);
    let levels = crate::scan::schedule(k, true);
    assert(crate::gpu::tabulates(a.levels, levels, align));
    assert(crate::gpu::tabulates(b.levels, levels, align));
    assert(a.levels.runs@ =~= b.levels.runs@);
}

proof fn lemma_same_substeps(a: Buffers, b: Buffers, iterations: int, substeps: int)
    requires
        a.n == b.n,
        rebuilt(GridOf::Solver, a.grid) == rebuilt(GridOf::Solver, b.grid),
    ensures
        substepped(a, iterations, substeps) == substepped(b, iterations, substeps),
    decreases substeps,
{
    assert(substep(a, iterations) == substep(b, iterations));
    if substeps > 0 {
        lemma_same_substeps(a, b, iterations, substeps - 1);
    }
}

/// Over buffers of the same sizes, a frame is the same program.
proof fn lemma_same_frame(
    a: Buffers,
    b: Buffers,
    align: int,
    pushes: int,
    renumber: bool,
    iterations: int,
    substeps: int,
)
    requires
        a.wf(align),
        b.wf(align),
        same_sizes(a, b),
    ensures
        framed(a, pushes, renumber, iterations, substeps) == framed(
            b,
            pushes,
            renumber,
            iterations,
            substeps,
        ),
{
    lemma_same_runs(a.grid, b.grid, align);
    lemma_same_substeps(a, b, iterations, substeps);
    assert(renumbered(a) == renumbered(b));
}

/// Buffers made for the same fluid have the same sizes.
proof fn lemma_made_alike(a: Buffers, b: Buffers, fluid: Fluid, capacity: int)
    requires
        a.made_for(fluid, capacity),
        b.made_for(fluid, capacity),
    ensures
        same_sizes(a, b),
{
    let n = crate::gpu_fluid::slots_for(fluid.count as int);
    lemma_least_power_is_one(
        a.reduce_size as int,
        b.reduce_size as int,
        if n < 2 {
            2
        } else {
            n
        },
    );
}

/// An upload makes solvers alike, whatever each had done before: a solver whose
/// water was reset starts over as a new one would. The buffers that either keeps
/// are ones for this fluid's box, and the same pushes wait for it.
pub proof fn lemma_upload_starts_over(
    a: GpuFluid,
    b: GpuFluid,
    fluid: Fluid,
    then_a: GpuFluid,
    then_b: GpuFluid,
)
    requires
        a.uploads(fluid, then_a),
        b.uploads(fluid, then_b),
        a.align == b.align,
        a.buffers.capacity == b.buffers.capacity,
        then_a.buffers.made_for(fluid, a.buffers.capacity as int),
        then_b.buffers.made_for(fluid, b.buffers.capacity as int),
        then_a.impulses@ == then_b.impulses@,
    ensures
        alike(then_a, then_b),
{
    lemma_made_alike(then_a.buffers, then_b.buffers, fluid, a.buffers.capacity as int);
}

/// Runs repeat: alike solvers ask for the same program with the same pushes at
/// each step, and are alike after it.
pub proof fn lemma_runs_repeat(
    a: GpuFluid,
    b: GpuFluid,
    fluid: Fluid,
    dt: Single,
    then_a: GpuFluid,
    then_b: GpuFluid,
    work_a: (Seq<Command>, Seq<Impulse>),
    work_b: (Seq<Command>, Seq<Impulse>),
)
    requires
        alike(a, b),
        a.steps(fluid, dt, then_a, work_a.0, work_a.1),
        b.steps(fluid, dt, then_b, work_b.0, work_b.1),
    ensures
        work_a == work_b,
        alike(then_a, then_b),
{
    if fluid.count == 0 || dt.at_most(crate::single::zero()) {
        assert(work_a.0 =~= work_b.0);
        assert(work_a.1 =~= work_b.1);
    } else {
        if fluid.count != a.buffers.n {
            lemma_made_alike(then_a.buffers, then_b.buffers, fluid, a.buffers.capacity as int);
        }
        assert(then_a.impulses@ =~= then_b.impulses@);
        let stale = a.stale(fluid);
        lemma_same_frame(
            then_a.buffers,
            then_b.buffers,
            a.align as int,
            work_a.1.len() as int,
            !stale && a.stepped,
            fluid.params.iterations as int,
            if fluid.params.substeps == 0 {
                1
            } else {
                fluid.params.substeps as int
            },
        );
    }
}

/// A run's state after a step: the solver, what the device holds, and what the
/// step ran.
pub struct Stepped<M> {
    pub solver: GpuFluid,
    pub memory: M,
    pub program: Seq<Command>,
    pub pushes: Seq<Impulse>,
}

/// A device, by what it makes of its memory with a program and its pushes.
pub type Device<M> = spec_fn(M, Seq<Command>, Seq<Impulse>) -> M;

/// A run of some water: the solver takes step after step, with no more than the
/// neighbourhoods seen noted in between, and the device runs what it asks for.
pub open spec fn runs_on<M>(
    run: Seq<Stepped<M>>,
    fluid: Fluid,
    dt: Single,
    device: Device<M>,
) -> bool {
    forall|k: int|
        1 <= k < run.len() ==> runs_from(run[k - 1], #[trigger] run[k], fluid, dt, device)
}

/// One step of a run.
pub open spec fn runs_from<M>(
    was: Stepped<M>,
    now: Stepped<M>,
    fluid: Fluid,
    dt: Single,
    device: Device<M>,
) -> bool {
    &&& exists|ready: GpuFluid|
        {
            &&& ready == (GpuFluid { max_neighbors: ready.max_neighbors, ..was.solver })
            &&& #[trigger] ready.steps(fluid, dt, now.solver, now.program, now.pushes)
        }
    &&& now.memory == device(was.memory, now.program, now.pushes)
}

/// Two runs of the same water on alike solvers leave the device with the same
/// contents, step for step, and so what is downloaded is the same: the device
/// makes the same of the same programs.
pub proof fn lemma_runs_leave_the_same<M>(
    a: Seq<Stepped<M>>,
    b: Seq<Stepped<M>>,
    fluid: Fluid,
    dt: Single,
    device: Device<M>,
    k: int,
)
    requires
        runs_on(a, fluid, dt, device),
        runs_on(b, fluid, dt, device),
        0 <= k < a.len(),
        k < b.len(),
        alike(a[0].solver, b[0].solver),
        a[0].memory == b[0].memory,
    ensures
        a[k].memory == b[k].memory,
        alike(a[k].solver, b[k].solver),
    decreases k,
{
    if k > 0 {
        lemma_runs_leave_the_same(a, b, fluid, dt, device, k - 1);
        let (p, q) = (a[k - 1], b[k - 1]);
        assert(runs_from(p, a[k], fluid, dt, device));
        assert(runs_from(q, b[k], fluid, dt, device));
        let x = choose|ready: GpuFluid|
            {
                &&& ready == (GpuFluid { max_neighbors: ready.max_neighbors, ..p.solver })
                &&& #[trigger] ready.steps(fluid, dt, a[k].solver, a[k].program, a[k].pushes)
            };
        let y = choose|ready: GpuFluid|
            {
                &&& ready == (GpuFluid { max_neighbors: ready.max_neighbors, ..q.solver })
                &&& #[trigger] ready.steps(fluid, dt, b[k].solver, b[k].program, b[k].pushes)
            };
        lemma_runs_repeat(
            x,
            y,
            fluid,
            dt,
            a[k].solver,
            b[k].solver,
            (a[k].program, a[k].pushes),
            (b[k].program, b[k].pushes),
        );
    }
}

} // verus!
