//! What holds of every program that the solver, the surface and the spray ask a
//! device to run: dispatches go inside passes and all else outside, copies stay
//! within their buffers, and nothing that was encoded is left unsubmitted.
use vstd::prelude::*;
use crate::gpu::{Buffer, Command, GridOf, Group, Kernel, Levels, ScanOf};
use crate::gpu::{ran, ran_levels, swept, walk, Runs};
use crate::gpu::{lemma_walk_joins, lemma_walk_one, lemma_walk_ran, lemma_walk_ran_levels};
use crate::gpu_fluid::{
    all_pushed, copied, downloaded, finished, framed, gathered, iterated, measured, passed, probed,
    pushed, rebuilt, reduced, renumbered, solved, substep, substepped, taken, uploaded,
};
use crate::gpu_fluid::{lemma_storage, Buffers, GpuGrid};
use crate::sim_gpu::Pass;
use crate::spray_gpu::{spray_program, GpuSpray, SprayPass};
use crate::surface_gpu::{surface_program, totalled, GpuSurface, SurfaceParams, SurfacePass};

verus! {

/// The bytes set aside for each buffer.
pub type Held = spec_fn(Buffer) -> int;

/// What the solver sets aside.
pub open spec fn held_by(b: Buffers) -> Held {
    |buffer: Buffer| b.bytes(buffer)
}

/// A copy stays inside both its buffers; one of a whole buffer needs room for
/// all of it.
pub open spec fn in_bounds(held: Held, command: Command) -> bool {
    match command {
        Command::Copy { from, at, to, to_at, bytes } => {
            let length = match bytes {
                Some(bytes) => bytes as int,
                None => held(from) - at,
            };
            &&& 0 <= length
            &&& at + length <= held(from)
            &&& to_at + length <= held(to)
            &&& at % 4 == 0
            &&& to_at % 4 == 0
            &&& length % 4 == 0
        },
        _ => true,
    }
}

/// A program that can be run as it stands: it opens and closes its passes, and
/// every copy is in bounds.
pub open spec fn sound(held: Held, program: Seq<Command>) -> bool {
    &&& walk(program, false) == Some(false)
    &&& forall|k: int| 0 <= k < program.len() ==> in_bounds(held, #[trigger] program[k])
}

/// Commands for inside a pass.
pub open spec fn inside(program: Seq<Command>) -> bool {
    &&& walk(program, true) == Some(true)
    &&& forall|k: int| 0 <= k < program.len() ==> !((#[trigger] program[k]) is Copy)
}

proof fn lemma_sound_joins(held: Held, p: Seq<Command>, q: Seq<Command>)
    requires
        sound(held, p),
        sound(held, q),
    ensures
        sound(held, p + q),
{
    lemma_walk_joins(p, q, false);
    assert forall|k: int| 0 <= k < (p + q).len() implies in_bounds(held, #[trigger] (p + q)[k]) by {
        if k < p.len() {
            assert((p + q)[k] == p[k]);
        } else {
            assert((p + q)[k] == q[k - p.len()]);
        }
    }
}

proof fn lemma_sound_one(held: Held, command: Command)
    requires
        in_bounds(held, command),
        !(command is Pipeline || command is Bind || command is Dispatch || command is BeginPass
            || command is EndPass),
    ensures
        sound(held, seq![command]),
{
    lemma_walk_one(command, false);
}

proof fn lemma_inside_joins(p: Seq<Command>, q: Seq<Command>)
    requires
        inside(p),
        inside(q),
    ensures
        inside(p + q),
{
    lemma_walk_joins(p, q, true);
    assert forall|k: int| 0 <= k < (p + q).len() implies !((#[trigger] (p + q)[k]) is Copy) by {
        if k < p.len() {
            assert((p + q)[k] == p[k]);
        } else {
            assert((p + q)[k] == q[k - p.len()]);
        }
    }
}

proof fn lemma_inside_ran(kernel: Kernel, group: Group, count: u32)
    ensures
        inside(ran(kernel, group, count)),
{
    lemma_walk_ran(kernel, group, count);
}

proof fn lemma_no_copies(group: Group, runs: Runs)
    ensures
        forall|k: int|
            0 <= k < swept(group, runs).len() ==> !((#[trigger] swept(group, runs)[k]) is Copy),
    decreases runs.len(),
{
    if runs.len() > 0 {
        lemma_no_copies(group, runs.drop_last());
        let rest = swept(group, runs.drop_last());
        let s = swept(group, runs);
        assert forall|k: int| 0 <= k < s.len() implies !((#[trigger] s[k]) is Copy) by {
            if k < rest.len() {
                assert(s[k] == rest[k]);
            }
        }
    }
}

proof fn lemma_inside_levels(kernel: Kernel, group: Group, runs: Runs)
    ensures
        inside(ran_levels(kernel, group, runs)),
{
    lemma_walk_ran_levels(kernel, group, runs);
    lemma_no_copies(group, runs);
    let s = ran_levels(kernel, group, runs);
    assert forall|k: int| 0 <= k < s.len() implies !((#[trigger] s[k]) is Copy) by {
        if k > 0 {
            assert(s[k] == swept(group, runs)[k - 1]);
        }
    }
}

proof fn lemma_sound_passed(held: Held, inner: Seq<Command>)
    requires
        inside(inner),
    ensures
        sound(held, passed(inner)),
{
    let (begin, end) = (seq![Command::BeginPass], seq![Command::EndPass]);
    lemma_walk_one(Command::BeginPass, false);
    lemma_walk_one(Command::EndPass, true);
    lemma_walk_joins(begin, inner, false);
    lemma_walk_joins(begin + inner, end, false);
    let s = passed(inner);
    assert forall|k: int| 0 <= k < s.len() implies in_bounds(held, #[trigger] s[k]) by {
        if 0 < k <= inner.len() {
            assert(s[k] == inner[k - 1]);
        }
    }
}

/// The lengths that the particle buffers come out at.
proof fn lemma_lengths(b: Buffers, align: int)
    requires
        b.wf(align),
    ensures
        b.bytes(Buffer::Positions) == 16 * b.n,
        b.bytes(Buffer::Scratch) == 16 * b.n,
        b.bytes(Buffer::Foam) == 4 * b.n,
        b.bytes(Buffer::MaxNeighbors) == 4,
        b.bytes(Buffer::Stats) == 16 * b.reduce_size,
        b.bytes(Buffer::Top) == 16,
        b.bytes(Buffer::Probe) == 16,
        b.bytes(Buffer::Readback) == 60 * b.n,
        b.bytes(Buffer::Starts(GridOf::Solver)) == 4 * b.grid.size,
{
    lemma_storage(4 * b.n);
    lemma_storage(b.n as int);
    lemma_storage(1);
    lemma_storage(4);
    lemma_storage(4 * b.reduce_size);
    lemma_storage(15 * b.n);
    lemma_storage(b.grid.size as int);
}

/// A grid's rebuild is sound wherever there is as much room for the cursors as
/// for the starts that they are copied from.
proof fn lemma_rebuilt_is_sound(held: Held, g: GridOf, grid: GpuGrid)
    requires
        0 <= held(Buffer::Starts(g)) <= held(Buffer::Cursor(g)),
        held(Buffer::Starts(g)) % 4 == 0,
    ensures
        sound(held, rebuilt(g, grid)),
{
    let clear = seq![Command::Clear(Buffer::Starts(g))];
    let bin = ran(Kernel::Solver(Pass::Bin), Group::Grid(g, Pass::Bin), grid.n);
    let count = ran(Kernel::Solver(Pass::Count), Group::Grid(g, Pass::Count), grid.n);
    let prefix = ran_levels(
        Kernel::Solver(Pass::Prefix),
        Group::Grid(g, Pass::Prefix),
        grid.levels.runs@,
    );
    let scatter = ran(Kernel::Solver(Pass::Scatter), Group::Grid(g, Pass::Scatter), grid.n);
    let sort = ran(Kernel::Solver(Pass::SortCells), Group::Grid(g, Pass::SortCells), grid.cells);
    lemma_inside_ran(Kernel::Solver(Pass::Bin), Group::Grid(g, Pass::Bin), grid.n);
    lemma_inside_ran(Kernel::Solver(Pass::Count), Group::Grid(g, Pass::Count), grid.n);
    lemma_inside_levels(
        Kernel::Solver(Pass::Prefix),
        Group::Grid(g, Pass::Prefix),
        grid.levels.runs@,
    );
    lemma_inside_joins(bin, count);
    lemma_inside_joins(bin + count, prefix);
    lemma_inside_ran(Kernel::Solver(Pass::Scatter), Group::Grid(g, Pass::Scatter), grid.n);
    lemma_inside_ran(Kernel::Solver(Pass::SortCells), Group::Grid(g, Pass::SortCells), grid.cells);
    lemma_inside_joins(scatter, sort);
    let first = passed(bin + count + prefix);
    let second = passed(scatter + sort);
    lemma_sound_passed(held, bin + count + prefix);
    lemma_sound_passed(held, scatter + sort);
    let copy = copied(Buffer::Starts(g), Buffer::Cursor(g));
    lemma_sound_one(held, Command::Clear(Buffer::Starts(g)));
    lemma_sound_one(held, copy);
    lemma_sound_joins(held, clear, first);
    lemma_sound_joins(held, clear + first, seq![copy]);
    lemma_sound_joins(held, clear + first + seq![copy], second);
}

/// A rebuild of the solver's grid is sound.
pub proof fn lemma_rebuild_is_sound(b: Buffers, align: int)
    requires
        b.wf(align),
    ensures
        sound(held_by(b), rebuilt(GridOf::Solver, b.grid)),
{
    lemma_lengths(b, align);
    lemma_rebuilt_is_sound(held_by(b), GridOf::Solver, b.grid);
}

proof fn lemma_gather_is_sound(b: Buffers, align: int, target: Buffer)
    requires
        b.wf(align),
        target is Positions || target is Previous || target is Velocities || target is Foam
            || target is Spray || target is Ids,
    ensures
        sound(held_by(b), gathered(target, b.n as u32, b.bytes(target) as u64)),
{
    lemma_lengths(b, align);
    let kernel = Kernel::Solver(crate::sim_gpu::gather_pass(target));
    lemma_inside_ran(kernel, Group::Gather(target), b.n as u32);
    let first = passed(ran(kernel, Group::Gather(target), b.n as u32));
    lemma_sound_passed(held_by(b), ran(kernel, Group::Gather(target), b.n as u32));
    let copy = Command::Copy {
        from: crate::sim_gpu::gather_out(target),
        at: 0,
        to: target,
        to_at: 0,
        bytes: Some(b.bytes(target) as u64),
    };
    lemma_sound_one(held_by(b), copy);
    lemma_sound_joins(held_by(b), first, seq![copy]);
}

/// Renumbering the particles is sound.
pub proof fn lemma_renumber_is_sound(b: Buffers, align: int)
    requires
        b.wf(align),
    ensures
        sound(held_by(b), renumbered(b)),
{
    let n = b.n as u32;
    let p1 = gathered(Buffer::Positions, n, b.bytes(Buffer::Positions) as u64);
    let p2 = gathered(Buffer::Previous, n, b.bytes(Buffer::Previous) as u64);
    let p3 = gathered(Buffer::Velocities, n, b.bytes(Buffer::Velocities) as u64);
    let p4 = gathered(Buffer::Foam, n, b.bytes(Buffer::Foam) as u64);
    let p5 = gathered(Buffer::Spray, n, b.bytes(Buffer::Spray) as u64);
    let p6 = gathered(Buffer::Ids, n, b.bytes(Buffer::Ids) as u64);
    lemma_gather_is_sound(b, align, Buffer::Positions);
    lemma_gather_is_sound(b, align, Buffer::Previous);
    lemma_gather_is_sound(b, align, Buffer::Velocities);
    lemma_gather_is_sound(b, align, Buffer::Foam);
    lemma_gather_is_sound(b, align, Buffer::Spray);
    lemma_gather_is_sound(b, align, Buffer::Ids);
    lemma_sound_joins(held_by(b), p1, p2);
    lemma_sound_joins(held_by(b), p1 + p2, p3);
    lemma_sound_joins(held_by(b), p1 + p2 + p3, p4);
    lemma_sound_joins(held_by(b), p1 + p2 + p3 + p4, p5);
    lemma_sound_joins(held_by(b), p1 + p2 + p3 + p4 + p5, p6);
}

proof fn lemma_inside_solved(pass: Pass, count: u32)
    ensures
        inside(solved(pass, count)),
{
    lemma_inside_ran(Kernel::Solver(pass), Group::Solver(pass), count);
}

proof fn lemma_inside_iterated(n: u32, iterations: int)
    ensures
        inside(iterated(n, iterations)),
    decreases iterations,
{
    if iterations > 0 {
        lemma_inside_iterated(n, iterations - 1);
        let rest = iterated(n, iterations - 1);
        lemma_inside_solved(Pass::Lambda, n);
        lemma_inside_solved(Pass::Delta, n);
        lemma_inside_solved(Pass::ApplyDelta, n);
        let (x, y) = (solved(Pass::Lambda, n), solved(Pass::Delta, n));
        let z = solved(Pass::ApplyDelta, n);
        lemma_inside_joins(rest, x);
        lemma_inside_joins(rest + x, y);
        lemma_inside_joins(rest + x + y, z);
    }
}

/// A substep is sound, however often it iterates.
pub proof fn lemma_substep_is_sound(b: Buffers, align: int, iterations: int)
    requires
        b.wf(align),
    ensures
        sound(held_by(b), substep(b, iterations)),
{
    let n = b.n as u32;
    lemma_lengths(b, align);
    lemma_inside_solved(Pass::Predict, n);
    lemma_inside_solved(Pass::Neighbors, n);
    lemma_inside_iterated(n, iterations);
    lemma_inside_solved(Pass::Velocity, n);
    lemma_inside_solved(Pass::Viscosity, n);
    let (near, it) = (solved(Pass::Neighbors, n), iterated(n, iterations));
    let (vel, visc) = (solved(Pass::Velocity, n), solved(Pass::Viscosity, n));
    lemma_inside_joins(near, it);
    lemma_inside_joins(near + it, vel);
    lemma_inside_joins(near + it + vel, visc);
    let first = passed(solved(Pass::Predict, n));
    let second = passed(near + it + vel + visc);
    lemma_sound_passed(held_by(b), solved(Pass::Predict, n));
    lemma_sound_passed(held_by(b), near + it + vel + visc);
    lemma_rebuild_is_sound(b, align);
    let grid = rebuilt(GridOf::Solver, b.grid);
    let copy = copied(Buffer::Scratch, Buffer::Velocities);
    lemma_sound_one(held_by(b), copy);
    lemma_sound_joins(held_by(b), first, grid);
    lemma_sound_joins(held_by(b), first + grid, second);
    lemma_sound_joins(held_by(b), first + grid + second, seq![copy]);
}

proof fn lemma_pushes_are_sound(b: Buffers, count: int)
    ensures
        sound(held_by(b), all_pushed(count, b.n as u32)),
    decreases count,
{
    let n = b.n as u32;
    if count > 0 {
        lemma_pushes_are_sound(b, count - 1);
        let write = Command::WriteParams(
            crate::gpu::Span::Substep,
            crate::gpu::Extra::Impulse((count - 1) as usize),
        );
        lemma_inside_solved(Pass::Impulse, n);
        lemma_sound_passed(held_by(b), solved(Pass::Impulse, n));
        let run = passed(solved(Pass::Impulse, n));
        lemma_sound_one(held_by(b), write);
        lemma_sound_one(held_by(b), Command::Submit);
        lemma_sound_joins(held_by(b), seq![write], run);
        lemma_sound_joins(held_by(b), seq![write] + run, seq![Command::Submit]);
        lemma_sound_joins(held_by(b), all_pushed(count - 1, n), pushed(count - 1, n));
    }
}

proof fn lemma_substeps_are_sound(b: Buffers, align: int, iterations: int, substeps: int)
    requires
        b.wf(align),
    ensures
        sound(held_by(b), substepped(b, iterations, substeps)),
    decreases substeps,
{
    if substeps > 0 {
        lemma_substeps_are_sound(b, align, iterations, substeps - 1);
        let rest = substepped(b, iterations, substeps - 1);
        let write = Command::WriteParams(crate::gpu::Span::Substep, crate::gpu::Extra::Nothing);
        let head = seq![Command::AdvanceClock, write];
        lemma_sound_one(held_by(b), Command::AdvanceClock);
        lemma_sound_one(held_by(b), write);
        lemma_sound_joins(held_by(b), seq![Command::AdvanceClock], seq![write]);
        assert(seq![Command::AdvanceClock] + seq![write] =~= head);
        lemma_substep_is_sound(b, align, iterations);
        lemma_sound_one(held_by(b), Command::Submit);
        lemma_sound_joins(held_by(b), rest, head);
        lemma_sound_joins(held_by(b), rest + head, substep(b, iterations));
        lemma_sound_joins(held_by(b), rest + head + substep(b, iterations), seq![Command::Submit]);
    }
}

proof fn lemma_finish_is_sound(b: Buffers, align: int)
    requires
        b.wf(align),
    ensures
        sound(held_by(b), finished(b.n as u32)),
{
    let n = b.n as u32;
    lemma_lengths(b, align);
    let write = Command::WriteParams(crate::gpu::Span::Frame, crate::gpu::Extra::Nothing);
    let copy = Command::Copy {
        from: Buffer::MaxNeighbors,
        at: 0,
        to: Buffer::Probe,
        to_at: 0,
        bytes: Some(4),
    };
    lemma_inside_solved(Pass::Foam, n);
    lemma_sound_passed(held_by(b), solved(Pass::Foam, n));
    let run = passed(solved(Pass::Foam, n));
    lemma_sound_one(held_by(b), write);
    lemma_sound_one(held_by(b), copy);
    lemma_sound_one(held_by(b), Command::Submit);
    lemma_sound_joins(held_by(b), seq![copy], seq![Command::Submit]);
    assert(seq![copy] + seq![Command::Submit] =~= seq![copy, Command::Submit]);
    lemma_sound_joins(held_by(b), seq![write], run);
    lemma_sound_joins(held_by(b), seq![write] + run, seq![copy, Command::Submit]);
}

/// A frame is sound, whatever was queued and however many substeps it takes,
/// and nothing is left unsubmitted at its end.
pub proof fn lemma_frame_is_sound(
    b: Buffers,
    align: int,
    impulses: int,
    renumber: bool,
    iterations: int,
    substeps: int,
)
    requires
        b.wf(align),
    ensures
        sound(held_by(b), framed(b, impulses, renumber, iterations, substeps)),
        framed(b, impulses, renumber, iterations, substeps).last() == Command::Submit,
{
    let n = b.n as u32;
    lemma_lengths(b, align);
    let write = Command::WriteParams(crate::gpu::Span::Substep, crate::gpu::Extra::Nothing);
    let numbered = if renumber {
        seq![write] + renumbered(b)
    } else {
        Seq::empty()
    };
    lemma_sound_one(held_by(b), write);
    lemma_renumber_is_sound(b, align);
    lemma_sound_joins(held_by(b), seq![write], renumbered(b));
    assert(sound(held_by(b), numbered));
    let pushes = all_pushed(impulses, n);
    lemma_pushes_are_sound(b, impulses);
    let copy = copied(Buffer::Positions, Buffer::Previous);
    lemma_sound_one(held_by(b), copy);
    lemma_substeps_are_sound(b, align, iterations, substeps);
    lemma_finish_is_sound(b, align);
    let steps = substepped(b, iterations, substeps);
    lemma_sound_joins(held_by(b), pushes, numbered);
    lemma_sound_joins(held_by(b), pushes + numbered, seq![copy]);
    lemma_sound_joins(held_by(b), pushes + numbered + seq![copy], steps);
    lemma_sound_joins(held_by(b), pushes + numbered + seq![copy] + steps, finished(n));
}

/// An upload is sound.
pub proof fn lemma_upload_is_sound(b: Buffers, reallocate: bool)
    ensures
        sound(held_by(b), uploaded(reallocate)),
{
    let program = uploaded(reallocate);
    lemma_outside(program, program.len() as int);
}

/// Commands that are neither a pass's bounds nor for inside one walk straight
/// through.
proof fn lemma_outside(program: Seq<Command>, n: int)
    requires
        0 <= n <= program.len(),
        forall|k: int|
            0 <= k < program.len() ==> !((#[trigger] program[k]) is Pipeline || program[k] is Bind
                || program[k] is Dispatch || program[k] is BeginPass || program[k] is EndPass),
    ensures
        walk(program.take(n), false) == Some(false),
        walk(program, false) == Some(false) || n < program.len(),
    decreases n,
{
    if n > 0 {
        lemma_outside(program, n - 1);
        assert(program.take(n).drop_last() =~= program.take(n - 1));
        assert(program.take(n).last() == program[n - 1]);
    }
    if n == program.len() {
        assert(program.take(n) =~= program);
    }
}

/// Reading the particles back is sound, and fills the readback exactly: each
/// copy starts where the one before it ended.
pub proof fn lemma_download_is_sound(b: Buffers, align: int)
    requires
        b.wf(align),
    ensures
        sound(held_by(b), downloaded(b.n as int)),
{
    lemma_lengths(b, align);
    let program = downloaded(b.n as int);
    lemma_outside(program, program.len() as int);
}

proof fn lemma_reduced_is_sound(b: Buffers, first: Pass, reduce: Pass)
    ensures
        sound(held_by(b), reduced(first, reduce, b)),
{
    lemma_inside_solved(first, b.reduce_size);
    lemma_inside_levels(Kernel::Solver(reduce), Group::Solver(reduce), b.reduce_levels.runs@);
    let sweep = ran_levels(Kernel::Solver(reduce), Group::Solver(reduce), b.reduce_levels.runs@);
    lemma_inside_joins(solved(first, b.reduce_size), sweep);
    lemma_sound_passed(held_by(b), solved(first, b.reduce_size) + sweep);
}

/// The title's measurements are sound.
pub proof fn lemma_readout_is_sound(b: Buffers, align: int)
    requires
        b.wf(align),
    ensures
        sound(held_by(b), measured(b)),
{
    lemma_lengths(b, align);
    let write = Command::WriteParams(crate::gpu::Span::Instant, crate::gpu::Extra::Nothing);
    let (top, rest) = (reduced(Pass::MeasureTop, Pass::Reduce, b), reduced(
        Pass::Measure,
        Pass::Reduce,
        b,
    ));
    lemma_reduced_is_sound(b, Pass::MeasureTop, Pass::Reduce);
    lemma_reduced_is_sound(b, Pass::Measure, Pass::Reduce);
    lemma_sound_one(held_by(b), write);
    lemma_sound_one(held_by(b), taken(b, Buffer::Top));
    lemma_sound_one(held_by(b), taken(b, Buffer::Probe));
    lemma_sound_one(held_by(b), Command::Submit);
    lemma_sound_joins(held_by(b), seq![taken(b, Buffer::Probe)], seq![Command::Submit]);
    assert(seq![taken(b, Buffer::Probe)] + seq![Command::Submit] =~= seq![
        taken(b, Buffer::Probe),
        Command::Submit,
    ]);
    lemma_sound_joins(held_by(b), seq![write], top);
    lemma_sound_joins(held_by(b), seq![write] + top, seq![taken(b, Buffer::Top)]);
    lemma_sound_joins(held_by(b), seq![write] + top + seq![taken(b, Buffer::Top)], rest);
    lemma_sound_joins(held_by(b), seq![write] + top + seq![taken(b, Buffer::Top)] + rest,
        seq![taken(b, Buffer::Probe), Command::Submit],
    );
}

/// The search along a ray is sound.
pub proof fn lemma_probe_is_sound(b: Buffers, align: int)
    requires
        b.wf(align),
    ensures
        sound(held_by(b), probed(b)),
{
    lemma_lengths(b, align);
    let write = Command::WriteParams(crate::gpu::Span::Instant, crate::gpu::Extra::Ray);
    let search = reduced(Pass::RayHits, Pass::ReduceNearest, b);
    lemma_reduced_is_sound(b, Pass::RayHits, Pass::ReduceNearest);
    lemma_sound_one(held_by(b), write);
    lemma_sound_one(held_by(b), taken(b, Buffer::Probe));
    lemma_sound_one(held_by(b), Command::Submit);
    lemma_sound_joins(held_by(b), seq![taken(b, Buffer::Probe)], seq![Command::Submit]);
    assert(seq![taken(b, Buffer::Probe)] + seq![Command::Submit] =~= seq![
        taken(b, Buffer::Probe),
        Command::Submit,
    ]);
    lemma_sound_joins(held_by(b), seq![write], search);
    lemma_sound_joins(held_by(b), seq![write] + search,
        seq![taken(b, Buffer::Probe), Command::Submit],
    );
}

/// After an upload the device holds the fluid's particles: nothing is stale, no
/// neighbourhood has been seen yet, and the next step plays the pushes it would
/// have played without the upload.
pub proof fn lemma_upload_settles(
    before: crate::gpu_fluid::GpuFluid,
    fluid: crate::sim::Fluid,
    after: crate::gpu_fluid::GpuFluid,
)
    requires
        before.uploads(fluid, after),
    ensures
        !after.stale(fluid),
        !after.stepped,
        after.max_neighbors == 0,
        crate::gpu_fluid::played(after.impulses@, fluid.generation) == crate::gpu_fluid::played(
            before.impulses@,
            fluid.generation,
        ),
{
    crate::gpu_fluid::lemma_kept_pushes_are_played(before.impulses@, fluid.generation);
}

/// What a surface sets aside.
pub open spec fn held_by_surface(surface: GpuSurface) -> Held {
    |buffer: Buffer| surface.bytes(buffer)
}

/// What a spray sets aside.
pub open spec fn held_by_spray(spray: GpuSpray) -> Held {
    |buffer: Buffer| spray.bytes(buffer)
}

/// Reading the total past the last offset is sound where there is an offset
/// past the last.
proof fn lemma_total_is_sound(held: Held, scan: ScanOf, count: u32)
    requires
        4 * count + 4 <= held(Buffer::Offsets(scan)),
        held(Buffer::Drawn(scan)) >= 4,
        held(Buffer::Total(scan)) >= 4,
    ensures
        sound(held, totalled(scan, count)),
{
    let s = totalled(scan, count);
    lemma_sound_one(held, s[0]);
    lemma_sound_one(held, s[1]);
    lemma_sound_one(held, s[2]);
    lemma_sound_joins(held, seq![s[0]], seq![s[1]]);
    lemma_sound_joins(held, seq![s[0]] + seq![s[1]], seq![s[2]]);
    assert(s =~= seq![s[0]] + seq![s[1]] + seq![s[2]]);
}

/// A surface's rebuild is sound: it opens and closes its passes, its copies stay
/// within the surface's buffers, and it submits what it encodes.
pub proof fn lemma_surface_is_sound(surface: GpuSurface, align: int, capacity: u32)
    requires
        surface.wf(align),
    ensures
        sound(
            held_by_surface(surface),
            surface_program(surface.base, surface.grid, surface.levels, capacity),
        ),
        surface_program(surface.base, surface.grid, surface.levels, capacity).last()
            == Command::Submit,
{
    let held = held_by_surface(surface);
    let (base, grid, levels) = (surface.base, surface.grid, surface.levels);
    lemma_storage(grid.size as int);
    lemma_storage(surface.offsets_size as int);
    lemma_storage(1);
    let of = |pass: SurfacePass, count: u32|
        ran(Kernel::Surface(pass), Group::Surface(pass), count);
    let (p1, p2, p3, p4, p5) = (
        SurfacePass::Interpolate,
        SurfacePass::SampleDensity,
        SurfacePass::Classify,
        SurfacePass::Emit,
        SurfacePass::ClearTail,
    );
    let scan = ScanOf::Surface;
    let sweep = ran_levels(Kernel::Solver(Pass::Prefix), Group::Scan(scan), levels.runs@);
    lemma_inside_ran(Kernel::Surface(p1), Group::Surface(p1), base.n);
    lemma_inside_ran(Kernel::Surface(p2), Group::Surface(p2), base.voxel_count);
    lemma_inside_ran(Kernel::Surface(p3), Group::Surface(p3), base.cube_count);
    lemma_inside_levels(Kernel::Solver(Pass::Prefix), Group::Scan(scan), levels.runs@);
    lemma_inside_ran(Kernel::Surface(p4), Group::Surface(p4), base.cube_count);
    lemma_inside_ran(Kernel::Surface(p5), Group::Surface(p5), capacity);
    let (s1, s2, s3) = (of(p1, base.n), of(p2, base.voxel_count), of(p3, base.cube_count));
    let (s4, s5) = (of(p4, base.cube_count), of(p5, capacity));
    lemma_inside_joins(s2, s3);
    lemma_inside_joins(s2 + s3, sweep);
    lemma_inside_joins(s2 + s3 + sweep, s4);
    lemma_inside_joins(s2 + s3 + sweep + s4, s5);
    lemma_sound_passed(held, s1);
    lemma_sound_passed(held, s2 + s3 + sweep + s4 + s5);
    lemma_rebuilt_is_sound(held, GridOf::Surface, grid);
    let write = seq![Command::Write(Buffer::SurfaceParams)];
    let clear = seq![Command::Clear(Buffer::Offsets(scan))];
    lemma_sound_one(held, Command::Write(Buffer::SurfaceParams));
    lemma_sound_one(held, Command::Clear(Buffer::Offsets(scan)));
    let tail = totalled(scan, base.cube_count);
    lemma_total_is_sound(held, scan, base.cube_count);
    let first = passed(s1);
    let sort = rebuilt(GridOf::Surface, grid);
    let second = passed(s2 + s3 + sweep + s4 + s5);
    lemma_sound_joins(held, write, first);
    lemma_sound_joins(held, write + first, sort);
    lemma_sound_joins(held, write + first + sort, clear);
    lemma_sound_joins(held, write + first + sort + clear, second);
    lemma_sound_joins(held, write + first + sort + clear + second, tail);
}

/// A spray's rebuild is sound: it opens and closes its passes, its copies stay
/// within the spray's buffers, and it submits what it encodes.
pub proof fn lemma_spray_is_sound(spray: GpuSpray, align: int, capacity: u32)
    requires
        spray.wf(align),
    ensures
        sound(held_by_spray(spray), spray_program(spray.n, spray.levels, capacity)),
        spray_program(spray.n, spray.levels, capacity).last() == Command::Submit,
{
    let held = held_by_spray(spray);
    let (n, levels) = (spray.n, spray.levels);
    lemma_storage(spray.offsets_size as int);
    lemma_storage(1);
    let of = |pass: SprayPass, count: u32| ran(Kernel::Spray(pass), Group::Spray(pass), count);
    let (p1, p2, p3) = (SprayPass::Select, SprayPass::Place, SprayPass::Clear);
    let scan = ScanOf::Spray;
    let sweep = ran_levels(Kernel::Solver(Pass::Prefix), Group::Scan(scan), levels.runs@);
    lemma_inside_ran(Kernel::Spray(p1), Group::Spray(p1), n);
    lemma_inside_levels(Kernel::Solver(Pass::Prefix), Group::Scan(scan), levels.runs@);
    lemma_inside_ran(Kernel::Spray(p2), Group::Spray(p2), n);
    lemma_inside_ran(Kernel::Spray(p3), Group::Spray(p3), capacity);
    let (s1, s2, s3) = (of(p1, n), of(p2, n), of(p3, capacity));
    lemma_inside_joins(s1, sweep);
    lemma_inside_joins(s1 + sweep, s2);
    lemma_inside_joins(s1 + sweep + s2, s3);
    lemma_sound_passed(held, s1 + sweep + s2 + s3);
    let write = Command::Write(Buffer::SprayParams);
    let clear = Command::Clear(Buffer::Offsets(scan));
    lemma_sound_one(held, write);
    lemma_sound_one(held, clear);
    lemma_sound_joins(held, seq![write], seq![clear]);
    let head = seq![write, clear];
    assert(head =~= seq![write] + seq![clear]);
    let tail = totalled(scan, n);
    lemma_total_is_sound(held, scan, n);
    lemma_sound_joins(held, head, passed(s1 + sweep + s2 + s3));
    lemma_sound_joins(held, head + passed(s1 + sweep + s2 + s3), tail);
}

/// All that a surface's rebuild runs up to where the triangles are counted.
pub open spec fn surface_counted(base: SurfaceParams, grid: GpuGrid, levels: Levels) -> Seq<
    Command,
> {
    let of = |pass: SurfacePass, count: u32|
        ran(Kernel::Surface(pass), Group::Surface(pass), count);
    seq![Command::Write(Buffer::SurfaceParams)] + passed(of(SurfacePass::Interpolate, base.n))
        + rebuilt(GridOf::Surface, grid) + seq![Command::Clear(Buffer::Offsets(ScanOf::Surface))]
        + seq![Command::BeginPass] + of(SurfacePass::SampleDensity, base.voxel_count) + of(
        SurfacePass::Classify,
        base.cube_count,
    ) + ran_levels(
        Kernel::Solver(Pass::Prefix),
        Group::Scan(ScanOf::Surface),
        levels.runs@,
    )
}

/// What it runs to draw them, into room for this many vertices.
pub open spec fn surface_drawn(base: SurfaceParams, capacity: u32) -> Seq<Command> {
    ran(
        Kernel::Surface(SurfacePass::Emit),
        Group::Surface(SurfacePass::Emit),
        base.cube_count,
    ) + ran(
        Kernel::Surface(SurfacePass::ClearTail),
        Group::Surface(SurfacePass::ClearTail),
        capacity,
    ) + seq![Command::EndPass]
}

/// A surface's rebuild reads the same total whatever its target: the triangles
/// are counted before the target comes in, the total is read from the same place
/// whatever was drawn, and drawing writes, clears and copies no buffer but
/// through its two passes.
pub proof fn lemma_total_ignores_the_target(
    base: SurfaceParams,
    grid: GpuGrid,
    levels: Levels,
    capacity: u32,
)
    ensures
        surface_program(base, grid, levels, capacity) == surface_counted(base, grid, levels)
            + surface_drawn(base, capacity) + totalled(ScanOf::Surface, base.cube_count),
        forall|k: int|
            0 <= k < surface_drawn(base, capacity).len() ==> {
                let command = #[trigger] surface_drawn(base, capacity)[k];
                command is Pipeline || command is Bind || command is Dispatch || command is EndPass
            },
{
    assert(surface_program(base, grid, levels, capacity) =~= surface_counted(base, grid, levels)
        + surface_drawn(base, capacity) + totalled(ScanOf::Surface, base.cube_count));
}

} // verus!
