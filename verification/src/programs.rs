//! What the programs for a device come to, told by what is launched, copied and
//! written, in order.
//!
//! A program sets pipelines and bindings, opens and closes passes, and dispatches.
//! Here it is read the way a device reads it: each dispatch launches the kernel
//! that was set last, over the group that was bound last. What remains are its
//! deeds, and the laws say for each program how many there are and which one
//! stands where.
use vstd::prelude::*;
use vstd::arithmetic::power2::{lemma_pow2_adds, lemma_pow2_pos, lemma_pow2_unfold, pow2};
use crate::gpu::{dispatched, ran, ran_levels, swept, Buffer, Command, Extra, GridOf, Group};
use crate::gpu::{Kernel, Levels, Runs, ScanOf, Span};
use crate::gpu_fluid::{
    all_pushed, copied, finished, framed, gathered, iterated, measured, passed, probed, pushed,
    rebuilt, reduced, renumbered, solved, substep, substepped, taken, uploaded,
};
use crate::gpu_fluid::{Buffers, GpuFluid, GpuGrid};
use crate::gpu_params::Impulse;
use crate::scan::schedule;
use crate::sim::Fluid;
use crate::sim_gpu::Pass;
use crate::single::Single;
use crate::spray_gpu::{spray_program, GpuSpray, SprayPass};
use crate::surface_gpu::{surface_program, GpuSurface, SurfacePass};

verus! {

/// One thing that a device does.
pub enum Deed {
    /// A kernel over what is bound, at an offset if there is one, in so many
    /// workgroups each way.
    Launch {
        kernel: Option<Kernel>,
        bound: Option<(Group, Option<u32>)>,
        x: u32,
        y: u32,
    },
    /// Anything else that is done.
    Done(Command),
}

/// The kernel that was set last.
pub open spec fn kernel_set(program: Seq<Command>) -> Option<Kernel>
    decreases program.len(),
{
    if program.len() == 0 {
        None
    } else {
        match program.last() {
            Command::Pipeline(kernel) => Some(kernel),
            _ => kernel_set(program.drop_last()),
        }
    }
}

/// The group that was bound last, and at what offset.
pub open spec fn group_bound(program: Seq<Command>) -> Option<(Group, Option<u32>)>
    decreases program.len(),
{
    if program.len() == 0 {
        None
    } else {
        match program.last() {
            Command::Bind(group, offset) => Some((group, offset)),
            _ => group_bound(program.drop_last()),
        }
    }
}

/// What a device does as it carries a program out, in order.
pub open spec fn deeds(program: Seq<Command>) -> Seq<Deed>
    decreases program.len(),
{
    if program.len() == 0 {
        Seq::empty()
    } else {
        let before = program.drop_last();
        match program.last() {
            Command::Dispatch(x, y) => deeds(before).push(
                Deed::Launch { kernel: kernel_set(before), bound: group_bound(before), x, y },
            ),
            Command::BeginPass | Command::EndPass | Command::Pipeline(_) | Command::Bind(_, _) => {
                deeds(before)
            },
            other => deeds(before).push(Deed::Done(other)),
        }
    }
}

/// A launch of a kernel over a group, at an offset if there is one, with an
/// invocation for each of `count` items: workgroups have 256 of them, and there
/// are at most 65535 along each dimension.
pub open spec fn launches(
    deed: Deed,
    kernel: Kernel,
    group: Group,
    offset: Option<u32>,
    count: int,
) -> bool {
    deed matches Deed::Launch { kernel: k, bound: b, x, y } && k == Some(kernel) && b == Some(
        (group, offset),
    ) && 1 <= x <= 65535 && 1 <= y <= 65535 && 256 * (x * y) >= count
}

/// A launch of a solver pass over the solver's own buffers, for each of `count`
/// items.
pub open spec fn solves(deed: Deed, pass: Pass, count: int) -> bool {
    launches(deed, Kernel::Solver(pass), Group::Solver(pass), None, count)
}

/// A launch of a pass of a grid's rebuild, for each of `count` items.
pub open spec fn sorts_grid(deed: Deed, which: GridOf, pass: Pass, count: int) -> bool {
    launches(deed, Kernel::Solver(pass), Group::Grid(which, pass), None, count)
}

/// The levels of a sweep, one launch each, from deed `at` on: each at its own
/// offset, and with an invocation for each of its pairs.
pub open spec fn sweeps(
    all: Seq<Deed>,
    at: int,
    kernel: Kernel,
    group: Group,
    runs: Runs,
) -> bool {
    forall|l: int|
        #![trigger runs[l]]
        0 <= l < runs.len() ==> launches(
            all[at + l],
            kernel,
            group,
            Some(runs[l].0),
            runs[l].1 as int,
        )
}

/// Every level has a pair.
pub open spec fn paired(runs: Runs) -> bool {
    forall|l: int| 0 <= l < runs.len() ==> (#[trigger] runs[l]).1 >= 1
}

/// Every dispatch of a program finds a kernel and a group that the program itself
/// has set.
spec fn alone(program: Seq<Command>) -> bool {
    forall|k: int|
        0 <= k < program.len() && (#[trigger] program[k]) is Dispatch ==> kernel_set(
            program.take(k),
        ) is Some && group_bound(program.take(k)) is Some
}

proof fn lemma_alone_drop(q: Seq<Command>)
    requires
        alone(q),
        q.len() > 0,
    ensures
        alone(q.drop_last()),
        q.last() is Dispatch ==> kernel_set(q.drop_last()) is Some && group_bound(
            q.drop_last(),
        ) is Some,
{
    let r = q.drop_last();
    assert forall|k: int| 0 <= k < r.len() && (#[trigger] r[k]) is Dispatch implies kernel_set(
        r.take(k),
    ) is Some && group_bound(r.take(k)) is Some by {
        assert(q[k] is Dispatch);
        assert(r.take(k) =~= q.take(k));
    }
    assert(q[q.len() - 1] == q.last());
    assert(q.take(q.len() - 1) =~= r);
}

/// A program that stands alone does after another what it does by itself.
proof fn lemma_deeds_join(p: Seq<Command>, q: Seq<Command>)
    requires
        alone(q),
    ensures
        deeds(p + q) == deeds(p) + deeds(q),
        kernel_set(p + q) == (if kernel_set(q) is Some {
            kernel_set(q)
        } else {
            kernel_set(p)
        }),
        group_bound(p + q) == (if group_bound(q) is Some {
            group_bound(q)
        } else {
            group_bound(p)
        }),
    decreases q.len(),
{
    if q.len() == 0 {
        assert(p + q =~= p);
        assert(deeds(p) + deeds(q) =~= deeds(p));
    } else {
        lemma_alone_drop(q);
        lemma_deeds_join(p, q.drop_last());
        assert((p + q).drop_last() =~= p + q.drop_last());
        assert((p + q).last() == q.last());
        assert(deeds(p + q) =~= deeds(p) + deeds(q));
    }
}

proof fn lemma_alone_joins(p: Seq<Command>, q: Seq<Command>)
    requires
        alone(p),
        alone(q),
    ensures
        alone(p + q),
{
    let s = p + q;
    assert forall|k: int| 0 <= k < s.len() && (#[trigger] s[k]) is Dispatch implies kernel_set(
        s.take(k),
    ) is Some && group_bound(s.take(k)) is Some by {
        if k < p.len() {
            assert(p[k] is Dispatch);
            assert(s.take(k) =~= p.take(k));
        } else {
            let m = k - p.len();
            assert(q[m] is Dispatch);
            assert(s.take(k) =~= p + q.take(m));
            lemma_alone_take(q, m);
            lemma_deeds_join(p, q.take(m));
        }
    }
}

proof fn lemma_alone_take(q: Seq<Command>, m: int)
    requires
        alone(q),
        0 <= m <= q.len(),
    ensures
        alone(q.take(m)),
{
    let r = q.take(m);
    assert forall|k: int| 0 <= k < r.len() && (#[trigger] r[k]) is Dispatch implies kernel_set(
        r.take(k),
    ) is Some && group_bound(r.take(k)) is Some by {
        assert(q[k] is Dispatch);
        assert(r.take(k) =~= q.take(k));
    }
}

/// Two programs in turn.
proof fn lemma_then(p: Seq<Command>, q: Seq<Command>)
    requires
        alone(p),
        alone(q),
    ensures
        alone(p + q),
        deeds(p + q) == deeds(p) + deeds(q),
{
    lemma_alone_joins(p, q);
    lemma_deeds_join(p, q);
}

/// A program of one command that is done as it is.
proof fn lemma_one(c: Command)
    requires
        !(c is Dispatch || c is BeginPass || c is EndPass || c is Pipeline || c is Bind),
    ensures
        alone(seq![c]),
        deeds(seq![c]) == seq![Deed::Done(c)],
{
    assert(seq![c].drop_last() =~= Seq::empty());
    assert(deeds(Seq::<Command>::empty()) =~= Seq::empty());
    assert(deeds(seq![c]) =~= seq![Deed::Done(c)]);
}

/// A command that sets something up does nothing by itself.
proof fn lemma_setting(c: Command)
    requires
        c is BeginPass || c is EndPass || c is Pipeline || c is Bind,
    ensures
        alone(seq![c]),
        deeds(seq![c]) == Seq::<Deed>::empty(),
{
    assert(seq![c].drop_last() =~= Seq::empty());
    assert(seq![c].last() == c);
    assert(deeds(Seq::<Command>::empty()) =~= Seq::empty());
}

proof fn lemma_passed(inner: Seq<Command>)
    requires
        alone(inner),
    ensures
        alone(passed(inner)),
        deeds(passed(inner)) == deeds(inner),
{
    let (begin, end) = (seq![Command::BeginPass], seq![Command::EndPass]);
    lemma_setting(Command::BeginPass);
    lemma_setting(Command::EndPass);
    lemma_then(begin, inner);
    lemma_then(begin + inner, end);
    assert(deeds(passed(inner)) =~= deeds(inner));
}

/// One more command at the end of a program.
proof fn lemma_push(p: Seq<Command>, c: Command)
    ensures
        p.push(c).drop_last() == p,
        p.push(c).last() == c,
{
    assert(p.push(c).drop_last() =~= p);
}

proof fn lemma_ran(kernel: Kernel, group: Group, count: u32)
    requires
        count > 0,
    ensures
        alone(ran(kernel, group, count)),
        deeds(ran(kernel, group, count)).len() == 1,
        launches(deeds(ran(kernel, group, count))[0], kernel, group, None, count as int),
{
    crate::gpu::lemma_dispatch_covers(count);
    let d = dispatched(count)[0];
    let none = Seq::<Command>::empty();
    let one = none.push(Command::Pipeline(kernel));
    let two = one.push(Command::Bind(group, None));
    let all = two.push(d);
    lemma_push(none, Command::Pipeline(kernel));
    lemma_push(one, Command::Bind(group, None));
    lemma_push(two, d);
    assert(ran(kernel, group, count) =~= all);
    assert(all.take(2) =~= two);
    assert(kernel_set(one) == Some(kernel));
    assert(kernel_set(two) == Some(kernel));
    assert(group_bound(two) == Some((group, None::<u32>)));
    assert(deeds(none) =~= Seq::empty());
    assert(deeds(one) =~= Seq::empty());
    assert(deeds(two) =~= Seq::empty());
    assert forall|k: int| 0 <= k < all.len() && (#[trigger] all[k]) is Dispatch implies kernel_set(
        all.take(k),
    ) is Some && group_bound(all.take(k)) is Some by {
        assert(k == 2);
    }
}

proof fn lemma_levels(kernel: Kernel, group: Group, runs: Runs)
    requires
        paired(runs),
    ensures
        alone(ran_levels(kernel, group, runs)),
        kernel_set(ran_levels(kernel, group, runs)) == Some(kernel),
        deeds(ran_levels(kernel, group, runs)).len() == runs.len(),
        sweeps(deeds(ran_levels(kernel, group, runs)), 0, kernel, group, runs),
    decreases runs.len(),
{
    let all = ran_levels(kernel, group, runs);
    if runs.len() == 0 {
        assert(all =~= seq![Command::Pipeline(kernel)]);
        lemma_setting(Command::Pipeline(kernel));
    } else {
        let less = runs.drop_last();
        let before = ran_levels(kernel, group, less);
        assert(forall|l: int| 0 <= l < less.len() ==> #[trigger] less[l] == runs[l]);
        lemma_levels(kernel, group, less);
        let (offset, count) = runs.last();
        assert(runs[runs.len() - 1].1 >= 1);
        crate::gpu::lemma_dispatch_covers(count);
        let d = dispatched(count)[0];
        let bind = Command::Bind(group, Some(offset));
        lemma_push(before, bind);
        lemma_push(before.push(bind), d);
        assert(all =~= before.push(bind).push(d));
        assert(kernel_set(before.push(bind)) == Some(kernel));
        assert(group_bound(before.push(bind)) == Some((group, Some(offset))));
        let n = deeds(before).len();
        assert(deeds(before.push(bind)) == deeds(before));
        assert(deeds(all) == deeds(before).push(
            Deed::Launch {
                kernel: Some(kernel),
                bound: Some((group, Some(offset))),
                x: d->Dispatch_0,
                y: d->Dispatch_1,
            },
        ));
        assert(deeds(all).len() == n + 1);
        assert forall|l: int| #![trigger runs[l]] 0 <= l < runs.len() implies launches(
            deeds(all)[0 + l],
            kernel,
            group,
            Some(runs[l].0),
            runs[l].1 as int,
        ) by {
            if l < n {
                assert(less[l] == runs[l]);
                assert(deeds(all)[l] == deeds(before)[l]);
                assert(deeds(before)[0 + l] == deeds(before)[l]);
            }
        }
        assert forall|k: int| 0 <= k < all.len() && (#[trigger] all[k]) is Dispatch implies
            kernel_set(all.take(k)) is Some && group_bound(all.take(k)) is Some by {
            if k < before.len() {
                assert(before[k] is Dispatch);
                assert(all.take(k) =~= before.take(k));
            } else {
                assert(k == before.len() + 1);
                assert(all.take(k) =~= before.push(bind));
            }
        }
    }
}

/// The levels of a table run, each with at least one pair.
proof fn lemma_table_is_paired(table: Levels, k: nat, down: bool, align: int)
    requires
        crate::gpu::tabulates(table, schedule(k, down), align),
        k <= 31,
    ensures
        paired(table.runs@),
        table.runs@.len() == if down {
            2 * k
        } else {
            k
        },
{
    let levels = schedule(k, down);
    vstd::arithmetic::power2::lemma2_to64();
    if k < 31 {
        vstd::arithmetic::power2::lemma_pow2_strictly_increases(k, 31);
    }
    assert forall|l: int| 0 <= l < table.runs@.len() implies (#[trigger] table.runs@[l]).1 >= 1 by {
        let j: nat = if l < k {
            l as nat
        } else {
            (2 * k - 1 - l) as nat
        };
        assert(j < k);
        lemma_pow2_unfold((j + 1) as nat);
        lemma_pow2_pos(j);
        lemma_pow2_pos((k - 1 - j) as nat);
        lemma_pow2_adds((j + 1) as nat, (k - 1 - j) as nat);
        let (a, b) = (pow2((j + 1) as nat) as int, pow2((k - 1 - j) as nat) as int);
        assert(a * b == pow2(k));
        vstd::arithmetic::div_mod::lemma_div_multiples_vanish(b, a);
        assert(pow2(k) as int / a == b);
        assert(b <= pow2(k)) by (nonlinear_arith)
            requires
                a * b == pow2(k),
                a >= 1,
                b >= 1,
        ;
        assert(levels[l].count == b);
    }
}

/// The sweep of a grid runs twice as many levels as its size has doublings.
proof fn lemma_grid_is_paired(grid: GpuGrid, align: int)
    requires
        grid.wf(align),
    ensures
        paired(grid.levels.runs@),
{
    let k = choose|k: nat| #[trigger] pow2(k) == grid.size;
    lemma_small_power(k, grid.size as int);
    lemma_table_is_paired(grid.levels, k, true, align);
}

proof fn lemma_small_power(k: nat, size: int)
    requires
        pow2(k) == size,
        size <= u32::MAX,
    ensures
        k <= 31,
{
    vstd::arithmetic::power2::lemma2_to64();
    if k > 31 {
        if k > 32 {
            vstd::arithmetic::power2::lemma_pow2_strictly_increases(32, k);
        }
    }
}

/// The deeds of a grid's rebuild: the starts are zeroed; every particle is binned
/// and counted; the counts are summed level by level; the sums are copied as
/// cursors; every particle is scattered, and every cell sorted. Nothing else is
/// done.
pub open spec fn runs_rebuild(d: Seq<Deed>, which: GridOf, grid: GpuGrid) -> bool {
    let l = grid.levels.runs@.len() as int;
    &&& d.len() == l + 6
    &&& d[0] == Deed::Done(Command::Clear(Buffer::Starts(which)))
    &&& sorts_grid(d[1], which, Pass::Bin, grid.n as int)
    &&& sorts_grid(d[2], which, Pass::Count, grid.n as int)
    &&& sweeps(
        d,
        3,
        Kernel::Solver(Pass::Prefix),
        Group::Grid(which, Pass::Prefix),
        grid.levels.runs@,
    )
    &&& d[l + 3] == Deed::Done(
        Command::Copy {
            from: Buffer::Starts(which),
            at: 0,
            to: Buffer::Cursor(which),
            to_at: 0,
            bytes: None,
        },
    )
    &&& sorts_grid(d[l + 4], which, Pass::Scatter, grid.n as int)
    &&& sorts_grid(d[l + 5], which, Pass::SortCells, grid.cells as int)
}

/// A grid's rebuild does what it is for, in order, over every particle and every
/// cell.
pub proof fn lemma_rebuild_runs(which: GridOf, grid: GpuGrid, align: int)
    requires
        grid.wf(align),
        grid.n > 0,
        grid.cells > 0,
    ensures
        runs_rebuild(deeds(rebuilt(which, grid)), which, grid),
{
    lemma_rebuild_alone(which, grid, align);
}

proof fn lemma_rebuild_alone(which: GridOf, grid: GpuGrid, align: int)
    requires
        grid.wf(align),
        grid.n > 0,
        grid.cells > 0,
    ensures
        alone(rebuilt(which, grid)),
        runs_rebuild(deeds(rebuilt(which, grid)), which, grid),
{
    lemma_grid_is_paired(grid, align);
    let of = |pass: Pass, count: u32| ran(Kernel::Solver(pass), Group::Grid(which, pass), count);
    let runs = grid.levels.runs@;
    let (bin, count) = (of(Pass::Bin, grid.n), of(Pass::Count, grid.n));
    let prefix = ran_levels(Kernel::Solver(Pass::Prefix), Group::Grid(which, Pass::Prefix), runs);
    let (scatter, sort) = (of(Pass::Scatter, grid.n), of(Pass::SortCells, grid.cells));
    lemma_ran(Kernel::Solver(Pass::Bin), Group::Grid(which, Pass::Bin), grid.n);
    lemma_ran(Kernel::Solver(Pass::Count), Group::Grid(which, Pass::Count), grid.n);
    lemma_levels(Kernel::Solver(Pass::Prefix), Group::Grid(which, Pass::Prefix), runs);
    lemma_ran(Kernel::Solver(Pass::Scatter), Group::Grid(which, Pass::Scatter), grid.n);
    lemma_ran(Kernel::Solver(Pass::SortCells), Group::Grid(which, Pass::SortCells), grid.cells);
    lemma_then(bin, count);
    lemma_then(bin + count, prefix);
    lemma_passed(bin + count + prefix);
    lemma_then(scatter, sort);
    lemma_passed(scatter + sort);
    let clear = Command::Clear(Buffer::Starts(which));
    let copy = copied(Buffer::Starts(which), Buffer::Cursor(which));
    lemma_one(clear);
    lemma_one(copy);
    let (first, second) = (passed(bin + count + prefix), passed(scatter + sort));
    lemma_then(seq![clear], first);
    lemma_then(seq![clear] + first, seq![copy]);
    lemma_then(seq![clear] + first + seq![copy], second);
    let d = deeds(rebuilt(which, grid));
    let p = deeds(prefix);
    assert forall|l: int| #![trigger runs[l]] 0 <= l < runs.len() implies launches(
        d[3 + l],
        Kernel::Solver(Pass::Prefix),
        Group::Grid(which, Pass::Prefix),
        Some(runs[l].0),
        runs[l].1 as int,
    ) by {
        assert(d[3 + l] == p[0 + l]);
    }
}

proof fn lemma_solved(pass: Pass, count: u32)
    requires
        count > 0,
    ensures
        alone(solved(pass, count)),
        deeds(solved(pass, count)).len() == 1,
        solves(deeds(solved(pass, count))[0], pass, count as int),
{
    lemma_ran(Kernel::Solver(pass), Group::Solver(pass), count);
}

/// The iterations run one after another: each solves for the multipliers, from
/// them for the corrections, and applies those, each over every particle.
proof fn lemma_iterated(n: u32, iterations: int)
    requires
        n > 0,
        0 <= iterations,
    ensures
        alone(iterated(n, iterations)),
        deeds(iterated(n, iterations)).len() == 3 * iterations,
        forall|i: int|
            #![trigger deeds(iterated(n, iterations))[3 * i]]
            0 <= i < iterations ==> {
                let d = deeds(iterated(n, iterations));
                &&& solves(d[3 * i], Pass::Lambda, n as int)
                &&& solves(d[3 * i + 1], Pass::Delta, n as int)
                &&& solves(d[3 * i + 2], Pass::ApplyDelta, n as int)
            },
    decreases iterations,
{
    if iterations > 0 {
        let before = iterated(n, iterations - 1);
        lemma_iterated(n, iterations - 1);
        lemma_solved(Pass::Lambda, n);
        lemma_solved(Pass::Delta, n);
        lemma_solved(Pass::ApplyDelta, n);
        let (x, y, z) = (
            solved(Pass::Lambda, n),
            solved(Pass::Delta, n),
            solved(Pass::ApplyDelta, n),
        );
        lemma_then(before, x);
        lemma_then(before + x, y);
        lemma_then(before + x + y, z);
        let d = deeds(iterated(n, iterations));
        let e = deeds(before);
        assert forall|i: int| #![trigger d[3 * i]] 0 <= i < iterations implies {
            &&& solves(d[3 * i], Pass::Lambda, n as int)
            &&& solves(d[3 * i + 1], Pass::Delta, n as int)
            &&& solves(d[3 * i + 2], Pass::ApplyDelta, n as int)
        } by {
            if i < iterations - 1 {
                assert(d[3 * i] == e[3 * i]);
                assert(d[3 * i + 1] == e[3 * i + 1]);
                assert(d[3 * i + 2] == e[3 * i + 2]);
            } else {
                assert(d[3 * i] == deeds(x)[0]);
                assert(d[3 * i + 1] == deeds(y)[0]);
                assert(d[3 * i + 2] == deeds(z)[0]);
            }
        }
    } else {
        assert(alone(iterated(n, iterations)));
    }
}

/// The deeds of a substep: its particles are predicted, sorted into the grid and
/// given their neighbours; then it iterates, exactly as often as it is asked to,
/// each time the multipliers, the corrections and their application in turn, all
/// over every particle; then come velocities and viscosity, whose result is
/// copied over the velocities. Nothing else is done.
pub open spec fn runs_substep(d: Seq<Deed>, b: Buffers, iterations: int) -> bool {
    let (n, l) = (b.n as int, b.grid.levels.runs@.len() as int);
    let which = GridOf::Solver;
    &&& d.len() == l + 3 * iterations + 11
    &&& solves(d[0], Pass::Predict, n)
    &&& d[1] == Deed::Done(Command::Clear(Buffer::Starts(which)))
    &&& sorts_grid(d[2], which, Pass::Bin, n)
    &&& sorts_grid(d[3], which, Pass::Count, n)
    &&& sweeps(
        d,
        4,
        Kernel::Solver(Pass::Prefix),
        Group::Grid(which, Pass::Prefix),
        b.grid.levels.runs@,
    )
    &&& d[l + 4] == Deed::Done(
        Command::Copy {
            from: Buffer::Starts(which),
            at: 0,
            to: Buffer::Cursor(which),
            to_at: 0,
            bytes: None,
        },
    )
    &&& sorts_grid(d[l + 5], which, Pass::Scatter, n)
    &&& sorts_grid(d[l + 6], which, Pass::SortCells, b.cells as int)
    &&& solves(d[l + 7], Pass::Neighbors, n)
    &&& forall|i: int|
        #![trigger d[l + 8 + 3 * i]]
        0 <= i < iterations ==> {
            &&& solves(d[l + 8 + 3 * i], Pass::Lambda, n)
            &&& solves(d[l + 8 + 3 * i + 1], Pass::Delta, n)
            &&& solves(d[l + 8 + 3 * i + 2], Pass::ApplyDelta, n)
        }
    &&& solves(d[l + 8 + 3 * iterations], Pass::Velocity, n)
    &&& solves(d[l + 9 + 3 * iterations], Pass::Viscosity, n)
    &&& d[l + 10 + 3 * iterations] == Deed::Done(
        Command::Copy {
            from: Buffer::Scratch,
            at: 0,
            to: Buffer::Velocities,
            to_at: 0,
            bytes: None,
        },
    )
}

/// A substep does what it is for, in order and over every particle, however many
/// iterations it is asked for.
pub proof fn lemma_substep_runs(b: Buffers, iterations: int, align: int)
    requires
        b.wf(align),
        0 <= iterations,
    ensures
        runs_substep(deeds(substep(b, iterations)), b, iterations),
{
    lemma_substep_alone(b, iterations, align);
}

#[verifier::spinoff_prover]
proof fn lemma_substep_laid(
    b: Buffers,
    iterations: int,
    p: Seq<Deed>,
    g: Seq<Deed>,
    near: Seq<Deed>,
    t: Seq<Deed>,
    speed: Seq<Deed>,
    drag: Seq<Deed>,
)
    requires
        b.grid.n == b.n,
        b.grid.cells == b.cells,
        0 <= iterations,
        p.len() == 1 && solves(p[0], Pass::Predict, b.n as int),
        runs_rebuild(g, GridOf::Solver, b.grid),
        near.len() == 1 && solves(near[0], Pass::Neighbors, b.n as int),
        t.len() == 3 * iterations,
        forall|i: int|
            #![trigger t[3 * i]]
            0 <= i < iterations ==> {
                &&& solves(t[3 * i], Pass::Lambda, b.n as int)
                &&& solves(t[3 * i + 1], Pass::Delta, b.n as int)
                &&& solves(t[3 * i + 2], Pass::ApplyDelta, b.n as int)
            },
        speed.len() == 1 && solves(speed[0], Pass::Velocity, b.n as int),
        drag.len() == 1 && solves(drag[0], Pass::Viscosity, b.n as int),
    ensures
        runs_substep(
            p + g + (near + t + speed + drag) + seq![
                Deed::Done(copied(Buffer::Scratch, Buffer::Velocities)),
            ],
            b,
            iterations,
        ),
{
    let copy = copied(Buffer::Scratch, Buffer::Velocities);
    let d = p + g + (near + t + speed + drag) + seq![Deed::Done(copy)];
    let n = b.n;
    let runs = b.grid.levels.runs@;
    let l = runs.len() as int;
    assert(d[0] == p[0]);
    assert(d[1] == g[0]);
    assert(d[2] == g[1]);
    assert(d[3] == g[2]);
    assert(d[l + 4] == g[l + 3]);
    assert(d[l + 5] == g[l + 4]);
    assert(d[l + 6] == g[l + 5]);
    assert(d[l + 7] == near[0]);
    assert forall|k: int| #![trigger runs[k]] 0 <= k < runs.len() implies launches(
        d[4 + k],
        Kernel::Solver(Pass::Prefix),
        Group::Grid(GridOf::Solver, Pass::Prefix),
        Some(runs[k].0),
        runs[k].1 as int,
    ) by {
        assert(d[4 + k] == g[3 + k]);
    }
    assert forall|i: int| #![trigger d[l + 8 + 3 * i]] 0 <= i < iterations implies {
        &&& solves(d[l + 8 + 3 * i], Pass::Lambda, n as int)
        &&& solves(d[l + 8 + 3 * i + 1], Pass::Delta, n as int)
        &&& solves(d[l + 8 + 3 * i + 2], Pass::ApplyDelta, n as int)
    } by {
        assert(d[l + 8 + 3 * i] == t[3 * i]);
        assert(d[l + 8 + 3 * i + 1] == t[3 * i + 1]);
        assert(d[l + 8 + 3 * i + 2] == t[3 * i + 2]);
    }
    assert(d[l + 8 + 3 * iterations] == speed[0]);
    assert(d[l + 9 + 3 * iterations] == drag[0]);
}

#[verifier::spinoff_prover]
proof fn lemma_substep_alone(b: Buffers, iterations: int, align: int)
    requires
        b.wf(align),
        0 <= iterations,
    ensures
        alone(substep(b, iterations)),
        runs_substep(deeds(substep(b, iterations)), b, iterations),
{
    let n = b.n as u32;
    lemma_cells_positive(b, align);
    let (predict, grid) = (solved(Pass::Predict, n), rebuilt(GridOf::Solver, b.grid));
    let (near, turns) = (solved(Pass::Neighbors, n), iterated(n, iterations));
    let (speed, drag) = (solved(Pass::Velocity, n), solved(Pass::Viscosity, n));
    let copy = copied(Buffer::Scratch, Buffer::Velocities);
    lemma_solved(Pass::Predict, n);
    lemma_solved(Pass::Neighbors, n);
    lemma_solved(Pass::Velocity, n);
    lemma_solved(Pass::Viscosity, n);
    lemma_iterated(n, iterations);
    lemma_rebuild_alone(GridOf::Solver, b.grid, align);
    lemma_one(copy);
    lemma_passed(predict);
    lemma_then(passed(predict), grid);
    lemma_then(near, turns);
    lemma_then(near + turns, speed);
    lemma_then(near + turns + speed, drag);
    let tail = near + turns + speed + drag;
    lemma_passed(tail);
    lemma_then(passed(predict) + grid, passed(tail));
    lemma_then(passed(predict) + grid + passed(tail), seq![copy]);
    lemma_substep_laid(
        b,
        iterations,
        deeds(predict),
        deeds(grid),
        deeds(near),
        deeds(turns),
        deeds(speed),
        deeds(drag),
    );
    assert(deeds(substep(b, iterations)) =~= deeds(predict) + deeds(grid) + (deeds(near) + deeds(
        turns,
    ) + deeds(speed) + deeds(drag)) + seq![Deed::Done(copy)]);
}

proof fn lemma_cells_positive(b: Buffers, align: int)
    requires
        b.wf(align),
    ensures
        b.cells > 0,
        b.grid.cells > 0,
        b.grid.n == b.n,
        b.n as u32 == b.n,
        b.n > 0,
{
    assert(b.dims_x * (b.dims_y * b.dims_z) > 0) by (nonlinear_arith)
        requires
            b.dims_x >= 1,
            b.dims_y >= 1,
            b.dims_z >= 1,
    ;
}

/// So many deeds from one on.
pub open spec fn stretch(d: Seq<Deed>, at: int, count: int) -> Seq<Deed> {
    d.subrange(at, at + count)
}

/// A stretch of the first of two sequences, or of the second.
proof fn lemma_stretch_of(p: Seq<Deed>, q: Seq<Deed>, at: int, count: int)
    requires
        0 <= at,
        0 <= count,
    ensures
        at + count <= p.len() ==> stretch(p + q, at, count) == stretch(p, at, count),
        p.len() <= at && at + count <= p.len() + q.len() ==> stretch(p + q, at, count) == stretch(
            q,
            at - p.len(),
            count,
        ),
{
    if at + count <= p.len() {
        assert(stretch(p + q, at, count) =~= stretch(p, at, count));
    }
    if p.len() <= at && at + count <= p.len() + q.len() {
        assert(stretch(p + q, at, count) =~= stretch(q, at - p.len(), count));
    }
}

/// The deeds of a queued push: its own parameters, every particle, and its own
/// submission.
pub open spec fn runs_push(d: Seq<Deed>, k: int, n: int) -> bool {
    &&& d.len() == 3
    &&& d[0] == Deed::Done(Command::WriteParams(Span::Substep, Extra::Impulse(k as usize)))
    &&& solves(d[1], Pass::Impulse, n)
    &&& d[2] == Deed::Done(Command::Submit)
}

/// One buffer taken in cell order, and all of it put back.
pub open spec fn gathers(
    first: Deed,
    second: Deed,
    pass: Pass,
    out: Buffer,
    target: Buffer,
    n: int,
    bytes: int,
) -> bool {
    &&& launches(first, Kernel::Solver(pass), Group::Gather(target), None, n)
    &&& second == Deed::Done(
        Command::Copy { from: out, at: 0, to: target, to_at: 0, bytes: Some(bytes as u64) },
    )
}

/// The deeds of a renumbering: each of the six particle buffers gathered over
/// every particle and copied back whole, sixteen bytes to a vector and four to
/// a scalar.
pub open spec fn runs_renumber(d: Seq<Deed>, n: int) -> bool {
    let (v, s) = (Pass::GatherVectors, Pass::GatherScalars);
    let (wide, thin) = (Buffer::Scratch, Buffer::Gathered);
    &&& d.len() == 13
    &&& d[0] == Deed::Done(Command::WriteParams(Span::Substep, Extra::Nothing))
    &&& gathers(d[1], d[2], v, wide, Buffer::Positions, n, 16 * n)
    &&& gathers(d[3], d[4], v, wide, Buffer::Previous, n, 16 * n)
    &&& gathers(d[5], d[6], v, wide, Buffer::Velocities, n, 16 * n)
    &&& gathers(d[7], d[8], s, thin, Buffer::Foam, n, 4 * n)
    &&& gathers(d[9], d[10], s, thin, Buffer::Spray, n, 4 * n)
    &&& gathers(d[11], d[12], s, thin, Buffer::Ids, n, 4 * n)
}

/// The deeds a substep takes, its clock, parameters and submission among them.
pub open spec fn turn_length(b: Buffers, iterations: int) -> int {
    b.grid.levels.runs@.len() + 3 * iterations + 14
}

/// The deeds of one substep of a frame: the clock moves on, the parameters are
/// written anew, the substep runs, and it is submitted.
pub open spec fn runs_turn(d: Seq<Deed>, b: Buffers, iterations: int) -> bool {
    &&& d.len() == turn_length(b, iterations)
    &&& d[0] == Deed::Done(Command::AdvanceClock)
    &&& d[1] == Deed::Done(Command::WriteParams(Span::Substep, Extra::Nothing))
    &&& runs_substep(stretch(d, 2, d.len() - 3), b, iterations)
    &&& d.last() == Deed::Done(Command::Submit)
}

/// The deeds of a frame's end: foam over every particle, for the whole frame's
/// time, and the largest neighbourhood copied out.
pub open spec fn runs_finish(d: Seq<Deed>, n: int) -> bool {
    &&& d.len() == 4
    &&& d[0] == Deed::Done(Command::WriteParams(Span::Frame, Extra::Nothing))
    &&& solves(d[1], Pass::Foam, n)
    &&& d[2] == Deed::Done(
        Command::Copy {
            from: Buffer::MaxNeighbors,
            at: 0,
            to: Buffer::Probe,
            to_at: 0,
            bytes: Some(4),
        },
    )
    &&& d[3] == Deed::Done(Command::Submit)
}

/// The deeds of a frame before the positions are kept.
pub open spec fn before_turns(impulses: int, renumber: bool) -> int {
    if renumber {
        3 * impulses + 13
    } else {
        3 * impulses
    }
}

/// The deeds of a frame: every queued push in order; the renumbering, if it is
/// due; the positions kept as the previous ones; every substep; and the end.
/// Nothing else is done.
pub open spec fn runs_frame(
    d: Seq<Deed>,
    b: Buffers,
    impulses: int,
    renumber: bool,
    iterations: int,
    substeps: int,
) -> bool {
    let n = b.n as int;
    let turn = turn_length(b, iterations);
    let kept = before_turns(impulses, renumber);
    &&& d.len() == kept + 1 + substeps * turn + 4
    &&& forall|k: int|
        0 <= k < impulses ==> runs_push(#[trigger] stretch(d, 3 * k, 3), k, n)
    &&& renumber ==> runs_renumber(stretch(d, 3 * impulses, 13), n)
    &&& d[kept] == Deed::Done(
        Command::Copy {
            from: Buffer::Positions,
            at: 0,
            to: Buffer::Previous,
            to_at: 0,
            bytes: None,
        },
    )
    &&& forall|s: int|
        0 <= s < substeps ==> runs_turn(
            #[trigger] stretch(d, kept + 1 + s * turn, turn),
            b,
            iterations,
        )
    &&& runs_finish(stretch(d, kept + 1 + substeps * turn, 4), n)
}

proof fn lemma_all_pushed(count: int, n: u32)
    requires
        n > 0,
        0 <= count,
    ensures
        alone(all_pushed(count, n)),
        deeds(all_pushed(count, n)).len() == 3 * count,
        forall|k: int|
            0 <= k < count ==> runs_push(
                #[trigger] stretch(deeds(all_pushed(count, n)), 3 * k, 3),
                k,
                n as int,
            ),
    decreases count,
{
    if count > 0 {
        lemma_all_pushed(count - 1, n);
        let (before, one) = (all_pushed(count - 1, n), pushed(count - 1, n));
        let write = Command::WriteParams(Span::Substep, Extra::Impulse((count - 1) as usize));
        lemma_one(write);
        lemma_one(Command::Submit);
        lemma_solved(Pass::Impulse, n);
        lemma_passed(solved(Pass::Impulse, n));
        lemma_then(seq![write], passed(solved(Pass::Impulse, n)));
        lemma_then(seq![write] + passed(solved(Pass::Impulse, n)), seq![Command::Submit]);
        lemma_then(before, one);
        let (d, e, f) = (deeds(all_pushed(count, n)), deeds(before), deeds(one));
        assert forall|k: int| 0 <= k < count implies runs_push(
            #[trigger] stretch(d, 3 * k, 3),
            k,
            n as int,
        ) by {
            lemma_stretch_of(e, f, 3 * k, 3);
            if k < count - 1 {
                assert(runs_push(stretch(e, 3 * k, 3), k, n as int));
            } else {
                assert(stretch(f, 0, 3) =~= f);
            }
        }
    } else {
        assert(alone(all_pushed(count, n)));
    }
}

proof fn lemma_gathered(target: Buffer, n: u32, bytes: u64)
    requires
        n > 0,
    ensures
        alone(gathered(target, n, bytes)),
        deeds(gathered(target, n, bytes)).len() == 2,
        gathers(
            deeds(gathered(target, n, bytes))[0],
            deeds(gathered(target, n, bytes))[1],
            crate::sim_gpu::gather_pass(target),
            crate::sim_gpu::gather_out(target),
            target,
            n as int,
            bytes as int,
        ),
{
    let kernel = Kernel::Solver(crate::sim_gpu::gather_pass(target));
    let inner = ran(kernel, Group::Gather(target), n);
    let back = Command::Copy {
        from: crate::sim_gpu::gather_out(target),
        at: 0,
        to: target,
        to_at: 0,
        bytes: Some(bytes),
    };
    lemma_ran(kernel, Group::Gather(target), n);
    lemma_passed(inner);
    lemma_one(back);
    lemma_then(passed(inner), seq![back]);
}

#[verifier::spinoff_prover]
proof fn lemma_renumbered(b: Buffers, align: int)
    requires
        b.wf(align),
    ensures
        alone(seq![Command::WriteParams(Span::Substep, Extra::Nothing)] + renumbered(b)),
        runs_renumber(
            deeds(seq![Command::WriteParams(Span::Substep, Extra::Nothing)] + renumbered(b)),
            b.n as int,
        ),
{
    let n = b.n as u32;
    lemma_cells_positive(b, align);
    crate::gpu_fluid::lemma_storage(4 * b.n);
    crate::gpu_fluid::lemma_storage(b.n as int);
    let (wide, thin) = ((16 * b.n) as u64, (4 * b.n) as u64);
    let write = Command::WriteParams(Span::Substep, Extra::Nothing);
    let g1 = gathered(Buffer::Positions, n, wide);
    let g2 = gathered(Buffer::Previous, n, wide);
    let g3 = gathered(Buffer::Velocities, n, wide);
    let g4 = gathered(Buffer::Foam, n, thin);
    let g5 = gathered(Buffer::Spray, n, thin);
    let g6 = gathered(Buffer::Ids, n, thin);
    assert(renumbered(b) == g1 + g2 + g3 + g4 + g5 + g6);
    lemma_gathered(Buffer::Positions, n, wide);
    lemma_gathered(Buffer::Previous, n, wide);
    lemma_gathered(Buffer::Velocities, n, wide);
    lemma_gathered(Buffer::Foam, n, thin);
    lemma_gathered(Buffer::Spray, n, thin);
    lemma_gathered(Buffer::Ids, n, thin);
    lemma_one(write);
    lemma_then(g1, g2);
    lemma_then(g1 + g2, g3);
    lemma_then(g1 + g2 + g3, g4);
    lemma_then(g1 + g2 + g3 + g4, g5);
    lemma_then(g1 + g2 + g3 + g4 + g5, g6);
    lemma_then(seq![write], renumbered(b));
    let d = deeds(seq![write] + renumbered(b));
    assert(d =~= seq![Deed::Done(write)] + (deeds(g1) + deeds(g2) + deeds(g3) + deeds(g4) + deeds(
        g5,
    ) + deeds(g6)));
    assert(d[1] == deeds(g1)[0] && d[2] == deeds(g1)[1]);
    assert(d[3] == deeds(g2)[0] && d[4] == deeds(g2)[1]);
    assert(d[5] == deeds(g3)[0] && d[6] == deeds(g3)[1]);
    assert(d[7] == deeds(g4)[0] && d[8] == deeds(g4)[1]);
    assert(d[9] == deeds(g5)[0] && d[10] == deeds(g5)[1]);
    assert(d[11] == deeds(g6)[0] && d[12] == deeds(g6)[1]);
}

proof fn lemma_turn(b: Buffers, iterations: int, align: int)
    requires
        b.wf(align),
        0 <= iterations,
    ensures
        ({
            let turn = seq![
                Command::AdvanceClock,
                Command::WriteParams(Span::Substep, Extra::Nothing),
            ] + substep(b, iterations) + seq![Command::Submit];
            &&& alone(turn)
            &&& runs_turn(deeds(turn), b, iterations)
        }),
{
    let write = Command::WriteParams(Span::Substep, Extra::Nothing);
    let inner = substep(b, iterations);
    lemma_one(Command::AdvanceClock);
    lemma_one(write);
    lemma_one(Command::Submit);
    lemma_then(seq![Command::AdvanceClock], seq![write]);
    let head = seq![Command::AdvanceClock] + seq![write];
    assert(head =~= seq![Command::AdvanceClock, write]);
    lemma_substep_alone(b, iterations, align);
    lemma_then(head, inner);
    lemma_then(head + inner, seq![Command::Submit]);
    let d = deeds(head + inner + seq![Command::Submit]);
    assert(stretch(d, 2, d.len() - 3) =~= deeds(inner));
}

proof fn lemma_substepped(b: Buffers, iterations: int, substeps: int, align: int)
    requires
        b.wf(align),
        0 <= iterations,
        0 <= substeps,
    ensures
        alone(substepped(b, iterations, substeps)),
        deeds(substepped(b, iterations, substeps)).len() == substeps * turn_length(b, iterations),
        forall|s: int|
            0 <= s < substeps ==> runs_turn(
                #[trigger] stretch(
                    deeds(substepped(b, iterations, substeps)),
                    s * turn_length(b, iterations),
                    turn_length(b, iterations),
                ),
                b,
                iterations,
            ),
    decreases substeps,
{
    let w = turn_length(b, iterations);
    if substeps > 0 {
        lemma_substepped(b, iterations, substeps - 1, align);
        lemma_turn(b, iterations, align);
        let before = substepped(b, iterations, substeps - 1);
        let turn = seq![
            Command::AdvanceClock,
            Command::WriteParams(Span::Substep, Extra::Nothing),
        ] + substep(b, iterations) + seq![Command::Submit];
        assert(substepped(b, iterations, substeps) =~= before + turn);
        lemma_then(before, turn);
        let (d, e, f) = (deeds(before + turn), deeds(before), deeds(turn));
        assert((substeps - 1) * w + w == substeps * w) by (nonlinear_arith);
        assert forall|s: int| 0 <= s < substeps implies runs_turn(
            #[trigger] stretch(d, s * w, w),
            b,
            iterations,
        ) by {
            assert(0 <= s * w && (s < substeps - 1 ==> s * w + w <= (substeps - 1) * w))
                by (nonlinear_arith)
                requires
                    0 <= s,
                    0 <= w,
            ;
            lemma_stretch_of(e, f, s * w, w);
            if s < substeps - 1 {
                assert(runs_turn(stretch(e, s * w, w), b, iterations));
            } else {
                assert(stretch(f, 0, w) =~= f);
            }
        }
    } else {
        assert(0 * w == 0);
        assert(alone(substepped(b, iterations, substeps)));
    }
}

proof fn lemma_finished(n: u32)
    requires
        n > 0,
    ensures
        alone(finished(n)),
        runs_finish(deeds(finished(n)), n as int),
{
    let write = Command::WriteParams(Span::Frame, Extra::Nothing);
    let copy = Command::Copy {
        from: Buffer::MaxNeighbors,
        at: 0,
        to: Buffer::Probe,
        to_at: 0,
        bytes: Some(4),
    };
    let foam = solved(Pass::Foam, n);
    lemma_one(write);
    lemma_one(copy);
    lemma_one(Command::Submit);
    lemma_solved(Pass::Foam, n);
    lemma_passed(foam);
    lemma_then(seq![write], passed(foam));
    lemma_then(seq![copy], seq![Command::Submit]);
    assert(seq![copy] + seq![Command::Submit] =~= seq![copy, Command::Submit]);
    lemma_then(seq![write] + passed(foam), seq![copy, Command::Submit]);
}

/// A frame does what it is for, in order: every push that is queued, and every
/// substep it is asked for, with all its iterations.
pub proof fn lemma_frame_runs(
    b: Buffers,
    impulses: int,
    renumber: bool,
    iterations: int,
    substeps: int,
    align: int,
)
    requires
        b.wf(align),
        0 <= impulses,
        0 <= iterations,
        0 <= substeps,
    ensures
        runs_frame(
            deeds(framed(b, impulses, renumber, iterations, substeps)),
            b,
            impulses,
            renumber,
            iterations,
            substeps,
        ),
{
    lemma_frame_alone(b, impulses, renumber, iterations, substeps, align);
}

#[verifier::spinoff_prover]
proof fn lemma_frame_alone(
    b: Buffers,
    impulses: int,
    renumber: bool,
    iterations: int,
    substeps: int,
    align: int,
)
    requires
        b.wf(align),
        0 <= impulses,
        0 <= iterations,
        0 <= substeps,
    ensures
        alone(framed(b, impulses, renumber, iterations, substeps)),
        runs_frame(
            deeds(framed(b, impulses, renumber, iterations, substeps)),
            b,
            impulses,
            renumber,
            iterations,
            substeps,
        ),
{
    let n = b.n as u32;
    lemma_cells_positive(b, align);
    let pushes = all_pushed(impulses, n);
    let order = if renumber {
        seq![Command::WriteParams(Span::Substep, Extra::Nothing)] + renumbered(b)
    } else {
        Seq::empty()
    };
    let copy = copied(Buffer::Positions, Buffer::Previous);
    let turns = substepped(b, iterations, substeps);
    lemma_all_pushed(impulses, n);
    lemma_renumbered(b, align);
    lemma_one(copy);
    lemma_substepped(b, iterations, substeps, align);
    lemma_finished(n);
    assert(alone(Seq::<Command>::empty()));
    assert(deeds(Seq::<Command>::empty()) =~= Seq::empty());
    lemma_then(pushes, order);
    lemma_then(pushes + order, seq![copy]);
    lemma_then(pushes + order + seq![copy], turns);
    lemma_then(pushes + order + seq![copy] + turns, finished(n));
    lemma_frame_laid(
        b,
        impulses,
        renumber,
        iterations,
        substeps,
        deeds(pushes),
        deeds(order),
        deeds(turns),
        deeds(finished(n)),
    );
}

#[verifier::spinoff_prover]
proof fn lemma_frame_laid(
    b: Buffers,
    impulses: int,
    renumber: bool,
    iterations: int,
    substeps: int,
    p: Seq<Deed>,
    r: Seq<Deed>,
    t: Seq<Deed>,
    f: Seq<Deed>,
)
    requires
        0 <= impulses,
        0 <= iterations,
        0 <= substeps,
        p.len() == 3 * impulses,
        forall|k: int|
            0 <= k < impulses ==> runs_push(#[trigger] stretch(p, 3 * k, 3), k, b.n as int),
        renumber ==> runs_renumber(r, b.n as int),
        !renumber ==> r.len() == 0,
        t.len() == substeps * turn_length(b, iterations),
        forall|s: int|
            0 <= s < substeps ==> runs_turn(
                #[trigger] stretch(
                    t,
                    s * turn_length(b, iterations),
                    turn_length(b, iterations),
                ),
                b,
                iterations,
            ),
        runs_finish(f, b.n as int),
    ensures
        runs_frame(
            p + r + seq![Deed::Done(copied(Buffer::Positions, Buffer::Previous))] + t + f,
            b,
            impulses,
            renumber,
            iterations,
            substeps,
        ),
{
    let c = seq![Deed::Done(copied(Buffer::Positions, Buffer::Previous))];
    let d = p + r + c + t + f;
    let n = b.n as int;
    let w = turn_length(b, iterations);
    let kept = before_turns(impulses, renumber);
    assert forall|k: int| 0 <= k < impulses implies runs_push(
        #[trigger] stretch(d, 3 * k, 3),
        k,
        n,
    ) by {
        assert(stretch(d, 3 * k, 3) =~= stretch(p, 3 * k, 3));
    }
    if renumber {
        assert(stretch(d, 3 * impulses, 13) =~= r);
    }
    assert(d[kept] == c[0]);
    assert forall|s: int| 0 <= s < substeps implies runs_turn(
        #[trigger] stretch(d, kept + 1 + s * w, w),
        b,
        iterations,
    ) by {
        assert(0 <= s * w && s * w + w <= substeps * w) by (nonlinear_arith)
            requires
                0 <= s < substeps,
                0 <= w,
        ;
        assert(stretch(d, kept + 1 + s * w, w) =~= stretch(t, s * w, w));
    }
    assert(0 <= substeps * w) by (nonlinear_arith)
        requires
            0 <= substeps,
            0 <= w,
    ;
    assert(stretch(d, kept + 1 + substeps * w, 4) =~= f);
}

/// The deeds of a reduction: the entries are filled, and then combined level by
/// level.
pub open spec fn runs_reduce(d: Seq<Deed>, b: Buffers, first: Pass, reduce: Pass) -> bool {
    &&& d.len() == b.reduce_levels.runs@.len() + 1
    &&& solves(d[0], first, b.reduce_size as int)
    &&& sweeps(d, 1, Kernel::Solver(reduce), Group::Solver(reduce), b.reduce_levels.runs@)
}

/// The last entry of the statistics copied to the start of a buffer.
pub open spec fn takes_last(deed: Deed, b: Buffers, to: Buffer) -> bool {
    deed == Deed::Done(
        Command::Copy {
            from: Buffer::Stats,
            at: (16 * (b.reduce_size - 1)) as u64,
            to,
            to_at: 0,
            bytes: Some(16),
        },
    )
}

/// The deeds of the search along a ray: every particle's hit, the hits reduced
/// to the nearest, and that one copied out.
pub open spec fn runs_probe(d: Seq<Deed>, b: Buffers) -> bool {
    let l = b.reduce_levels.runs@.len() as int;
    &&& d.len() == l + 4
    &&& d[0] == Deed::Done(Command::WriteParams(Span::Instant, Extra::Ray))
    &&& runs_reduce(stretch(d, 1, l + 1), b, Pass::RayHits, Pass::ReduceNearest)
    &&& takes_last(d[l + 2], b, Buffer::Probe)
    &&& d[l + 3] == Deed::Done(Command::Submit)
}

/// The deeds behind the title's figures: the water's top is measured and summed
/// up and kept, then the rest is, and that is copied out.
pub open spec fn runs_measure(d: Seq<Deed>, b: Buffers) -> bool {
    let l = b.reduce_levels.runs@.len() as int;
    &&& d.len() == 2 * l + 6
    &&& d[0] == Deed::Done(Command::WriteParams(Span::Instant, Extra::Nothing))
    &&& runs_reduce(stretch(d, 1, l + 1), b, Pass::MeasureTop, Pass::Reduce)
    &&& takes_last(d[l + 2], b, Buffer::Top)
    &&& runs_reduce(stretch(d, l + 3, l + 1), b, Pass::Measure, Pass::Reduce)
    &&& takes_last(d[2 * l + 4], b, Buffer::Probe)
    &&& d[2 * l + 5] == Deed::Done(Command::Submit)
}

proof fn lemma_reduced(b: Buffers, first: Pass, reduce: Pass, align: int)
    requires
        b.wf(align),
    ensures
        alone(reduced(first, reduce, b)),
        runs_reduce(deeds(reduced(first, reduce, b)), b, first, reduce),
{
    let k = choose|k: nat| #[trigger] pow2(k) == b.reduce_size;
    lemma_small_power(k, b.reduce_size as int);
    lemma_table_is_paired(b.reduce_levels, k, false, align);
    let runs = b.reduce_levels.runs@;
    let (start, sweep) = (
        solved(first, b.reduce_size),
        ran_levels(Kernel::Solver(reduce), Group::Solver(reduce), runs),
    );
    lemma_solved(first, b.reduce_size);
    lemma_levels(Kernel::Solver(reduce), Group::Solver(reduce), runs);
    lemma_then(start, sweep);
    lemma_passed(start + sweep);
    let d = deeds(reduced(first, reduce, b));
    assert forall|l: int| #![trigger runs[l]] 0 <= l < runs.len() implies launches(
        d[1 + l],
        Kernel::Solver(reduce),
        Group::Solver(reduce),
        Some(runs[l].0),
        runs[l].1 as int,
    ) by {
        assert(d[1 + l] == deeds(sweep)[0 + l]);
    }
}

/// The search along a ray does what it is for: every entry gets its hit, and the
/// hits are reduced by the pass that keeps the nearer of two.
pub proof fn lemma_probe_runs(b: Buffers, align: int)
    requires
        b.wf(align),
    ensures
        runs_probe(deeds(probed(b)), b),
        deeds(probed(b)) == seq![Deed::Done(Command::WriteParams(Span::Instant, Extra::Ray))]
            + deeds(reduced(Pass::RayHits, Pass::ReduceNearest, b)) + seq![
            Deed::Done(taken(b, Buffer::Probe)),
            Deed::Done(Command::Submit),
        ],
{
    let write = Command::WriteParams(Span::Instant, Extra::Ray);
    let copy = taken(b, Buffer::Probe);
    let inner = reduced(Pass::RayHits, Pass::ReduceNearest, b);
    lemma_reduced(b, Pass::RayHits, Pass::ReduceNearest, align);
    lemma_one(write);
    lemma_one(copy);
    lemma_one(Command::Submit);
    lemma_then(seq![copy], seq![Command::Submit]);
    assert(seq![copy] + seq![Command::Submit] =~= seq![copy, Command::Submit]);
    lemma_then(seq![write], inner);
    lemma_then(seq![write] + inner, seq![copy, Command::Submit]);
    let d = deeds(probed(b));
    let l = b.reduce_levels.runs@.len() as int;
    assert(d =~= seq![Deed::Done(write)] + deeds(inner) + seq![
        Deed::Done(copy),
        Deed::Done(Command::Submit),
    ]);
    assert(stretch(d, 1, l + 1) =~= deeds(inner));
}

/// The measurement behind the title does what it is for.
#[verifier::spinoff_prover]
pub proof fn lemma_measure_runs(b: Buffers, align: int)
    requires
        b.wf(align),
    ensures
        runs_measure(deeds(measured(b)), b),
        deeds(measured(b)) == seq![Deed::Done(Command::WriteParams(Span::Instant, Extra::Nothing))]
            + deeds(reduced(Pass::MeasureTop, Pass::Reduce, b)) + seq![
            Deed::Done(taken(b, Buffer::Top)),
        ] + deeds(reduced(Pass::Measure, Pass::Reduce, b)) + seq![
            Deed::Done(taken(b, Buffer::Probe)),
            Deed::Done(Command::Submit),
        ],
{
    let write = Command::WriteParams(Span::Instant, Extra::Nothing);
    let (keep, copy) = (taken(b, Buffer::Top), taken(b, Buffer::Probe));
    let top = reduced(Pass::MeasureTop, Pass::Reduce, b);
    let rest = reduced(Pass::Measure, Pass::Reduce, b);
    lemma_reduced(b, Pass::MeasureTop, Pass::Reduce, align);
    lemma_reduced(b, Pass::Measure, Pass::Reduce, align);
    lemma_one(write);
    lemma_one(keep);
    lemma_one(copy);
    lemma_one(Command::Submit);
    lemma_then(seq![copy], seq![Command::Submit]);
    assert(seq![copy] + seq![Command::Submit] =~= seq![copy, Command::Submit]);
    lemma_then(seq![write], top);
    lemma_then(seq![write] + top, seq![keep]);
    lemma_then(seq![write] + top + seq![keep], rest);
    lemma_then(seq![write] + top + seq![keep] + rest, seq![copy, Command::Submit]);
    assert(seq![Deed::Done(copy)] + seq![Deed::Done(Command::Submit)] =~= seq![
        Deed::Done(copy),
        Deed::Done(Command::Submit),
    ]);
    lemma_measure_laid(b, deeds(top), deeds(rest));
}

proof fn lemma_measure_laid(b: Buffers, top: Seq<Deed>, rest: Seq<Deed>)
    requires
        runs_reduce(top, b, Pass::MeasureTop, Pass::Reduce),
        runs_reduce(rest, b, Pass::Measure, Pass::Reduce),
    ensures
        runs_measure(
            seq![Deed::Done(Command::WriteParams(Span::Instant, Extra::Nothing))] + top + seq![
                Deed::Done(taken(b, Buffer::Top)),
            ] + rest + seq![Deed::Done(taken(b, Buffer::Probe)), Deed::Done(Command::Submit)],
            b,
        ),
{
    let d = seq![Deed::Done(Command::WriteParams(Span::Instant, Extra::Nothing))] + top + seq![
        Deed::Done(taken(b, Buffer::Top)),
    ] + rest + seq![Deed::Done(taken(b, Buffer::Probe)), Deed::Done(Command::Submit)];
    let l = b.reduce_levels.runs@.len() as int;
    assert(stretch(d, 1, l + 1) =~= top);
    assert(stretch(d, l + 3, l + 1) =~= rest);
}

/// What a device holds of a reduction: the entries, the top that was kept, and
/// what was copied out.
#[verifier::reject_recursive_types(T)]
pub struct Board<T> {
    pub stats: Seq<T>,
    pub top: Option<T>,
    pub probe: Option<T>,
}

/// What the passes of a reduction come to: the entries that a pass fills in, given
/// the top, and what a pass makes of a pair of entries.
#[verifier::reject_recursive_types(T)]
pub struct Passes<T> {
    pub found: spec_fn(Pass, Option<T>) -> Seq<T>,
    pub merged: spec_fn(Pass, T, T) -> T,
    pub zero: T,
    /// The levels, as they lie in the table of dynamic offsets.
    pub levels: Seq<crate::scan::Level>,
    pub align: int,
}

/// What one deed does to the board: a pass bound at an offset combines the pairs
/// of the level that lies there, one without an offset fills the entries in, and
/// a copy takes one entry, of sixteen bytes.
pub open spec fn done<T>(deed: Deed, by: Passes<T>, board: Board<T>) -> Board<T> {
    match deed {
        Deed::Launch { kernel: Some(Kernel::Solver(pass)), bound: Some((_, Some(at))), .. } => Board {
            stats: crate::scan::run_level(
                merge(by, pass),
                by.zero,
                board.stats,
                by.levels[at as int / by.align],
            ),
            ..board
        },
        Deed::Launch { kernel: Some(Kernel::Solver(pass)), bound: Some((_, None)), .. } => Board {
            stats: (by.found)(pass, board.top),
            ..board
        },
        Deed::Done(
            Command::Copy { from: Buffer::Stats, at, to: Buffer::Probe, .. },
        ) => Board { probe: Some(board.stats[at as int / 16]), ..board },
        Deed::Done(
            Command::Copy { from: Buffer::Stats, at, to: Buffer::Top, .. },
        ) => Board { top: Some(board.stats[at as int / 16]), ..board },
        _ => board,
    }
}

/// The board after some deeds.
pub open spec fn board_after<T>(d: Seq<Deed>, by: Passes<T>, board: Board<T>) -> Board<T>
    decreases d.len(),
{
    if d.len() == 0 {
        board
    } else {
        done(d.last(), by, board_after(d.drop_last(), by, board))
    }
}

proof fn lemma_board_joins<T>(d: Seq<Deed>, e: Seq<Deed>, by: Passes<T>, board: Board<T>)
    ensures
        board_after(d + e, by, board) == board_after(e, by, board_after(d, by, board)),
    decreases e.len(),
{
    if e.len() == 0 {
        assert(d + e =~= d);
    } else {
        lemma_board_joins(d, e.drop_last(), by, board);
        assert((d + e).drop_last() =~= d + e.drop_last());
        assert((d + e).last() == e.last());
    }
}

proof fn lemma_board_one<T>(deed: Deed, by: Passes<T>, board: Board<T>)
    ensures
        board_after(seq![deed], by, board) == done(deed, by, board),
{
    assert(seq![deed].drop_last() =~= Seq::empty());
    assert(board_after(Seq::<Deed>::empty(), by, board) == board);
}

/// The passes act on the solver's own levels.
pub open spec fn act_on<T>(by: Passes<T>, b: Buffers, align: int) -> bool {
    &&& by.align == align
    &&& forall|k: nat| #[trigger]
        pow2(k) == b.reduce_size ==> by.levels == schedule(k, false)
    &&& forall|pass: Pass, top: Option<T>|
        (#[trigger] (by.found)(pass, top)).len() == b.reduce_size
}

/// What a pass makes of a pair.
pub open spec fn merge<T>(by: Passes<T>, pass: Pass) -> spec_fn(T, T) -> T {
    |x: T, y: T| (by.merged)(pass, x, y)
}

/// A reduction runs every level over the entries it filled in.
proof fn lemma_board_reduced<T>(
    b: Buffers,
    first: Pass,
    reduce: Pass,
    align: int,
    by: Passes<T>,
    board: Board<T>,
) -> (k: nat)
    requires
        b.wf(align),
        align >= 1,
        act_on(by, b, align),
    ensures
        pow2(k) == b.reduce_size,
        k <= 31,
        ({
            let then = board_after(deeds(reduced(first, reduce, b)), by, board);
            &&& then.top == board.top
            &&& then.probe == board.probe
            &&& then.stats == crate::scan::run(
                merge(by, reduce),
                by.zero,
                (by.found)(first, board.top),
                schedule(k, false),
            )
        }),
{
    lemma_reduced(b, first, reduce, align);
    let k = choose|k: nat| #[trigger] pow2(k) == b.reduce_size;
    lemma_small_power(k, b.reduce_size as int);
    let levels = schedule(k, false);
    let d = deeds(reduced(first, reduce, b));
    lemma_table_is_paired(b.reduce_levels, k, false, align);
    lemma_board_levels(b, first, reduce, align, by, board, k, k as int);
    assert(d.take(1 + k as int) =~= d);
    assert(levels.take(k as int) =~= levels);
    k
}

/// What the last entry then holds is the combination of them all.
proof fn lemma_board_total<T>(
    b: Buffers,
    first: Pass,
    reduce: Pass,
    align: int,
    by: Passes<T>,
    board: Board<T>,
)
    requires
        b.wf(align),
        align >= 1,
        act_on(by, b, align),
        crate::scan::associative(merge(by, reduce)),
    ensures
        ({
            let then = board_after(deeds(reduced(first, reduce, b)), by, board);
            let entries = (by.found)(first, board.top);
            &&& then.top == board.top
            &&& then.probe == board.probe
            &&& then.stats[b.reduce_size - 1] == crate::scan::total(
                merge(by, reduce),
                entries,
                0,
                entries.len() as int,
            )
        }),
{
    let k = lemma_board_reduced(b, first, reduce, align, by, board);
    let entries = (by.found)(first, board.top);
    crate::scan::lemma_reduction_is_the_total(merge(by, reduce), by.zero, entries, k);
}

proof fn lemma_board_levels<T>(
    b: Buffers,
    first: Pass,
    reduce: Pass,
    align: int,
    by: Passes<T>,
    board: Board<T>,
    k: nat,
    l: int,
)
    requires
        b.wf(align),
        align >= 1,
        act_on(by, b, align),
        pow2(k) == b.reduce_size,
        runs_reduce(deeds(reduced(first, reduce, b)), b, first, reduce),
        b.reduce_levels.runs@.len() == k,
        0 <= l <= k,
    ensures
        ({
            let then = board_after(deeds(reduced(first, reduce, b)).take(1 + l), by, board);
            &&& then.top == board.top
            &&& then.probe == board.probe
            &&& then.stats == crate::scan::run(
                merge(by, reduce),
                by.zero,
                (by.found)(first, board.top),
                schedule(k, false).take(l),
            )
        }),
    decreases l,
{
    let d = deeds(reduced(first, reduce, b));
    let levels = schedule(k, false);
    let runs = b.reduce_levels.runs@;
    assert(crate::gpu::tabulates(b.reduce_levels, levels, align));
    assert(d.take(1 + l).last() == d[l]);
    if l == 0 {
        assert(d.take(1) =~= seq![d[0]]);
        lemma_board_one(d[0], by, board);
        assert(levels.take(0) =~= Seq::empty());
    } else {
        lemma_board_levels(b, first, reduce, align, by, board, k, l - 1);
        assert(d.take(1 + l).drop_last() =~= d.take(1 + (l - 1)));
        assert(levels.take(l).drop_last() =~= levels.take(l - 1));
        assert(levels.take(l).last() == levels[l - 1]);
        assert(runs[l - 1] == (((l - 1) * align) as u32, levels[l - 1].count));
        assert(launches(
            d[1 + (l - 1)],
            Kernel::Solver(reduce),
            Group::Solver(reduce),
            Some(runs[l - 1].0),
            runs[l - 1].1 as int,
        ));
        assert(0 <= (l - 1) * align) by (nonlinear_arith)
            requires
                1 <= l,
                1 <= align,
        ;
        vstd::arithmetic::div_mod::lemma_div_multiples_vanish(l - 1, align);
        assert(((l - 1) * align) / align == l - 1) by (nonlinear_arith)
            requires
                align * (l - 1) / align == l - 1,
        ;
    }
}

/// One of the entries, no further than any.
pub open spec fn nearest<T>(entry: T, entries: Seq<T>, far: spec_fn(T) -> int) -> bool {
    &&& entries.contains(entry)
    &&& forall|k: int| 0 <= k < entries.len() ==> far(entry) <= far(#[trigger] entries[k])
}

/// Keeping the nearer of two, over and over, keeps the nearest of all.
proof fn lemma_nearest_is_kept<T>(
    op: spec_fn(T, T) -> T,
    far: spec_fn(T) -> int,
    entries: Seq<T>,
    hi: int,
)
    requires
        forall|x: T, y: T|
            #[trigger] op(x, y) == if far(y) < far(x) {
                y
            } else {
                x
            },
        1 <= hi <= entries.len(),
    ensures
        nearest(crate::scan::total(op, entries, 0, hi), entries.take(hi), far),
    decreases hi,
{
    let now = entries.take(hi);
    if hi == 1 {
        assert(now[0] == entries[0]);
    } else {
        lemma_nearest_is_kept(op, far, entries, hi - 1);
        let before = entries.take(hi - 1);
        let kept = crate::scan::total(op, entries, 0, hi - 1);
        let i = choose|i: int| 0 <= i < before.len() && before[i] == kept;
        assert(now[i] == kept);
        assert(now[hi - 1] == entries[hi - 1]);
        assert forall|k: int| 0 <= k < now.len() implies far(
            crate::scan::total(op, entries, 0, hi),
        ) <= far(#[trigger] now[k]) by {
            if k < hi - 1 {
                assert(before[k] == now[k]);
            }
        }
    }
}

proof fn lemma_nearer_is_associative<T>(op: spec_fn(T, T) -> T, far: spec_fn(T) -> int)
    requires
        forall|x: T, y: T|
            #[trigger] op(x, y) == if far(y) < far(x) {
                y
            } else {
                x
            },
    ensures
        crate::scan::associative(op),
{
    assert forall|x: T, y: T, z: T| #[trigger] op(op(x, y), z) == op(x, op(y, z)) by {}
}

/// The ray finds the particle nearest along it. Whatever the hits are, if the pass
/// that keeps the nearer of two hits does so, what the search copies out is one of
/// the hits, and no hit is nearer.
pub proof fn lemma_ray_finds_the_nearest<T>(
    b: Buffers,
    align: int,
    by: Passes<T>,
    board: Board<T>,
    far: spec_fn(T) -> int,
)
    requires
        b.wf(align),
        align >= 1,
        act_on(by, b, align),
        forall|x: T, y: T|
            #[trigger] (by.merged)(Pass::ReduceNearest, x, y) == if far(y) < far(x) {
                y
            } else {
                x
            },
    ensures
        board_after(deeds(probed(b)), by, board).probe is Some,
        nearest(
            board_after(deeds(probed(b)), by, board).probe->0,
            (by.found)(Pass::RayHits, board.top),
            far,
        ),
{
    let op = merge(by, Pass::ReduceNearest);
    lemma_nearer_is_associative(op, far);
    let hits = (by.found)(Pass::RayHits, board.top);
    let write = Deed::Done(Command::WriteParams(Span::Instant, Extra::Ray));
    let copy = Deed::Done(taken(b, Buffer::Probe));
    let submit = Deed::Done(Command::Submit);
    let inner = deeds(reduced(Pass::RayHits, Pass::ReduceNearest, b));
    lemma_probe_runs(b, align);
    lemma_board_one(write, by, board);
    lemma_board_joins(seq![write], inner, by, board);
    lemma_board_total(b, Pass::RayHits, Pass::ReduceNearest, align, by, board);
    let then = board_after(seq![write] + inner, by, board);
    assert(seq![copy, submit] =~= seq![copy] + seq![submit]);
    lemma_board_joins(seq![write] + inner, seq![copy, submit], by, board);
    lemma_board_joins(seq![copy], seq![submit], by, then);
    lemma_board_one(copy, by, then);
    lemma_board_one(submit, by, done(copy, by, then));
    lemma_nearest_is_kept(op, far, hits, hits.len() as int);
    assert(hits.take(hits.len() as int) =~= hits);
}

/// The title's figures are sums over all that was measured, with the water's top
/// known: whatever the measurements are, if the pass that adds them up can be
/// bracketed as one likes, the top that is kept is the combination of every top,
/// and what is copied out the combination of every measurement against it.
pub proof fn lemma_figures_cover_every_entry<T>(
    b: Buffers,
    align: int,
    by: Passes<T>,
    board: Board<T>,
)
    requires
        b.wf(align),
        align >= 1,
        act_on(by, b, align),
        crate::scan::associative(merge(by, Pass::Reduce)),
    ensures
        ({
            let op = merge(by, Pass::Reduce);
            let n = b.reduce_size as int;
            let top = crate::scan::total(op, (by.found)(Pass::MeasureTop, board.top), 0, n);
            let then = board_after(deeds(measured(b)), by, board);
            &&& then.top == Some(top)
            &&& then.probe == Some(
                crate::scan::total(op, (by.found)(Pass::Measure, Some(top)), 0, n),
            )
        }),
{
    let write = Deed::Done(Command::WriteParams(Span::Instant, Extra::Nothing));
    let (keep, copy) = (Deed::Done(taken(b, Buffer::Top)), Deed::Done(taken(b, Buffer::Probe)));
    let submit = Deed::Done(Command::Submit);
    let top = deeds(reduced(Pass::MeasureTop, Pass::Reduce, b));
    let rest = deeds(reduced(Pass::Measure, Pass::Reduce, b));
    lemma_measure_runs(b, align);
    lemma_board_one(write, by, board);
    lemma_board_joins(seq![write], top, by, board);
    lemma_board_total(b, Pass::MeasureTop, Pass::Reduce, align, by, board);
    let one = board_after(seq![write] + top, by, board);
    lemma_board_joins(seq![write] + top, seq![keep], by, board);
    lemma_board_one(keep, by, one);
    let two = done(keep, by, one);
    lemma_board_joins(seq![write] + top + seq![keep], rest, by, board);
    lemma_board_total(b, Pass::Measure, Pass::Reduce, align, by, two);
    let three = board_after(rest, by, two);
    assert(seq![copy, submit] =~= seq![copy] + seq![submit]);
    lemma_board_joins(
        seq![write] + top + seq![keep] + rest,
        seq![copy, submit],
        by,
        board,
    );
    lemma_board_joins(seq![copy], seq![submit], by, three);
    lemma_board_one(copy, by, three);
    lemma_board_one(submit, by, done(copy, by, three));
}

/// How often a program sets a kernel.
pub open spec fn settings(program: Seq<Command>, kernel: Kernel) -> int
    decreases program.len(),
{
    if program.len() == 0 {
        0
    } else if program.last() == Command::Pipeline(kernel) {
        settings(program.drop_last(), kernel) + 1
    } else {
        settings(program.drop_last(), kernel)
    }
}

proof fn lemma_settings_join(p: Seq<Command>, q: Seq<Command>, kernel: Kernel)
    ensures
        settings(p + q, kernel) == settings(p, kernel) + settings(q, kernel),
    decreases q.len(),
{
    if q.len() == 0 {
        assert(p + q =~= p);
    } else {
        lemma_settings_join(p, q.drop_last(), kernel);
        assert((p + q).drop_last() =~= p + q.drop_last());
        assert((p + q).last() == q.last());
    }
}

proof fn lemma_no_settings(p: Seq<Command>, kernel: Kernel)
    requires
        forall|k: int| 0 <= k < p.len() ==> #[trigger] p[k] != Command::Pipeline(kernel),
    ensures
        settings(p, kernel) == 0,
    decreases p.len(),
{
    if p.len() > 0 {
        assert(p.last() == p[p.len() - 1]);
        assert forall|k: int| 0 <= k < p.drop_last().len() implies #[trigger] p.drop_last()[k]
            != Command::Pipeline(kernel) by {
            assert(p.drop_last()[k] == p[k]);
        }
        lemma_no_settings(p.drop_last(), kernel);
    }
}

proof fn lemma_settings_ran(of: Kernel, group: Group, count: u32, kernel: Kernel)
    ensures
        settings(ran(of, group, count), kernel) == if of == kernel {
            1int
        } else {
            0int
        },
{
    let (head, rest) = (
        seq![Command::Pipeline(of)],
        seq![Command::Bind(group, None)] + dispatched(count),
    );
    assert(ran(of, group, count) =~= head + rest);
    lemma_settings_join(head, rest, kernel);
    lemma_no_settings(rest, kernel);
    assert(head.drop_last() =~= Seq::empty());
    assert(settings(Seq::<Command>::empty(), kernel) == 0);
}

proof fn lemma_settings_swept(group: Group, runs: Runs, kernel: Kernel)
    ensures
        settings(swept(group, runs), kernel) == 0,
    decreases runs.len(),
{
    if runs.len() > 0 {
        let before = swept(group, runs.drop_last());
        let rest = seq![Command::Bind(group, Some(runs.last().0))] + dispatched(runs.last().1);
        lemma_settings_swept(group, runs.drop_last(), kernel);
        lemma_no_settings(rest, kernel);
        lemma_settings_join(before, rest, kernel);
        assert(swept(group, runs) =~= before + rest);
    }
}

proof fn lemma_settings_passed(inner: Seq<Command>, kernel: Kernel)
    ensures
        settings(passed(inner), kernel) == settings(inner, kernel),
{
    let (begin, end) = (seq![Command::BeginPass], seq![Command::EndPass]);
    lemma_no_settings(begin, kernel);
    lemma_no_settings(end, kernel);
    lemma_settings_join(begin, inner, kernel);
    lemma_settings_join(begin + inner, end, kernel);
}

/// The passes of an iteration.
pub open spec fn iterates(pass: Pass) -> bool {
    pass == Pass::Lambda || pass == Pass::Delta || pass == Pass::ApplyDelta
}

proof fn lemma_settings_rebuilt(which: GridOf, grid: GpuGrid, pass: Pass)
    requires
        iterates(pass),
    ensures
        settings(rebuilt(which, grid), Kernel::Solver(pass)) == 0,
{
    let kernel = Kernel::Solver(pass);
    let of = |p: Pass, count: u32| ran(Kernel::Solver(p), Group::Grid(which, p), count);
    let runs = grid.levels.runs@;
    let (bin, count) = (of(Pass::Bin, grid.n), of(Pass::Count, grid.n));
    let prefix = ran_levels(Kernel::Solver(Pass::Prefix), Group::Grid(which, Pass::Prefix), runs);
    let (scatter, sort) = (of(Pass::Scatter, grid.n), of(Pass::SortCells, grid.cells));
    lemma_settings_ran(
        Kernel::Solver(Pass::Bin),
        Group::Grid(which, Pass::Bin),
        grid.n,
        kernel,
    );
    lemma_settings_ran(
        Kernel::Solver(Pass::Count),
        Group::Grid(which, Pass::Count),
        grid.n,
        kernel,
    );
    lemma_settings_ran(
        Kernel::Solver(Pass::Scatter),
        Group::Grid(which, Pass::Scatter),
        grid.n,
        kernel,
    );
    lemma_settings_ran(
        Kernel::Solver(Pass::SortCells),
        Group::Grid(which, Pass::SortCells),
        grid.cells,
        kernel,
    );
    let head = seq![Command::Pipeline(Kernel::Solver(Pass::Prefix))];
    let group = Group::Grid(which, Pass::Prefix);
    lemma_no_settings(head, kernel);
    lemma_settings_swept(group, runs, kernel);
    lemma_settings_join(head, swept(group, runs), kernel);
    lemma_settings_join(bin, count, kernel);
    lemma_settings_join(bin + count, prefix, kernel);
    lemma_settings_join(scatter, sort, kernel);
    let (first, second) = (passed(bin + count + prefix), passed(scatter + sort));
    lemma_settings_passed(bin + count + prefix, kernel);
    lemma_settings_passed(scatter + sort, kernel);
    let clear = seq![Command::Clear(Buffer::Starts(which))];
    let copy = seq![copied(Buffer::Starts(which), Buffer::Cursor(which))];
    lemma_no_settings(clear, kernel);
    lemma_no_settings(copy, kernel);
    lemma_settings_join(clear, first, kernel);
    lemma_settings_join(clear + first, copy, kernel);
    lemma_settings_join(clear + first + copy, second, kernel);
}

proof fn lemma_settings_iterated(n: u32, iterations: int, pass: Pass)
    requires
        iterates(pass),
        0 <= iterations,
    ensures
        settings(iterated(n, iterations), Kernel::Solver(pass)) == iterations,
    decreases iterations,
{
    let kernel = Kernel::Solver(pass);
    if iterations > 0 {
        lemma_settings_iterated(n, iterations - 1, pass);
        let before = iterated(n, iterations - 1);
        let (x, y, z) = (
            solved(Pass::Lambda, n),
            solved(Pass::Delta, n),
            solved(Pass::ApplyDelta, n),
        );
        lemma_settings_solved(Pass::Lambda, n, pass);
        lemma_settings_solved(Pass::Delta, n, pass);
        lemma_settings_solved(Pass::ApplyDelta, n, pass);
        lemma_settings_join(before, x, kernel);
        lemma_settings_join(before + x, y, kernel);
        lemma_settings_join(before + x + y, z, kernel);
    }
}

proof fn lemma_settings_solved(of: Pass, n: u32, pass: Pass)
    ensures
        settings(solved(of, n), Kernel::Solver(pass)) == if of == pass {
            1int
        } else {
            0int
        },
{
    lemma_settings_ran(Kernel::Solver(of), Group::Solver(of), n, Kernel::Solver(pass));
}

/// A substep sets each pass of an iteration exactly as often as it iterates.
pub proof fn lemma_substep_iterates(b: Buffers, iterations: int, pass: Pass)
    requires
        pass == Pass::Lambda || pass == Pass::Delta || pass == Pass::ApplyDelta,
        0 <= iterations,
    ensures
        settings(substep(b, iterations), Kernel::Solver(pass)) == iterations,
{
    let kernel = Kernel::Solver(pass);
    let n = b.n as u32;
    let (predict, grid) = (solved(Pass::Predict, n), rebuilt(GridOf::Solver, b.grid));
    let (near, turns) = (solved(Pass::Neighbors, n), iterated(n, iterations));
    let (speed, drag) = (solved(Pass::Velocity, n), solved(Pass::Viscosity, n));
    let copy = seq![copied(Buffer::Scratch, Buffer::Velocities)];
    lemma_settings_solved(Pass::Predict, n, pass);
    lemma_settings_solved(Pass::Neighbors, n, pass);
    lemma_settings_solved(Pass::Velocity, n, pass);
    lemma_settings_solved(Pass::Viscosity, n, pass);
    lemma_settings_iterated(n, iterations, pass);
    lemma_settings_rebuilt(GridOf::Solver, b.grid, pass);
    lemma_no_settings(copy, kernel);
    lemma_settings_passed(predict, kernel);
    lemma_settings_join(passed(predict), grid, kernel);
    lemma_settings_join(near, turns, kernel);
    lemma_settings_join(near + turns, speed, kernel);
    lemma_settings_join(near + turns + speed, drag, kernel);
    let tail = near + turns + speed + drag;
    lemma_settings_passed(tail, kernel);
    lemma_settings_join(passed(predict) + grid, passed(tail), kernel);
    lemma_settings_join(passed(predict) + grid + passed(tail), copy, kernel);
}

proof fn lemma_settings_substepped(b: Buffers, iterations: int, substeps: int, pass: Pass)
    requires
        iterates(pass),
        0 <= iterations,
        0 <= substeps,
    ensures
        settings(substepped(b, iterations, substeps), Kernel::Solver(pass)) == substeps
            * iterations,
    decreases substeps,
{
    let kernel = Kernel::Solver(pass);
    if substeps > 0 {
        lemma_settings_substepped(b, iterations, substeps - 1, pass);
        lemma_substep_iterates(b, iterations, pass);
        let before = substepped(b, iterations, substeps - 1);
        let head = seq![
            Command::AdvanceClock,
            Command::WriteParams(Span::Substep, Extra::Nothing),
        ];
        let inner = substep(b, iterations);
        lemma_no_settings(head, kernel);
        lemma_no_settings(seq![Command::Submit], kernel);
        lemma_settings_join(before, head, kernel);
        lemma_settings_join(before + head, inner, kernel);
        lemma_settings_join(before + head + inner, seq![Command::Submit], kernel);
        assert((substeps - 1) * iterations + iterations == substeps * iterations)
            by (nonlinear_arith);
    } else {
        assert(0 * iterations == 0);
    }
}

proof fn lemma_settings_gathered(target: Buffer, n: u32, bytes: u64, pass: Pass)
    requires
        iterates(pass),
    ensures
        settings(gathered(target, n, bytes), Kernel::Solver(pass)) == 0,
{
    let kernel = Kernel::Solver(pass);
    let of = Kernel::Solver(crate::sim_gpu::gather_pass(target));
    let inner = ran(of, Group::Gather(target), n);
    let back = seq![
        Command::Copy {
            from: crate::sim_gpu::gather_out(target),
            at: 0,
            to: target,
            to_at: 0,
            bytes: Some(bytes),
        },
    ];
    lemma_settings_ran(of, Group::Gather(target), n, kernel);
    lemma_settings_passed(inner, kernel);
    lemma_no_settings(back, kernel);
    lemma_settings_join(passed(inner), back, kernel);
}

proof fn lemma_settings_renumbered(b: Buffers, pass: Pass)
    requires
        iterates(pass),
    ensures
        settings(renumbered(b), Kernel::Solver(pass)) == 0,
{
    let kernel = Kernel::Solver(pass);
    let n = b.n as u32;
    let of = |target: Buffer| gathered(target, n, b.bytes(target) as u64);
    lemma_settings_gathered(
        Buffer::Positions,
        n,
        b.bytes(Buffer::Positions) as u64,
        pass,
    );
    lemma_settings_gathered(Buffer::Previous, n, b.bytes(Buffer::Previous) as u64, pass);
    lemma_settings_gathered(
        Buffer::Velocities,
        n,
        b.bytes(Buffer::Velocities) as u64,
        pass,
    );
    lemma_settings_gathered(Buffer::Foam, n, b.bytes(Buffer::Foam) as u64, pass);
    lemma_settings_gathered(Buffer::Spray, n, b.bytes(Buffer::Spray) as u64, pass);
    lemma_settings_gathered(Buffer::Ids, n, b.bytes(Buffer::Ids) as u64, pass);
    let (g1, g2, g3) = (of(Buffer::Positions), of(Buffer::Previous), of(Buffer::Velocities));
    let (g4, g5, g6) = (of(Buffer::Foam), of(Buffer::Spray), of(Buffer::Ids));
    lemma_settings_join(g1, g2, kernel);
    lemma_settings_join(g1 + g2, g3, kernel);
    lemma_settings_join(g1 + g2 + g3, g4, kernel);
    lemma_settings_join(g1 + g2 + g3 + g4, g5, kernel);
    lemma_settings_join(g1 + g2 + g3 + g4 + g5, g6, kernel);
}

proof fn lemma_settings_pushed(count: int, n: u32, pass: Pass)
    requires
        iterates(pass),
        0 <= count,
    ensures
        settings(all_pushed(count, n), Kernel::Solver(pass)) == 0,
    decreases count,
{
    let kernel = Kernel::Solver(pass);
    if count > 0 {
        lemma_settings_pushed(count - 1, n, pass);
        let (before, one) = (all_pushed(count - 1, n), pushed(count - 1, n));
        let write = seq![
            Command::WriteParams(Span::Substep, Extra::Impulse((count - 1) as usize)),
        ];
        let inner = solved(Pass::Impulse, n);
        lemma_no_settings(write, kernel);
        lemma_no_settings(seq![Command::Submit], kernel);
        lemma_settings_solved(Pass::Impulse, n, pass);
        lemma_settings_passed(inner, kernel);
        lemma_settings_join(write, passed(inner), kernel);
        lemma_settings_join(write + passed(inner), seq![Command::Submit], kernel);
        lemma_settings_join(before, one, kernel);
    }
}

/// A frame sets each pass of an iteration exactly as often as its substeps
/// iterate, all together.
pub proof fn lemma_frame_iterates(
    b: Buffers,
    impulses: int,
    renumber: bool,
    iterations: int,
    substeps: int,
    pass: Pass,
)
    requires
        pass == Pass::Lambda || pass == Pass::Delta || pass == Pass::ApplyDelta,
        0 <= impulses,
        0 <= iterations,
        0 <= substeps,
    ensures
        settings(framed(b, impulses, renumber, iterations, substeps), Kernel::Solver(pass))
            == substeps * iterations,
{
    let kernel = Kernel::Solver(pass);
    let n = b.n as u32;
    let pushes = all_pushed(impulses, n);
    let write = seq![Command::WriteParams(Span::Substep, Extra::Nothing)];
    let order = if renumber {
        write + renumbered(b)
    } else {
        Seq::empty()
    };
    let copy = seq![copied(Buffer::Positions, Buffer::Previous)];
    let turns = substepped(b, iterations, substeps);
    lemma_settings_pushed(impulses, n, pass);
    lemma_no_settings(write, kernel);
    lemma_settings_renumbered(b, pass);
    lemma_settings_join(write, renumbered(b), kernel);
    lemma_no_settings(copy, kernel);
    lemma_settings_substepped(b, iterations, substeps, pass);
    let last = seq![Command::WriteParams(Span::Frame, Extra::Nothing)];
    let foam = solved(Pass::Foam, n);
    let end = seq![
        Command::Copy {
            from: Buffer::MaxNeighbors,
            at: 0,
            to: Buffer::Probe,
            to_at: 0,
            bytes: Some(4),
        },
        Command::Submit,
    ];
    lemma_no_settings(last, kernel);
    lemma_no_settings(end, kernel);
    lemma_settings_solved(Pass::Foam, n, pass);
    lemma_settings_passed(foam, kernel);
    lemma_settings_join(last, passed(foam), kernel);
    lemma_settings_join(last + passed(foam), end, kernel);
    lemma_settings_join(pushes, order, kernel);
    lemma_settings_join(pushes + order, copy, kernel);
    lemma_settings_join(pushes + order + copy, turns, kernel);
    lemma_settings_join(pushes + order + copy + turns, finished(n), kernel);
}

/// The pushes that a step plays are those queued for its water, all of them and
/// in the order they were queued.
pub proof fn lemma_played_in_order(pushes: Seq<crate::gpu_fluid::Push>, generation: u64)
    ensures
        crate::gpu_fluid::meant_for(pushes, generation) == pushes.filter(
            |push: crate::gpu_fluid::Push| push.generation == generation,
        ),
        crate::gpu_fluid::played(pushes, generation) == pushes.filter(
            |push: crate::gpu_fluid::Push| push.generation == generation,
        ).map_values(|push: crate::gpu_fluid::Push| push.impulse),
    decreases pushes.len(),
{
    reveal(Seq::filter);
    if pushes.len() > 0 {
        lemma_played_in_order(pushes.drop_last(), generation);
    }
    assert(crate::gpu_fluid::meant_for(pushes, generation) =~= pushes.filter(
        |push: crate::gpu_fluid::Push| push.generation == generation,
    ));
}

/// A step of the water does all of this and nothing else. With no particles, or no
/// time, it does nothing. Otherwise a device that holds other water is written
/// anew, with new buffers if their length changes; then a whole frame runs, over
/// as many particles as there are, with every queued push, every substep that the
/// water asks for, or one if it asks for none, and every iteration.
pub proof fn lemma_step_runs(
    before: GpuFluid,
    fluid: Fluid,
    dt: Single,
    then: GpuFluid,
    program: Seq<Command>,
    pushes: Seq<Impulse>,
) -> (frame: Seq<Command>)
    requires
        before.wf(),
        before.steps(fluid, dt, then, program, pushes),
    ensures
        fluid.count == 0 || !dt.nan() && dt.rank() <= 0 ==> {
            &&& program.len() == 0
            &&& pushes.len() == 0
            &&& then == before
        },
        fluid.count > 0 && (dt.nan() || dt.rank() > 0) ==> {
            let resized = fluid.count != before.buffers.n;
            let stale = resized || fluid.generation != before.generation;
            let substeps = if fluid.params.substeps >= 1 {
                fluid.params.substeps as int
            } else {
                1
            };
            &&& program == (if stale {
                (if resized {
                    seq![Command::Allocate]
                } else {
                    Seq::empty()
                }) + seq![
                    Command::Write(Buffer::Positions),
                    Command::Write(Buffer::Previous),
                    Command::Write(Buffer::Velocities),
                    Command::Write(Buffer::Foam),
                    Command::Write(Buffer::Spray),
                    Command::Write(Buffer::Ids),
                    Command::Clear(Buffer::Boundary),
                    Command::Clear(Buffer::NeighborCount),
                    Command::Clear(Buffer::MaxNeighbors),
                    Command::Submit,
                ]
            } else {
                Seq::empty()
            }) + frame
            &&& pushes == before.impulses@.filter(
                |push: crate::gpu_fluid::Push| push.generation == fluid.generation,
            ).map_values(|push: crate::gpu_fluid::Push| push.impulse)
            &&& then.buffers.n == fluid.count
            &&& then.generation == fluid.generation
            &&& then.stepped
            &&& then.impulses@.len() == 0
            &&& then.align == before.align
            &&& then.buffers.capacity == before.buffers.capacity
            &&& !resized ==> then.buffers == before.buffers && then.revision == before.revision
            &&& resized ==> then.revision == before.revision + 1 && then.buffers.dims_x
                == fluid.grid.cols && then.buffers.dims_y == fluid.grid.rows
                && then.buffers.dims_z == fluid.grid.layers
            &&& then.max_neighbors == if stale {
                0
            } else {
                before.max_neighbors
            }
            &&& then.since_renumber == if !stale && before.stepped {
                0
            } else {
                before.since_renumber + 1
            }
            &&& runs_frame(
                deeds(frame),
                then.buffers,
                pushes.len() as int,
                !stale && before.stepped,
                fluid.params.iterations as int,
                substeps,
            )
            &&& settings(frame, Kernel::Solver(Pass::Lambda)) == substeps
                * fluid.params.iterations
            &&& settings(frame, Kernel::Solver(Pass::Delta)) == substeps * fluid.params.iterations
            &&& settings(frame, Kernel::Solver(Pass::ApplyDelta)) == substeps
                * fluid.params.iterations
        },
{
    let stale = before.stale(fluid);
    let renumber = !stale && before.stepped;
    let substeps = if fluid.params.substeps == 0 {
        1
    } else {
        fluid.params.substeps as int
    };
    let (count, iterations) = (pushes.len() as int, fluid.params.iterations as int);
    let frame = framed(then.buffers, count, renumber, iterations, substeps);
    crate::single::lemma_zero();
    if fluid.count > 0 && (dt.nan() || dt.rank() > 0) {
        lemma_played_in_order(before.impulses@, fluid.generation);
        lemma_frame_runs(then.buffers, count, renumber, iterations, substeps, then.align as int);
        lemma_frame_iterates(then.buffers, count, renumber, iterations, substeps, Pass::Lambda);
        lemma_frame_iterates(then.buffers, count, renumber, iterations, substeps, Pass::Delta);
        lemma_frame_iterates(
            then.buffers,
            count,
            renumber,
            iterations,
            substeps,
            Pass::ApplyDelta,
        );
        assert(uploaded(true) =~= seq![Command::Allocate] + uploaded(false));
        assert(uploaded(false) =~= seq![
            Command::Write(Buffer::Positions),
            Command::Write(Buffer::Previous),
            Command::Write(Buffer::Velocities),
            Command::Write(Buffer::Foam),
            Command::Write(Buffer::Spray),
            Command::Write(Buffer::Ids),
            Command::Clear(Buffer::Boundary),
            Command::Clear(Buffer::NeighborCount),
            Command::Clear(Buffer::MaxNeighbors),
            Command::Submit,
        ]);
        assert(Seq::<Command>::empty() + uploaded(false) =~= uploaded(false));
    }
    frame
}

/// One kernel over so many items: launched once for all of them, or not at all if
/// there are none.
pub open spec fn runs_once(d: Seq<Deed>, kernel: Kernel, group: Group, count: int) -> bool {
    if count == 0 {
        d.len() == 0
    } else {
        d.len() == 1 && launches(d[0], kernel, group, None, count)
    }
}

/// The levels of a sweep, and nothing else.
pub open spec fn runs_levels(d: Seq<Deed>, kernel: Kernel, group: Group, runs: Runs) -> bool {
    d.len() == runs.len() && sweeps(d, 0, kernel, group, runs)
}

proof fn lemma_once(kernel: Kernel, group: Group, count: u32)
    ensures
        alone(ran(kernel, group, count)),
        runs_once(deeds(ran(kernel, group, count)), kernel, group, count as int),
{
    if count > 0 {
        lemma_ran(kernel, group, count);
    } else {
        crate::gpu::lemma_dispatch_covers(count);
        let (a, b) = (Command::Pipeline(kernel), Command::Bind(group, None));
        lemma_setting(a);
        lemma_setting(b);
        lemma_then(seq![a], seq![b]);
        assert(ran(kernel, group, count) =~= seq![a] + seq![b]);
    }
}

/// The total past the last of so many offsets, copied out to draw by and to read,
/// and submitted.
pub open spec fn takes_total(d: Seq<Deed>, scan: ScanOf, count: int) -> bool {
    &&& d.len() == 3
    &&& d[0] == Deed::Done(
        Command::Copy {
            from: Buffer::Offsets(scan),
            at: (4 * count) as u64,
            to: Buffer::Drawn(scan),
            to_at: 0,
            bytes: Some(4),
        },
    )
    &&& d[1] == Deed::Done(
        Command::Copy {
            from: Buffer::Offsets(scan),
            at: (4 * count) as u64,
            to: Buffer::Total(scan),
            to_at: 0,
            bytes: Some(4),
        },
    )
    &&& d[2] == Deed::Done(Command::Submit)
}

proof fn lemma_totalled(scan: ScanOf, count: u32)
    ensures
        alone(crate::surface_gpu::totalled(scan, count)),
        takes_total(deeds(crate::surface_gpu::totalled(scan, count)), scan, count as int),
{
    let all = crate::surface_gpu::totalled(scan, count);
    lemma_one(all[0]);
    lemma_one(all[1]);
    lemma_one(all[2]);
    lemma_then(seq![all[0]], seq![all[1]]);
    lemma_then(seq![all[0]] + seq![all[1]], seq![all[2]]);
    assert(all =~= seq![all[0]] + seq![all[1]] + seq![all[2]]);
}

/// The steps of a surface's rebuild.
pub struct SurfaceSteps {
    pub interpolate: Seq<Deed>,
    pub sort: Seq<Deed>,
    pub sample: Seq<Deed>,
    pub classify: Seq<Deed>,
    pub offset: Seq<Deed>,
    pub emit: Seq<Deed>,
    pub clear: Seq<Deed>,
    pub total: Seq<Deed>,
}

/// A surface's rebuild does this, in order, and nothing else: its parameters are
/// written; every particle is interpolated; the particles are sorted into the
/// surface's own grid; the offsets are zeroed; every sample is taken; every cube
/// is classified; the counts become offsets; every cube's triangles are emitted;
/// every vertex there is room for is cleared past them; and the offset past the
/// last cube is copied out.
#[verifier::spinoff_prover]
#[verifier::rlimit(40)]
pub proof fn lemma_surface_runs(surface: GpuSurface, capacity: u32, align: int) -> (steps:
    SurfaceSteps)
    requires
        surface.wf(align),
        surface.base.n > 0,
        surface.grid.cells > 0,
    ensures
        deeds(surface_program(surface.base, surface.grid, surface.levels, capacity)) == seq![
            Deed::Done(Command::Write(Buffer::SurfaceParams)),
        ] + steps.interpolate + steps.sort + seq![
            Deed::Done(Command::Clear(Buffer::Offsets(ScanOf::Surface))),
        ] + (steps.sample + steps.classify + steps.offset + steps.emit + steps.clear)
            + steps.total,
        runs_once(
            steps.interpolate,
            Kernel::Surface(SurfacePass::Interpolate),
            Group::Surface(SurfacePass::Interpolate),
            surface.base.n as int,
        ),
        runs_rebuild(steps.sort, GridOf::Surface, surface.grid),
        runs_once(
            steps.sample,
            Kernel::Surface(SurfacePass::SampleDensity),
            Group::Surface(SurfacePass::SampleDensity),
            surface.base.voxel_count as int,
        ),
        runs_once(
            steps.classify,
            Kernel::Surface(SurfacePass::Classify),
            Group::Surface(SurfacePass::Classify),
            surface.base.cube_count as int,
        ),
        runs_levels(
            steps.offset,
            Kernel::Solver(Pass::Prefix),
            Group::Scan(ScanOf::Surface),
            surface.levels.runs@,
        ),
        runs_once(
            steps.emit,
            Kernel::Surface(SurfacePass::Emit),
            Group::Surface(SurfacePass::Emit),
            surface.base.cube_count as int,
        ),
        runs_once(
            steps.clear,
            Kernel::Surface(SurfacePass::ClearTail),
            Group::Surface(SurfacePass::ClearTail),
            capacity as int,
        ),
        takes_total(steps.total, ScanOf::Surface, surface.base.cube_count as int),
{
    let base = surface.base;
    let k = choose|k: nat| #[trigger] pow2(k) == surface.offsets_size;
    lemma_small_power(k, surface.offsets_size as int);
    lemma_table_is_paired(surface.levels, k, true, align);
    let of = |pass: SurfacePass, count: u32|
        ran(Kernel::Surface(pass), Group::Surface(pass), count);
    let write = seq![Command::Write(Buffer::SurfaceParams)];
    let first = of(SurfacePass::Interpolate, base.n);
    let sort = rebuilt(GridOf::Surface, surface.grid);
    let zero = seq![Command::Clear(Buffer::Offsets(ScanOf::Surface))];
    let sample = of(SurfacePass::SampleDensity, base.voxel_count);
    let classify = of(SurfacePass::Classify, base.cube_count);
    let sweep = ran_levels(
        Kernel::Solver(Pass::Prefix),
        Group::Scan(ScanOf::Surface),
        surface.levels.runs@,
    );
    let emit = of(SurfacePass::Emit, base.cube_count);
    let clear = of(SurfacePass::ClearTail, capacity);
    let total = crate::surface_gpu::totalled(ScanOf::Surface, base.cube_count);
    lemma_one(Command::Write(Buffer::SurfaceParams));
    lemma_one(Command::Clear(Buffer::Offsets(ScanOf::Surface)));
    lemma_surface_stage(SurfacePass::Interpolate, base.n);
    lemma_surface_stage(SurfacePass::SampleDensity, base.voxel_count);
    lemma_surface_stage(SurfacePass::Classify, base.cube_count);
    lemma_surface_stage(SurfacePass::Emit, base.cube_count);
    lemma_surface_stage(SurfacePass::ClearTail, capacity);
    lemma_rebuild_alone(GridOf::Surface, surface.grid, align);
    lemma_levels(
        Kernel::Solver(Pass::Prefix),
        Group::Scan(ScanOf::Surface),
        surface.levels.runs@,
    );
    lemma_totalled(ScanOf::Surface, base.cube_count);
    lemma_passed(first);
    lemma_then(write, passed(first));
    lemma_then(write + passed(first), sort);
    lemma_then(write + passed(first) + sort, zero);
    lemma_then(sample, classify);
    lemma_then(sample + classify, sweep);
    lemma_then(sample + classify + sweep, emit);
    lemma_then(sample + classify + sweep + emit, clear);
    let tail = sample + classify + sweep + emit + clear;
    lemma_passed(tail);
    lemma_then(write + passed(first) + sort + zero, passed(tail));
    lemma_then(write + passed(first) + sort + zero + passed(tail), total);
    SurfaceSteps {
        interpolate: deeds(first),
        sort: deeds(sort),
        sample: deeds(sample),
        classify: deeds(classify),
        offset: deeds(sweep),
        emit: deeds(emit),
        clear: deeds(clear),
        total: deeds(total),
    }
}

proof fn lemma_surface_stage(pass: SurfacePass, count: u32)
    ensures
        alone(ran(Kernel::Surface(pass), Group::Surface(pass), count)),
        runs_once(
            deeds(ran(Kernel::Surface(pass), Group::Surface(pass), count)),
            Kernel::Surface(pass),
            Group::Surface(pass),
            count as int,
        ),
{
    lemma_once(Kernel::Surface(pass), Group::Surface(pass), count);
}

/// The steps of a spray's rebuild.
pub struct SpraySteps {
    pub select: Seq<Deed>,
    pub offset: Seq<Deed>,
    pub place: Seq<Deed>,
    pub clear: Seq<Deed>,
    pub total: Seq<Deed>,
}

/// A spray's rebuild does this, in order, and nothing else: its parameters are
/// written; the offsets are zeroed; every particle is selected or not; the
/// selection becomes offsets; every particle's droplet is placed; every droplet
/// there is room for is cleared past them; and the offset past the last particle
/// is copied out.
#[verifier::spinoff_prover]
pub proof fn lemma_spray_runs(spray: GpuSpray, capacity: u32, align: int) -> (steps: SpraySteps)
    requires
        spray.wf(align),
    ensures
        deeds(spray_program(spray.n, spray.levels, capacity)) == seq![
            Deed::Done(Command::Write(Buffer::SprayParams)),
            Deed::Done(Command::Clear(Buffer::Offsets(ScanOf::Spray))),
        ] + (steps.select + steps.offset + steps.place + steps.clear) + steps.total,
        runs_once(
            steps.select,
            Kernel::Spray(SprayPass::Select),
            Group::Spray(SprayPass::Select),
            spray.n as int,
        ),
        runs_levels(
            steps.offset,
            Kernel::Solver(Pass::Prefix),
            Group::Scan(ScanOf::Spray),
            spray.levels.runs@,
        ),
        runs_once(
            steps.place,
            Kernel::Spray(SprayPass::Place),
            Group::Spray(SprayPass::Place),
            spray.n as int,
        ),
        runs_once(
            steps.clear,
            Kernel::Spray(SprayPass::Clear),
            Group::Spray(SprayPass::Clear),
            capacity as int,
        ),
        takes_total(steps.total, ScanOf::Spray, spray.n as int),
{
    let k = choose|k: nat| #[trigger] pow2(k) == spray.offsets_size;
    lemma_small_power(k, spray.offsets_size as int);
    lemma_table_is_paired(spray.levels, k, true, align);
    let of = |pass: SprayPass, count: u32| ran(Kernel::Spray(pass), Group::Spray(pass), count);
    let (write, zero) = (
        Command::Write(Buffer::SprayParams),
        Command::Clear(Buffer::Offsets(ScanOf::Spray)),
    );
    let (select, place) = (of(SprayPass::Select, spray.n), of(SprayPass::Place, spray.n));
    let clear = of(SprayPass::Clear, capacity);
    let (kernel, group) = (Kernel::Solver(Pass::Prefix), Group::Scan(ScanOf::Spray));
    let sweep = ran_levels(kernel, group, spray.levels.runs@);
    let total = crate::surface_gpu::totalled(ScanOf::Spray, spray.n);
    lemma_one(write);
    lemma_one(zero);
    lemma_then(seq![write], seq![zero]);
    assert(seq![write] + seq![zero] =~= seq![write, zero]);
    assert(deeds(seq![write, zero]) =~= seq![Deed::Done(write), Deed::Done(zero)]);
    lemma_once(Kernel::Spray(SprayPass::Select), Group::Spray(SprayPass::Select), spray.n);
    lemma_once(Kernel::Spray(SprayPass::Place), Group::Spray(SprayPass::Place), spray.n);
    lemma_once(Kernel::Spray(SprayPass::Clear), Group::Spray(SprayPass::Clear), capacity);
    lemma_levels(kernel, group, spray.levels.runs@);
    lemma_totalled(ScanOf::Spray, spray.n);
    lemma_then(select, sweep);
    lemma_then(select + sweep, place);
    lemma_then(select + sweep + place, clear);
    let tail = select + sweep + place + clear;
    lemma_passed(tail);
    lemma_then(seq![write, zero], passed(tail));
    lemma_then(seq![write, zero] + passed(tail), total);
    SpraySteps {
        select: deeds(select),
        offset: deeds(sweep),
        place: deeds(place),
        clear: deeds(clear),
        total: deeds(total),
    }
}

/// Buffers made for a fluid have its sizes: a slot for each particle, and at least
/// one; as many neighbour slots as they are given; the fluid's own cells along x, y
/// and z; and reductions over the least power of two that holds the particles, and
/// at least two.
pub proof fn lemma_buffers_fit_the_fluid(b: Buffers, fluid: Fluid, capacity: int)
    requires
        b.made_for(fluid, capacity),
    ensures
        b.n == if fluid.count == 0 {
            1
        } else {
            fluid.count as int
        },
        b.capacity == capacity,
        b.dims_x == fluid.grid.cols,
        b.dims_y == fluid.grid.rows,
        b.dims_z == fluid.grid.layers,
        b.cells == fluid.grid.cols * (fluid.grid.rows * fluid.grid.layers),
        exists|k: nat| #[trigger] pow2(k) == b.reduce_size,
        b.reduce_size >= 2,
        b.reduce_size >= fluid.count,
        fluid.count > 2 ==> b.reduce_size < 2 * fluid.count,
        fluid.count <= 2 ==> b.reduce_size < 4,
{
}

/// After an upload the device holds the fluid's particles as new: nothing has been
/// stepped, no neighbourhood seen, and of the pushes just those queued for these
/// particles stay, in their order. Buffers of the right length stay as they are;
/// others are made for the fluid, and the revision moves on.
pub proof fn lemma_upload_takes_over(before: GpuFluid, fluid: Fluid, then: GpuFluid)
    requires
        before.uploads(fluid, then),
    ensures
        then.generation == fluid.generation,
        !then.stepped,
        then.max_neighbors == 0,
        then.align == before.align,
        then.since_renumber == before.since_renumber,
        then.impulses@ == before.impulses@.filter(
            |push: crate::gpu_fluid::Push| push.generation == fluid.generation,
        ),
        then.buffers.capacity == before.buffers.capacity,
        then.buffers.n == if fluid.count == 0 {
            1
        } else {
            fluid.count as int
        },
        then.buffers.n == before.buffers.n ==> then.buffers == before.buffers && then.revision
            == before.revision,
        then.buffers.n != before.buffers.n ==> {
            &&& then.revision == before.revision + 1
            &&& then.buffers.dims_x == fluid.grid.cols
            &&& then.buffers.dims_y == fluid.grid.rows
            &&& then.buffers.dims_z == fluid.grid.layers
            &&& then.buffers.reduce_size >= fluid.count
        },
{
    lemma_played_in_order(before.impulses@, fluid.generation);
}

} // verus!
