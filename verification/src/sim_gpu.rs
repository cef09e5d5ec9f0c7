//! The passes of the solver on a compute device, and which buffer each of them
//! binds where.
use vstd::prelude::*;
use crate::gpu::{Binding, Buffer, GridOf, ScanOf};

verus! {

/// Bytes of the solver's parameters.
pub const PARAM_BYTES: u64 = 336;

/// A binding of the solver's shader.
#[derive(Clone, Copy, PartialEq, Eq, Structural, Debug)]
pub enum Slot {
    Params,
    Level,
    Positions,
    Velocities,
    Predicted,
    Lambdas,
    Deltas,
    Boundary,
    Scratch,
    Foam,
    Spray,
    Cells,
    GridCount,
    GridStart,
    GridCursor,
    Sorted,
    Neighbors,
    NeighborCount,
    MaxNeighbors,
    Stats,
    Top,
    Vectors,
    Scalars,
    Gathered,
}

/// The binding number of a slot.
pub open spec fn binding_of(slot: Slot) -> u32 {
    match slot {
        Slot::Params => 0,
        Slot::Level => 1,
        Slot::Positions => 2,
        Slot::Velocities => 4,
        Slot::Predicted => 5,
        Slot::Lambdas => 6,
        Slot::Deltas => 7,
        Slot::Boundary => 8,
        Slot::Scratch => 9,
        Slot::Foam => 10,
        Slot::Spray => 11,
        Slot::Cells => 12,
        Slot::GridCount => 13,
        Slot::GridStart => 14,
        Slot::GridCursor => 15,
        Slot::Sorted => 16,
        Slot::Neighbors => 17,
        Slot::NeighborCount => 18,
        Slot::MaxNeighbors => 19,
        Slot::Stats => 20,
        Slot::Top => 21,
        Slot::Vectors => 23,
        Slot::Scalars => 24,
        Slot::Gathered => 25,
    }
}

/// What a slot binds: the parameters and the sweep levels are uniforms, the
/// levels at a dynamic offset; the rest is storage.
pub open spec fn kind_of(slot: Slot) -> Binding {
    match slot {
        Slot::Params => Binding::Uniform { size: PARAM_BYTES, dynamic: false },
        Slot::Level => Binding::Uniform { size: 16, dynamic: true },
        _ => Binding::Storage,
    }
}

impl Slot {
    /// The slot's binding number.
    pub fn binding(self) -> (b: u32)
        ensures
            b == binding_of(self),
    {
        match self {
            Slot::Params => 0,
            Slot::Level => 1,
            Slot::Positions => 2,
            Slot::Velocities => 4,
            Slot::Predicted => 5,
            Slot::Lambdas => 6,
            Slot::Deltas => 7,
            Slot::Boundary => 8,
            Slot::Scratch => 9,
            Slot::Foam => 10,
            Slot::Spray => 11,
            Slot::Cells => 12,
            Slot::GridCount => 13,
            Slot::GridStart => 14,
            Slot::GridCursor => 15,
            Slot::Sorted => 16,
            Slot::Neighbors => 17,
            Slot::NeighborCount => 18,
            Slot::MaxNeighbors => 19,
            Slot::Stats => 20,
            Slot::Top => 21,
            Slot::Vectors => 23,
            Slot::Scalars => 24,
            Slot::Gathered => 25,
        }
    }

    /// What the slot binds.
    pub fn kind(self) -> (k: Binding)
        ensures
            k == kind_of(self),
    {
        match self {
            Slot::Params => Binding::Uniform { size: PARAM_BYTES, dynamic: false },
            Slot::Level => Binding::Uniform { size: 16, dynamic: true },
            _ => Binding::Storage,
        }
    }
}

/// Different slots have different numbers.
pub proof fn lemma_bindings_differ(a: Slot, b: Slot)
    requires
        binding_of(a) == binding_of(b),
    ensures
        a == b,
{
}

/// A compute pass: one entry point of the shader, and the bindings it touches.
#[derive(Clone, Copy, PartialEq, Eq, Structural, Debug)]
pub enum Pass {
    Impulse,
    Predict,
    Bin,
    Count,
    Prefix,
    Scatter,
    SortCells,
    Neighbors,
    Lambda,
    Delta,
    ApplyDelta,
    Velocity,
    Viscosity,
    Foam,
    MeasureTop,
    Measure,
    Reduce,
    RayHits,
    ReduceNearest,
    GatherVectors,
    GatherScalars,
}

/// The shader function of a pass.
pub open spec fn entry_of(pass: Pass) -> Seq<char> {
    match pass {
        Pass::Impulse => "apply_impulse"@,
        Pass::Predict => "predict"@,
        Pass::Bin => "bin_particles"@,
        Pass::Count => "count_cells"@,
        Pass::Prefix => "prefix_sum"@,
        Pass::Scatter => "scatter_particles"@,
        Pass::SortCells => "sort_cells"@,
        Pass::Neighbors => "find_neighbors"@,
        Pass::Lambda => "solve_lambda"@,
        Pass::Delta => "solve_delta"@,
        Pass::ApplyDelta => "apply_delta"@,
        Pass::Velocity => "update_velocity"@,
        Pass::Viscosity => "apply_viscosity"@,
        Pass::Foam => "update_foam"@,
        Pass::MeasureTop => "measure_top"@,
        Pass::Measure => "measure"@,
        Pass::Reduce => "reduce"@,
        Pass::RayHits => "ray_hits"@,
        Pass::ReduceNearest => "reduce_nearest"@,
        Pass::GatherVectors => "gather_vectors"@,
        Pass::GatherScalars => "gather_scalars"@,
    }
}

/// The slots a pass touches.
pub open spec fn slots_of(pass: Pass) -> Seq<Slot> {
    match pass {
        Pass::Impulse => seq![Slot::Params, Slot::Positions, Slot::Velocities],
        Pass::Predict => seq![Slot::Params, Slot::Positions, Slot::Velocities, Slot::Predicted],
        Pass::Bin => seq![Slot::Params, Slot::Predicted, Slot::Cells],
        Pass::Count => seq![Slot::Params, Slot::Cells, Slot::GridCount],
        Pass::Prefix => seq![Slot::Level, Slot::GridStart],
        Pass::Scatter => seq![Slot::Params, Slot::Cells, Slot::GridCursor, Slot::Sorted],
        Pass::SortCells => seq![Slot::Params, Slot::GridStart, Slot::Sorted],
        Pass::Neighbors => seq![
            Slot::Params,
            Slot::Predicted,
            Slot::GridStart,
            Slot::Sorted,
            Slot::Neighbors,
            Slot::NeighborCount,
            Slot::MaxNeighbors,
        ],
        Pass::Lambda => seq![
            Slot::Params,
            Slot::Predicted,
            Slot::Neighbors,
            Slot::NeighborCount,
            Slot::Lambdas,
            Slot::Boundary,
        ],
        Pass::Delta => seq![
            Slot::Params,
            Slot::Predicted,
            Slot::Neighbors,
            Slot::NeighborCount,
            Slot::Lambdas,
            Slot::Boundary,
            Slot::Deltas,
        ],
        Pass::ApplyDelta => seq![Slot::Params, Slot::Predicted, Slot::Deltas],
        Pass::Velocity => seq![Slot::Params, Slot::Predicted, Slot::Positions, Slot::Velocities],
        Pass::Viscosity => seq![
            Slot::Params,
            Slot::Positions,
            Slot::Velocities,
            Slot::Neighbors,
            Slot::NeighborCount,
            Slot::Scratch,
        ],
        Pass::Foam => seq![
            Slot::Params,
            Slot::Positions,
            Slot::Velocities,
            Slot::Neighbors,
            Slot::NeighborCount,
            Slot::Foam,
            Slot::Spray,
        ],
        Pass::MeasureTop => seq![Slot::Params, Slot::Positions, Slot::Stats],
        Pass::Measure => seq![
            Slot::Params,
            Slot::Positions,
            Slot::Velocities,
            Slot::Neighbors,
            Slot::NeighborCount,
            Slot::Boundary,
            Slot::Stats,
            Slot::Top,
        ],
        Pass::Reduce | Pass::ReduceNearest => seq![Slot::Level, Slot::Stats],
        Pass::RayHits => seq![Slot::Params, Slot::Positions, Slot::Stats],
        Pass::GatherVectors => seq![Slot::Params, Slot::Sorted, Slot::Vectors, Slot::Scratch],
        Pass::GatherScalars => seq![Slot::Params, Slot::Sorted, Slot::Scalars, Slot::Gathered],
    }
}

/// The passes that sort positions into a grid, bound per grid.
pub open spec fn sorts(pass: Pass) -> bool {
    pass is Bin || pass is Count || pass is Prefix || pass is Scatter || pass is SortCells
}

/// The passes that renumber a buffer, bound once per buffer.
pub open spec fn gathers(pass: Pass) -> bool {
    pass is GatherVectors || pass is GatherScalars
}

/// The passes that go through the levels of a sweep.
pub open spec fn sweeps(pass: Pass) -> bool {
    pass is Prefix || pass is Reduce || pass is ReduceNearest
}

/// Every pass, in the order that kernels are numbered.
pub open spec fn every_pass() -> Seq<Pass> {
    seq![
        Pass::Impulse,
        Pass::Predict,
        Pass::Bin,
        Pass::Count,
        Pass::Prefix,
        Pass::Scatter,
        Pass::SortCells,
        Pass::Neighbors,
        Pass::Lambda,
        Pass::Delta,
        Pass::ApplyDelta,
        Pass::Velocity,
        Pass::Viscosity,
        Pass::Foam,
        Pass::MeasureTop,
        Pass::Measure,
        Pass::Reduce,
        Pass::RayHits,
        Pass::ReduceNearest,
        Pass::GatherVectors,
        Pass::GatherScalars,
    ]
}

impl Pass {
    /// Every pass, in order.
    pub fn all() -> (passes: [Pass; 21])
        ensures
            passes@ == every_pass(),
            forall|p: Pass| #[trigger] passes@.contains(p),
            passes@.no_duplicates(),
    {
        let passes = [
            Pass::Impulse,
            Pass::Predict,
            Pass::Bin,
            Pass::Count,
            Pass::Prefix,
            Pass::Scatter,
            Pass::SortCells,
            Pass::Neighbors,
            Pass::Lambda,
            Pass::Delta,
            Pass::ApplyDelta,
            Pass::Velocity,
            Pass::Viscosity,
            Pass::Foam,
            Pass::MeasureTop,
            Pass::Measure,
            Pass::Reduce,
            Pass::RayHits,
            Pass::ReduceNearest,
            Pass::GatherVectors,
            Pass::GatherScalars,
        ];
        proof {
            let s = passes@;
            assert(s =~= every_pass());
            assert(s[0] is Impulse && s[1] is Predict && s[2] is Bin && s[3] is Count && s[4]
                is Prefix && s[5] is Scatter && s[6] is SortCells && s[7] is Neighbors && s[8]
                is Lambda && s[9] is Delta && s[10] is ApplyDelta && s[11] is Velocity && s[12]
                is Viscosity && s[13] is Foam && s[14] is MeasureTop && s[15] is Measure && s[16]
                is Reduce && s[17] is RayHits && s[18] is ReduceNearest && s[19] is GatherVectors
                && s[20] is GatherScalars);
        }
        passes
    }

    /// The passes that sort positions into a grid, in the order they run.
    pub fn grid() -> (passes: [Pass; 5])
        ensures
            passes@ == seq![Pass::Bin, Pass::Count, Pass::Prefix, Pass::Scatter, Pass::SortCells],
            forall|p: Pass| #[trigger] passes@.contains(p) <==> sorts(p),
    {
        let passes = [Pass::Bin, Pass::Count, Pass::Prefix, Pass::Scatter, Pass::SortCells];
        proof {
            let s = passes@;
            assert(s =~= seq![
                Pass::Bin,
                Pass::Count,
                Pass::Prefix,
                Pass::Scatter,
                Pass::SortCells,
            ]);
            assert(s[0] is Bin && s[1] is Count && s[2] is Prefix && s[3] is Scatter && s[4]
                is SortCells);
        }
        passes
    }

    /// The shader function of this pass.
    pub fn entry(self) -> (name: &'static str)
        ensures
            name@ == entry_of(self),
    {
        match self {
            Pass::Impulse => "apply_impulse",
            Pass::Predict => "predict",
            Pass::Bin => "bin_particles",
            Pass::Count => "count_cells",
            Pass::Prefix => "prefix_sum",
            Pass::Scatter => "scatter_particles",
            Pass::SortCells => "sort_cells",
            Pass::Neighbors => "find_neighbors",
            Pass::Lambda => "solve_lambda",
            Pass::Delta => "solve_delta",
            Pass::ApplyDelta => "apply_delta",
            Pass::Velocity => "update_velocity",
            Pass::Viscosity => "apply_viscosity",
            Pass::Foam => "update_foam",
            Pass::MeasureTop => "measure_top",
            Pass::Measure => "measure",
            Pass::Reduce => "reduce",
            Pass::RayHits => "ray_hits",
            Pass::ReduceNearest => "reduce_nearest",
            Pass::GatherVectors => "gather_vectors",
            Pass::GatherScalars => "gather_scalars",
        }
    }

    /// The slots this pass touches.
    pub fn slots(self) -> (slots: Vec<Slot>)
        ensures
            slots@ == slots_of(self),
    {
        let slots: Vec<Slot> = match self {
            Pass::Impulse => vec![Slot::Params, Slot::Positions, Slot::Velocities],
            Pass::Predict => vec![
                Slot::Params,
                Slot::Positions,
                Slot::Velocities,
                Slot::Predicted,
            ],
            Pass::Bin => vec![Slot::Params, Slot::Predicted, Slot::Cells],
            Pass::Count => vec![Slot::Params, Slot::Cells, Slot::GridCount],
            Pass::Prefix => vec![Slot::Level, Slot::GridStart],
            Pass::Scatter => vec![Slot::Params, Slot::Cells, Slot::GridCursor, Slot::Sorted],
            Pass::SortCells => vec![Slot::Params, Slot::GridStart, Slot::Sorted],
            Pass::Neighbors => vec![
                Slot::Params,
                Slot::Predicted,
                Slot::GridStart,
                Slot::Sorted,
                Slot::Neighbors,
                Slot::NeighborCount,
                Slot::MaxNeighbors,
            ],
            Pass::Lambda => vec![
                Slot::Params,
                Slot::Predicted,
                Slot::Neighbors,
                Slot::NeighborCount,
                Slot::Lambdas,
                Slot::Boundary,
            ],
            Pass::Delta => vec![
                Slot::Params,
                Slot::Predicted,
                Slot::Neighbors,
                Slot::NeighborCount,
                Slot::Lambdas,
                Slot::Boundary,
                Slot::Deltas,
            ],
            Pass::ApplyDelta => vec![Slot::Params, Slot::Predicted, Slot::Deltas],
            Pass::Velocity => vec![
                Slot::Params,
                Slot::Predicted,
                Slot::Positions,
                Slot::Velocities,
            ],
            Pass::Viscosity => vec![
                Slot::Params,
                Slot::Positions,
                Slot::Velocities,
                Slot::Neighbors,
                Slot::NeighborCount,
                Slot::Scratch,
            ],
            Pass::Foam => vec![
                Slot::Params,
                Slot::Positions,
                Slot::Velocities,
                Slot::Neighbors,
                Slot::NeighborCount,
                Slot::Foam,
                Slot::Spray,
            ],
            Pass::MeasureTop => vec![Slot::Params, Slot::Positions, Slot::Stats],
            Pass::Measure => vec![
                Slot::Params,
                Slot::Positions,
                Slot::Velocities,
                Slot::Neighbors,
                Slot::NeighborCount,
                Slot::Boundary,
                Slot::Stats,
                Slot::Top,
            ],
            Pass::Reduce | Pass::ReduceNearest => vec![Slot::Level, Slot::Stats],
            Pass::RayHits => vec![Slot::Params, Slot::Positions, Slot::Stats],
            Pass::GatherVectors => vec![
                Slot::Params,
                Slot::Sorted,
                Slot::Vectors,
                Slot::Scratch,
            ],
            Pass::GatherScalars => vec![
                Slot::Params,
                Slot::Sorted,
                Slot::Scalars,
                Slot::Gathered,
            ],
        };
        assert(slots@ =~= slots_of(self));
        slots
    }

    /// What the pass binds at each binding number.
    pub fn bindings(self) -> (bindings: Vec<(u32, Binding)>)
        ensures
            bindings@.len() == slots_of(self).len(),
            forall|k: int|
                0 <= k < bindings@.len() ==> #[trigger] bindings@[k] == (
                    binding_of(slots_of(self)[k]),
                    kind_of(slots_of(self)[k]),
                ),
    {
        let slots: Vec<Slot> = self.slots();
        let mut bindings: Vec<(u32, Binding)> = Vec::new();
        let mut k: usize = 0;
        while k < slots.len()
            invariant
                k <= slots@.len(),
                slots@ == slots_of(self),
                bindings@.len() == k,
                forall|m: int|
                    0 <= m < k ==> #[trigger] bindings@[m] == (
                        binding_of(slots_of(self)[m]),
                        kind_of(slots_of(self)[m]),
                    ),
            decreases slots@.len() - k,
        {
            let slot: Slot = slots[k];
            bindings.push((slot.binding(), slot.kind()));
            k += 1;
        }
        bindings
    }
}

/// No pass binds a slot twice, and the passes that sweep are the ones that bind
/// a level.
pub proof fn lemma_slots_once(pass: Pass)
    ensures
        slots_of(pass).no_duplicates(),
        sweeps(pass) <==> slots_of(pass).contains(Slot::Level),
        !sweeps(pass) ==> slots_of(pass).contains(Slot::Params),
{
    assert(slots_of(pass)[0] == (if sweeps(pass) {
        Slot::Level
    } else {
        Slot::Params
    }));
}

/// The solver's buffer for a slot.
pub open spec fn solver_buffer(slot: Slot) -> Buffer {
    match slot {
        Slot::Params => Buffer::Params,
        Slot::Level => Buffer::ReduceLevels,
        Slot::Positions => Buffer::Positions,
        Slot::Velocities => Buffer::Velocities,
        Slot::Predicted => Buffer::Predicted,
        Slot::Lambdas => Buffer::Lambdas,
        Slot::Deltas => Buffer::Deltas,
        Slot::Boundary => Buffer::Boundary,
        Slot::Scratch => Buffer::Scratch,
        Slot::Foam => Buffer::Foam,
        Slot::Spray => Buffer::Spray,
        Slot::GridStart => Buffer::Starts(GridOf::Solver),
        Slot::Neighbors => Buffer::Neighbors,
        Slot::NeighborCount => Buffer::NeighborCount,
        Slot::MaxNeighbors => Buffer::MaxNeighbors,
        Slot::Stats => Buffer::Stats,
        Slot::Top => Buffer::Top,
        Slot::Gathered => Buffer::Gathered,
        _ => Buffer::Sorted(GridOf::Solver),
    }
}

/// Slots that the solver itself has a buffer for; the others are a grid's, or
/// differ with the buffer that is renumbered.
pub open spec fn solver_has(slot: Slot) -> bool {
    !(slot is Cells || slot is GridCount || slot is GridCursor || slot is Vectors || slot
        is Scalars)
}

/// A grid's buffer for a slot, over the positions in `positions`.
pub open spec fn grid_buffer(grid: GridOf, positions: Buffer, slot: Slot) -> Buffer {
    match slot {
        Slot::Params => Buffer::GridParams(grid),
        Slot::Level => Buffer::GridLevels(grid),
        Slot::Predicted => positions,
        Slot::Cells => Buffer::CellsOf(grid),
        Slot::GridCount | Slot::GridStart => Buffer::Starts(grid),
        Slot::GridCursor => Buffer::Cursor(grid),
        _ => Buffer::Sorted(grid),
    }
}

/// Slots that a grid binds.
pub open spec fn grid_has(slot: Slot) -> bool {
    slot is Params || slot is Level || slot is Predicted || slot is Cells || slot is GridCount
        || slot is GridStart || slot is GridCursor || slot is Sorted
}

/// Every slot that the solver binds itself is one it has a buffer for, and every
/// slot of a grid's pass is one of the grid's.
pub proof fn lemma_slots_are_bound(pass: Pass, k: int)
    requires
        0 <= k < slots_of(pass).len(),
    ensures
        !sorts(pass) && !gathers(pass) ==> solver_has(slots_of(pass)[k]),
        sorts(pass) ==> grid_has(slots_of(pass)[k]),
        gathers(pass) ==> solver_has(slots_of(pass)[k]) || slots_of(pass)[k] is Vectors
            || slots_of(pass)[k] is Scalars,
{
}

fn solver_slot(slot: Slot) -> (buffer: Buffer)
    requires
        solver_has(slot),
    ensures
        buffer == solver_buffer(slot),
{
    match slot {
        Slot::Params => Buffer::Params,
        Slot::Level => Buffer::ReduceLevels,
        Slot::Positions => Buffer::Positions,
        Slot::Velocities => Buffer::Velocities,
        Slot::Predicted => Buffer::Predicted,
        Slot::Lambdas => Buffer::Lambdas,
        Slot::Deltas => Buffer::Deltas,
        Slot::Boundary => Buffer::Boundary,
        Slot::Scratch => Buffer::Scratch,
        Slot::Foam => Buffer::Foam,
        Slot::Spray => Buffer::Spray,
        Slot::GridStart => Buffer::Starts(GridOf::Solver),
        Slot::Neighbors => Buffer::Neighbors,
        Slot::NeighborCount => Buffer::NeighborCount,
        Slot::MaxNeighbors => Buffer::MaxNeighbors,
        Slot::Stats => Buffer::Stats,
        Slot::Top => Buffer::Top,
        Slot::Gathered => Buffer::Gathered,
        _ => Buffer::Sorted(GridOf::Solver),
    }
}

fn grid_slot(grid: GridOf, positions: Buffer, slot: Slot) -> (buffer: Buffer)
    ensures
        buffer == grid_buffer(grid, positions, slot),
{
    match slot {
        Slot::Params => Buffer::GridParams(grid),
        Slot::Level => Buffer::GridLevels(grid),
        Slot::Predicted => positions,
        Slot::Cells => Buffer::CellsOf(grid),
        Slot::GridCount | Slot::GridStart => Buffer::Starts(grid),
        Slot::GridCursor => Buffer::Cursor(grid),
        _ => Buffer::Sorted(grid),
    }
}

/// A bind group for `pass`, taking each of its slots from `resource`.
pub fn bind<F: Fn(Slot) -> Buffer>(pass: Pass, resource: F) -> (entries: Vec<(u32, Buffer)>)
    requires
        forall|k: int|
            0 <= k < slots_of(pass).len() ==> call_requires(
                resource,
                (#[trigger] slots_of(pass)[k],),
            ),
    ensures
        entries@.len() == slots_of(pass).len(),
        forall|k: int|
            0 <= k < entries@.len() ==> (#[trigger] entries@[k]).0 == binding_of(slots_of(pass)[k])
                && call_ensures(resource, (slots_of(pass)[k],), entries@[k].1),
{
    let slots: Vec<Slot> = pass.slots();
    let mut entries: Vec<(u32, Buffer)> = Vec::new();
    let mut k: usize = 0;
    while k < slots.len()
        invariant
            k <= slots@.len(),
            slots@ == slots_of(pass),
            forall|k: int|
                0 <= k < slots_of(pass).len() ==> call_requires(
                    resource,
                    (#[trigger] slots_of(pass)[k],),
                ),
            entries@.len() == k,
            forall|m: int|
                0 <= m < k ==> (#[trigger] entries@[m]).0 == binding_of(slots_of(pass)[m])
                    && call_ensures(resource, (slots_of(pass)[m],), entries@[m].1),
        decreases slots@.len() - k,
    {
        let slot: Slot = slots[k];
        entries.push((slot.binding(), resource(slot)));
        k += 1;
    }
    entries
}

/// The bind group of a pass over the solver's own buffers, or none for the grid
/// passes, which each grid binds itself, and the gathers, which bind once per
/// buffer they renumber.
pub fn solver_group(pass: Pass) -> (group: Option<Vec<(u32, Buffer)>>)
    ensures
        group is None <==> sorts(pass) || gathers(pass),
        group is None <==> pass is Bin || pass is Count || pass is Prefix || pass is Scatter || pass
            is SortCells || pass is GatherVectors || pass is GatherScalars,
        group is Some ==> group->0@.len() == slots_of(pass).len() && forall|k: int|
            0 <= k < group->0@.len() ==> #[trigger] group->0@[k] == (
                binding_of(slots_of(pass)[k]),
                solver_buffer(slots_of(pass)[k]),
            ),
{
    match pass {
        Pass::Bin
        | Pass::Count
        | Pass::Prefix
        | Pass::Scatter
        | Pass::SortCells
        | Pass::GatherVectors
        | Pass::GatherScalars => None,
        _ => {
            let resource = |slot: Slot| -> (b: Buffer)
                requires
                    solver_has(slot),
                ensures
                    b == solver_buffer(slot),
                { solver_slot(slot) };
            proof {
                assert forall|k: int| 0 <= k < slots_of(pass).len() implies call_requires(
                    resource,
                    (#[trigger] slots_of(pass)[k],),
                ) by {
                    lemma_slots_are_bound(pass, k);
                }
            }
            Some(bind(pass, resource))
        },
    }
}

/// The bind group of a grid's pass over the positions in `positions`.
pub fn grid_group(grid: GridOf, positions: Buffer, pass: Pass) -> (group: Vec<(u32, Buffer)>)
    requires
        sorts(pass),
    ensures
        group@.len() == slots_of(pass).len(),
        forall|k: int|
            0 <= k < group@.len() ==> #[trigger] group@[k] == (
                binding_of(slots_of(pass)[k]),
                grid_buffer(grid, positions, slots_of(pass)[k]),
            ),
{
    let resource = |slot: Slot| -> (b: Buffer)
        ensures
            b == grid_buffer(grid, positions, slot),
        { grid_slot(grid, positions, slot) };
    bind(pass, resource)
}

/// The pass that renumbers a buffer: by vectors or by scalars.
pub open spec fn gather_pass(target: Buffer) -> Pass {
    match target {
        Buffer::Positions | Buffer::Previous | Buffer::Velocities => Pass::GatherVectors,
        _ => Pass::GatherScalars,
    }
}

/// Where the pass that renumbers a buffer writes.
pub open spec fn gather_out(target: Buffer) -> Buffer {
    match gather_pass(target) {
        Pass::GatherVectors => Buffer::Scratch,
        _ => Buffer::Gathered,
    }
}

/// The buffer that a renumbering of `target` binds at a slot.
pub open spec fn gather_buffer(target: Buffer, slot: Slot) -> Buffer {
    if slot is Vectors || slot is Scalars {
        target
    } else {
        solver_buffer(slot)
    }
}

/// The bind group that renumbers `target`.
pub fn gather_group(target: Buffer) -> (group: Vec<(u32, Buffer)>)
    ensures
        group@.len() == slots_of(gather_pass(target)).len(),
        forall|k: int|
            0 <= k < group@.len() ==> #[trigger] group@[k] == (
                binding_of(slots_of(gather_pass(target))[k]),
                gather_buffer(target, slots_of(gather_pass(target))[k]),
            ),
{
    let pass = match target {
        Buffer::Positions | Buffer::Previous | Buffer::Velocities => Pass::GatherVectors,
        _ => Pass::GatherScalars,
    };
    let resource = |slot: Slot| -> (b: Buffer)
        requires
            solver_has(slot) || slot is Vectors || slot is Scalars,
        ensures
            b == gather_buffer(target, slot),
        {
            match slot {
                Slot::Vectors | Slot::Scalars => target,
                _ => solver_slot(slot),
            }
        };
    proof {
        assert forall|k: int| 0 <= k < slots_of(pass).len() implies call_requires(
            resource,
            (#[trigger] slots_of(pass)[k],),
        ) by {
            lemma_slots_are_bound(pass, k);
        }
    }
    bind(pass, resource)
}

/// The buffer that a compaction's prefix sum binds at a slot.
pub open spec fn scan_buffer(scan: ScanOf, slot: Slot) -> Buffer {
    if slot is Level {
        Buffer::ScanLevels(scan)
    } else {
        Buffer::Offsets(scan)
    }
}

/// The bind group of a compaction's prefix sum.
pub fn scan_group(scan: ScanOf) -> (group: Vec<(u32, Buffer)>)
    ensures
        group@.len() == slots_of(Pass::Prefix).len(),
        forall|k: int|
            0 <= k < group@.len() ==> #[trigger] group@[k] == (
                binding_of(slots_of(Pass::Prefix)[k]),
                scan_buffer(scan, slots_of(Pass::Prefix)[k]),
            ),
{
    let resource = |slot: Slot| -> (b: Buffer)
        ensures
            b == scan_buffer(scan, slot),
        {
            match slot {
                Slot::Level => Buffer::ScanLevels(scan),
                _ => Buffer::Offsets(scan),
            }
        };
    bind(Pass::Prefix, resource)
}

} // verus!
