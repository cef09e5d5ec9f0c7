//! Which buffer lies behind each binding, pass by pass.
//!
//! A shader declares its bindings by number. The laws give the whole of every bind
//! group and of every layout: numbers, buffers and kinds.
use vstd::prelude::*;
use crate::gpu::{Binding, Buffer, GridOf, ScanOf, VolumeFormat};
use crate::sim_gpu::{binding_of, entry_of, gather_buffer, gather_pass, grid_buffer, kind_of};
use crate::sim_gpu::{scan_buffer, slots_of, solver_buffer, Pass};
use crate::spray_gpu::{spray_binding, spray_buffer, spray_entry, spray_kind, spray_slots, SprayPass};
use crate::surface_gpu::{
    surface_binding, surface_buffer, surface_entry, surface_kind, surface_slots, SurfacePass,
};

verus! {

/// A bind group: a number and a buffer for each slot.
pub type Bound = Seq<(u32, Buffer)>;

/// A layout: a number and a kind for each slot.
pub type Laid = Seq<(u32, Binding)>;

/// A number, a kind and a buffer for each slot.
pub type Slots = Seq<(u32, Binding, Buffer)>;

/// What each of the solver's own passes binds.
#[verifier::spinoff_prover]
#[verifier::rlimit(40)]
pub proof fn lemma_solver_binds(pass: Pass, group: Bound)
    requires
        group.len() == slots_of(pass).len(),
        forall|k: int|
            0 <= k < group.len() ==> #[trigger] group[k] == (
                binding_of(slots_of(pass)[k]),
                solver_buffer(slots_of(pass)[k]),
            ),
    ensures
        group == match pass {
            Pass::Impulse => seq![
                (0u32, Buffer::Params),
                (2u32, Buffer::Positions),
                (4u32, Buffer::Velocities),
            ],
            Pass::Predict => seq![
                (0u32, Buffer::Params),
                (2u32, Buffer::Positions),
                (4u32, Buffer::Velocities),
                (5u32, Buffer::Predicted),
            ],
            Pass::Neighbors => seq![
                (0u32, Buffer::Params),
                (5u32, Buffer::Predicted),
                (14u32, Buffer::Starts(GridOf::Solver)),
                (16u32, Buffer::Sorted(GridOf::Solver)),
                (17u32, Buffer::Neighbors),
                (18u32, Buffer::NeighborCount),
                (19u32, Buffer::MaxNeighbors),
            ],
            Pass::Lambda => seq![
                (0u32, Buffer::Params),
                (5u32, Buffer::Predicted),
                (17u32, Buffer::Neighbors),
                (18u32, Buffer::NeighborCount),
                (6u32, Buffer::Lambdas),
                (8u32, Buffer::Boundary),
            ],
            Pass::Delta => seq![
                (0u32, Buffer::Params),
                (5u32, Buffer::Predicted),
                (17u32, Buffer::Neighbors),
                (18u32, Buffer::NeighborCount),
                (6u32, Buffer::Lambdas),
                (8u32, Buffer::Boundary),
                (7u32, Buffer::Deltas),
            ],
            Pass::ApplyDelta => seq![
                (0u32, Buffer::Params),
                (5u32, Buffer::Predicted),
                (7u32, Buffer::Deltas),
            ],
            Pass::Velocity => seq![
                (0u32, Buffer::Params),
                (5u32, Buffer::Predicted),
                (2u32, Buffer::Positions),
                (4u32, Buffer::Velocities),
            ],
            Pass::Viscosity => seq![
                (0u32, Buffer::Params),
                (2u32, Buffer::Positions),
                (4u32, Buffer::Velocities),
                (17u32, Buffer::Neighbors),
                (18u32, Buffer::NeighborCount),
                (9u32, Buffer::Scratch),
            ],
            Pass::Foam => seq![
                (0u32, Buffer::Params),
                (2u32, Buffer::Positions),
                (4u32, Buffer::Velocities),
                (17u32, Buffer::Neighbors),
                (18u32, Buffer::NeighborCount),
                (10u32, Buffer::Foam),
                (11u32, Buffer::Spray),
            ],
            Pass::MeasureTop => seq![
                (0u32, Buffer::Params),
                (2u32, Buffer::Positions),
                (20u32, Buffer::Stats),
            ],
            Pass::Measure => seq![
                (0u32, Buffer::Params),
                (2u32, Buffer::Positions),
                (4u32, Buffer::Velocities),
                (17u32, Buffer::Neighbors),
                (18u32, Buffer::NeighborCount),
                (8u32, Buffer::Boundary),
                (20u32, Buffer::Stats),
                (21u32, Buffer::Top),
            ],
            Pass::Reduce => seq![(1u32, Buffer::ReduceLevels), (20u32, Buffer::Stats)],
            Pass::ReduceNearest => seq![(1u32, Buffer::ReduceLevels), (20u32, Buffer::Stats)],
            Pass::RayHits => seq![
                (0u32, Buffer::Params),
                (2u32, Buffer::Positions),
                (20u32, Buffer::Stats),
            ],
            _ => group,
        },
{
    assert(group =~= match pass {
            Pass::Impulse => seq![
                (0u32, Buffer::Params),
                (2u32, Buffer::Positions),
                (4u32, Buffer::Velocities),
            ],
            Pass::Predict => seq![
                (0u32, Buffer::Params),
                (2u32, Buffer::Positions),
                (4u32, Buffer::Velocities),
                (5u32, Buffer::Predicted),
            ],
            Pass::Neighbors => seq![
                (0u32, Buffer::Params),
                (5u32, Buffer::Predicted),
                (14u32, Buffer::Starts(GridOf::Solver)),
                (16u32, Buffer::Sorted(GridOf::Solver)),
                (17u32, Buffer::Neighbors),
                (18u32, Buffer::NeighborCount),
                (19u32, Buffer::MaxNeighbors),
            ],
            Pass::Lambda => seq![
                (0u32, Buffer::Params),
                (5u32, Buffer::Predicted),
                (17u32, Buffer::Neighbors),
                (18u32, Buffer::NeighborCount),
                (6u32, Buffer::Lambdas),
                (8u32, Buffer::Boundary),
            ],
            Pass::Delta => seq![
                (0u32, Buffer::Params),
                (5u32, Buffer::Predicted),
                (17u32, Buffer::Neighbors),
                (18u32, Buffer::NeighborCount),
                (6u32, Buffer::Lambdas),
                (8u32, Buffer::Boundary),
                (7u32, Buffer::Deltas),
            ],
            Pass::ApplyDelta => seq![
                (0u32, Buffer::Params),
                (5u32, Buffer::Predicted),
                (7u32, Buffer::Deltas),
            ],
            Pass::Velocity => seq![
                (0u32, Buffer::Params),
                (5u32, Buffer::Predicted),
                (2u32, Buffer::Positions),
                (4u32, Buffer::Velocities),
            ],
            Pass::Viscosity => seq![
                (0u32, Buffer::Params),
                (2u32, Buffer::Positions),
                (4u32, Buffer::Velocities),
                (17u32, Buffer::Neighbors),
                (18u32, Buffer::NeighborCount),
                (9u32, Buffer::Scratch),
            ],
            Pass::Foam => seq![
                (0u32, Buffer::Params),
                (2u32, Buffer::Positions),
                (4u32, Buffer::Velocities),
                (17u32, Buffer::Neighbors),
                (18u32, Buffer::NeighborCount),
                (10u32, Buffer::Foam),
                (11u32, Buffer::Spray),
            ],
            Pass::MeasureTop => seq![
                (0u32, Buffer::Params),
                (2u32, Buffer::Positions),
                (20u32, Buffer::Stats),
            ],
            Pass::Measure => seq![
                (0u32, Buffer::Params),
                (2u32, Buffer::Positions),
                (4u32, Buffer::Velocities),
                (17u32, Buffer::Neighbors),
                (18u32, Buffer::NeighborCount),
                (8u32, Buffer::Boundary),
                (20u32, Buffer::Stats),
                (21u32, Buffer::Top),
            ],
            Pass::Reduce => seq![(1u32, Buffer::ReduceLevels), (20u32, Buffer::Stats)],
            Pass::ReduceNearest => seq![(1u32, Buffer::ReduceLevels), (20u32, Buffer::Stats)],
            Pass::RayHits => seq![
                (0u32, Buffer::Params),
                (2u32, Buffer::Positions),
                (20u32, Buffer::Stats),
            ],
            _ => group,
    });
}

/// What each pass of a grid's rebuild binds, over the positions it sorts.
pub proof fn lemma_grid_binds(grid: GridOf, positions: Buffer, pass: Pass, group: Bound)
    requires
        group.len() == slots_of(pass).len(),
        forall|k: int|
            0 <= k < group.len() ==> #[trigger] group[k] == (
                binding_of(slots_of(pass)[k]),
                grid_buffer(grid, positions, slots_of(pass)[k]),
            ),
    ensures
        group == match pass {
            Pass::Bin => seq![
                (0u32, Buffer::GridParams(grid)),
                (5u32, positions),
                (12u32, Buffer::CellsOf(grid)),
            ],
            Pass::Count => seq![
                (0u32, Buffer::GridParams(grid)),
                (12u32, Buffer::CellsOf(grid)),
                (13u32, Buffer::Starts(grid)),
            ],
            Pass::Prefix => seq![
                (1u32, Buffer::GridLevels(grid)),
                (14u32, Buffer::Starts(grid)),
            ],
            Pass::Scatter => seq![
                (0u32, Buffer::GridParams(grid)),
                (12u32, Buffer::CellsOf(grid)),
                (15u32, Buffer::Cursor(grid)),
                (16u32, Buffer::Sorted(grid)),
            ],
            Pass::SortCells => seq![
                (0u32, Buffer::GridParams(grid)),
                (14u32, Buffer::Starts(grid)),
                (16u32, Buffer::Sorted(grid)),
            ],
            _ => group,
        },
{
    assert(group =~= match pass {
            Pass::Bin => seq![
                (0u32, Buffer::GridParams(grid)),
                (5u32, positions),
                (12u32, Buffer::CellsOf(grid)),
            ],
            Pass::Count => seq![
                (0u32, Buffer::GridParams(grid)),
                (12u32, Buffer::CellsOf(grid)),
                (13u32, Buffer::Starts(grid)),
            ],
            Pass::Prefix => seq![
                (1u32, Buffer::GridLevels(grid)),
                (14u32, Buffer::Starts(grid)),
            ],
            Pass::Scatter => seq![
                (0u32, Buffer::GridParams(grid)),
                (12u32, Buffer::CellsOf(grid)),
                (15u32, Buffer::Cursor(grid)),
                (16u32, Buffer::Sorted(grid)),
            ],
            Pass::SortCells => seq![
                (0u32, Buffer::GridParams(grid)),
                (14u32, Buffer::Starts(grid)),
                (16u32, Buffer::Sorted(grid)),
            ],
            _ => group,
    });
}

/// What the renumbering of a buffer binds: the vectors go through the scratch
/// buffer, and the scalars through their own.
pub proof fn lemma_gather_binds(target: Buffer, group: Bound)
    requires
        group.len() == slots_of(gather_pass(target)).len(),
        forall|k: int|
            0 <= k < group.len() ==> #[trigger] group[k] == (
                binding_of(slots_of(gather_pass(target))[k]),
                gather_buffer(target, slots_of(gather_pass(target))[k]),
            ),
    ensures
        target is Positions || target is Previous || target is Velocities ==> group == seq![
            (0u32, Buffer::Params),
            (16u32, Buffer::Sorted(GridOf::Solver)),
            (23u32, target),
            (9u32, Buffer::Scratch),
        ],
        target is Foam || target is Spray || target is Ids ==> group == seq![
            (0u32, Buffer::Params),
            (16u32, Buffer::Sorted(GridOf::Solver)),
            (24u32, target),
            (25u32, Buffer::Gathered),
        ],
{
    if target is Positions || target is Previous || target is Velocities {
        assert(group =~= seq![
            (0u32, Buffer::Params),
            (16u32, Buffer::Sorted(GridOf::Solver)),
            (23u32, target),
            (9u32, Buffer::Scratch),
        ]);
    } else {
        assert(group =~= seq![
            (0u32, Buffer::Params),
            (16u32, Buffer::Sorted(GridOf::Solver)),
            (24u32, target),
            (25u32, Buffer::Gathered),
        ]);
    }
}

/// What a compaction's prefix sum binds.
pub proof fn lemma_scan_binds(scan: ScanOf, group: Bound)
    requires
        group.len() == slots_of(Pass::Prefix).len(),
        forall|k: int|
            0 <= k < group.len() ==> #[trigger] group[k] == (
                binding_of(slots_of(Pass::Prefix)[k]),
                scan_buffer(scan, slots_of(Pass::Prefix)[k]),
            ),
    ensures
        group == seq![(1u32, Buffer::ScanLevels(scan)), (14u32, Buffer::Offsets(scan))],
{
    assert(group =~= seq![(1u32, Buffer::ScanLevels(scan)), (14u32, Buffer::Offsets(scan))]);
}

/// The layout and the shader function of each of the solver's passes.
#[verifier::spinoff_prover]
#[verifier::rlimit(60)]
pub proof fn lemma_solver_layouts(pass: Pass, laid: Laid)
    requires
        laid.len() == slots_of(pass).len(),
        forall|k: int|
            0 <= k < laid.len() ==> #[trigger] laid[k] == (
                binding_of(slots_of(pass)[k]),
                kind_of(slots_of(pass)[k]),
            ),
    ensures
        laid == match pass {
            Pass::Impulse => seq![
                (0u32, Binding::Uniform { size: 336, dynamic: false }),
                (2u32, Binding::Storage),
                (4u32, Binding::Storage),
            ],
            Pass::Predict => seq![
                (0u32, Binding::Uniform { size: 336, dynamic: false }),
                (2u32, Binding::Storage),
                (4u32, Binding::Storage),
                (5u32, Binding::Storage),
            ],
            Pass::Bin => seq![
                (0u32, Binding::Uniform { size: 336, dynamic: false }),
                (5u32, Binding::Storage),
                (12u32, Binding::Storage),
            ],
            Pass::Count => seq![
                (0u32, Binding::Uniform { size: 336, dynamic: false }),
                (12u32, Binding::Storage),
                (13u32, Binding::Storage),
            ],
            Pass::Prefix => seq![
                (1u32, Binding::Uniform { size: 16, dynamic: true }),
                (14u32, Binding::Storage),
            ],
            Pass::Scatter => seq![
                (0u32, Binding::Uniform { size: 336, dynamic: false }),
                (12u32, Binding::Storage),
                (15u32, Binding::Storage),
                (16u32, Binding::Storage),
            ],
            Pass::SortCells => seq![
                (0u32, Binding::Uniform { size: 336, dynamic: false }),
                (14u32, Binding::Storage),
                (16u32, Binding::Storage),
            ],
            Pass::Neighbors => seq![
                (0u32, Binding::Uniform { size: 336, dynamic: false }),
                (5u32, Binding::Storage),
                (14u32, Binding::Storage),
                (16u32, Binding::Storage),
                (17u32, Binding::Storage),
                (18u32, Binding::Storage),
                (19u32, Binding::Storage),
            ],
            Pass::Lambda => seq![
                (0u32, Binding::Uniform { size: 336, dynamic: false }),
                (5u32, Binding::Storage),
                (17u32, Binding::Storage),
                (18u32, Binding::Storage),
                (6u32, Binding::Storage),
                (8u32, Binding::Storage),
            ],
            Pass::Delta => seq![
                (0u32, Binding::Uniform { size: 336, dynamic: false }),
                (5u32, Binding::Storage),
                (17u32, Binding::Storage),
                (18u32, Binding::Storage),
                (6u32, Binding::Storage),
                (8u32, Binding::Storage),
                (7u32, Binding::Storage),
            ],
            Pass::ApplyDelta => seq![
                (0u32, Binding::Uniform { size: 336, dynamic: false }),
                (5u32, Binding::Storage),
                (7u32, Binding::Storage),
            ],
            Pass::Velocity => seq![
                (0u32, Binding::Uniform { size: 336, dynamic: false }),
                (5u32, Binding::Storage),
                (2u32, Binding::Storage),
                (4u32, Binding::Storage),
            ],
            Pass::Viscosity => seq![
                (0u32, Binding::Uniform { size: 336, dynamic: false }),
                (2u32, Binding::Storage),
                (4u32, Binding::Storage),
                (17u32, Binding::Storage),
                (18u32, Binding::Storage),
                (9u32, Binding::Storage),
            ],
            Pass::Foam => seq![
                (0u32, Binding::Uniform { size: 336, dynamic: false }),
                (2u32, Binding::Storage),
                (4u32, Binding::Storage),
                (17u32, Binding::Storage),
                (18u32, Binding::Storage),
                (10u32, Binding::Storage),
                (11u32, Binding::Storage),
            ],
            Pass::MeasureTop => seq![
                (0u32, Binding::Uniform { size: 336, dynamic: false }),
                (2u32, Binding::Storage),
                (20u32, Binding::Storage),
            ],
            Pass::Measure => seq![
                (0u32, Binding::Uniform { size: 336, dynamic: false }),
                (2u32, Binding::Storage),
                (4u32, Binding::Storage),
                (17u32, Binding::Storage),
                (18u32, Binding::Storage),
                (8u32, Binding::Storage),
                (20u32, Binding::Storage),
                (21u32, Binding::Storage),
            ],
            Pass::Reduce => seq![
                (1u32, Binding::Uniform { size: 16, dynamic: true }),
                (20u32, Binding::Storage),
            ],
            Pass::ReduceNearest => seq![
                (1u32, Binding::Uniform { size: 16, dynamic: true }),
                (20u32, Binding::Storage),
            ],
            Pass::RayHits => seq![
                (0u32, Binding::Uniform { size: 336, dynamic: false }),
                (2u32, Binding::Storage),
                (20u32, Binding::Storage),
            ],
            Pass::GatherVectors => seq![
                (0u32, Binding::Uniform { size: 336, dynamic: false }),
                (16u32, Binding::Storage),
                (23u32, Binding::Storage),
                (9u32, Binding::Storage),
            ],
            Pass::GatherScalars => seq![
                (0u32, Binding::Uniform { size: 336, dynamic: false }),
                (16u32, Binding::Storage),
                (24u32, Binding::Storage),
                (25u32, Binding::Storage),
            ],
        },
        entry_of(pass) == match pass {
            Pass::Impulse => "apply_impulse"@,
            Pass::Predict => "predict"@,
            Pass::Bin => "bin_particles"@,
            Pass::Count => "count_cells"@,
            Pass::Prefix => "prefix_sum"@,
            Pass::Scatter => "scatter_particles"@,
            Pass::SortCells => "sort_cells"@,
            Pass::Neighbors => "find_neighbors"@,
            Pass::Lambda => "solve_lambda"@,
            Pass::Delta => "solve_delta"@,
            Pass::ApplyDelta => "apply_delta"@,
            Pass::Velocity => "update_velocity"@,
            Pass::Viscosity => "apply_viscosity"@,
            Pass::Foam => "update_foam"@,
            Pass::MeasureTop => "measure_top"@,
            Pass::Measure => "measure"@,
            Pass::Reduce => "reduce"@,
            Pass::RayHits => "ray_hits"@,
            Pass::ReduceNearest => "reduce_nearest"@,
            Pass::GatherVectors => "gather_vectors"@,
            Pass::GatherScalars => "gather_scalars"@,
        },
{
    assert(laid =~= match pass {
            Pass::Impulse => seq![
                (0u32, Binding::Uniform { size: 336, dynamic: false }),
                (2u32, Binding::Storage),
                (4u32, Binding::Storage),
            ],
            Pass::Predict => seq![
                (0u32, Binding::Uniform { size: 336, dynamic: false }),
                (2u32, Binding::Storage),
                (4u32, Binding::Storage),
                (5u32, Binding::Storage),
            ],
            Pass::Bin => seq![
                (0u32, Binding::Uniform { size: 336, dynamic: false }),
                (5u32, Binding::Storage),
                (12u32, Binding::Storage),
            ],
            Pass::Count => seq![
                (0u32, Binding::Uniform { size: 336, dynamic: false }),
                (12u32, Binding::Storage),
                (13u32, Binding::Storage),
            ],
            Pass::Prefix => seq![
                (1u32, Binding::Uniform { size: 16, dynamic: true }),
                (14u32, Binding::Storage),
            ],
            Pass::Scatter => seq![
                (0u32, Binding::Uniform { size: 336, dynamic: false }),
                (12u32, Binding::Storage),
                (15u32, Binding::Storage),
                (16u32, Binding::Storage),
            ],
            Pass::SortCells => seq![
                (0u32, Binding::Uniform { size: 336, dynamic: false }),
                (14u32, Binding::Storage),
                (16u32, Binding::Storage),
            ],
            Pass::Neighbors => seq![
                (0u32, Binding::Uniform { size: 336, dynamic: false }),
                (5u32, Binding::Storage),
                (14u32, Binding::Storage),
                (16u32, Binding::Storage),
                (17u32, Binding::Storage),
                (18u32, Binding::Storage),
                (19u32, Binding::Storage),
            ],
            Pass::Lambda => seq![
                (0u32, Binding::Uniform { size: 336, dynamic: false }),
                (5u32, Binding::Storage),
                (17u32, Binding::Storage),
                (18u32, Binding::Storage),
                (6u32, Binding::Storage),
                (8u32, Binding::Storage),
            ],
            Pass::Delta => seq![
                (0u32, Binding::Uniform { size: 336, dynamic: false }),
                (5u32, Binding::Storage),
                (17u32, Binding::Storage),
                (18u32, Binding::Storage),
                (6u32, Binding::Storage),
                (8u32, Binding::Storage),
                (7u32, Binding::Storage),
            ],
            Pass::ApplyDelta => seq![
                (0u32, Binding::Uniform { size: 336, dynamic: false }),
                (5u32, Binding::Storage),
                (7u32, Binding::Storage),
            ],
            Pass::Velocity => seq![
                (0u32, Binding::Uniform { size: 336, dynamic: false }),
                (5u32, Binding::Storage),
                (2u32, Binding::Storage),
                (4u32, Binding::Storage),
            ],
            Pass::Viscosity => seq![
                (0u32, Binding::Uniform { size: 336, dynamic: false }),
                (2u32, Binding::Storage),
                (4u32, Binding::Storage),
                (17u32, Binding::Storage),
                (18u32, Binding::Storage),
                (9u32, Binding::Storage),
            ],
            Pass::Foam => seq![
                (0u32, Binding::Uniform { size: 336, dynamic: false }),
                (2u32, Binding::Storage),
                (4u32, Binding::Storage),
                (17u32, Binding::Storage),
                (18u32, Binding::Storage),
                (10u32, Binding::Storage),
                (11u32, Binding::Storage),
            ],
            Pass::MeasureTop => seq![
                (0u32, Binding::Uniform { size: 336, dynamic: false }),
                (2u32, Binding::Storage),
                (20u32, Binding::Storage),
            ],
            Pass::Measure => seq![
                (0u32, Binding::Uniform { size: 336, dynamic: false }),
                (2u32, Binding::Storage),
                (4u32, Binding::Storage),
                (17u32, Binding::Storage),
                (18u32, Binding::Storage),
                (8u32, Binding::Storage),
                (20u32, Binding::Storage),
                (21u32, Binding::Storage),
            ],
            Pass::Reduce => seq![
                (1u32, Binding::Uniform { size: 16, dynamic: true }),
                (20u32, Binding::Storage),
            ],
            Pass::ReduceNearest => seq![
                (1u32, Binding::Uniform { size: 16, dynamic: true }),
                (20u32, Binding::Storage),
            ],
            Pass::RayHits => seq![
                (0u32, Binding::Uniform { size: 336, dynamic: false }),
                (2u32, Binding::Storage),
                (20u32, Binding::Storage),
            ],
            Pass::GatherVectors => seq![
                (0u32, Binding::Uniform { size: 336, dynamic: false }),
                (16u32, Binding::Storage),
                (23u32, Binding::Storage),
                (9u32, Binding::Storage),
            ],
            Pass::GatherScalars => seq![
                (0u32, Binding::Uniform { size: 336, dynamic: false }),
                (16u32, Binding::Storage),
                (24u32, Binding::Storage),
                (25u32, Binding::Storage),
            ],
    });
}

/// What each of the surface's passes binds, and its shader function.
#[verifier::spinoff_prover]
#[verifier::rlimit(40)]
pub proof fn lemma_surface_binds(pass: SurfacePass, bound: Slots)
    requires
        bound.len() == surface_slots(pass).len(),
        forall|k: int|
            0 <= k < bound.len() ==> #[trigger] bound[k] == (
                surface_binding(surface_slots(pass)[k]),
                surface_kind(surface_slots(pass)[k]),
                surface_buffer(surface_slots(pass)[k]),
            ),
    ensures
        bound == match pass {
            SurfacePass::Interpolate => seq![
                (0u32, Binding::Uniform { size: 96, dynamic: false }, Buffer::SurfaceParams),
                (1u32, Binding::Storage, Buffer::Previous),
                (2u32, Binding::Storage, Buffer::Positions),
                (3u32, Binding::Storage, Buffer::Foam),
                (4u32, Binding::Storage, Buffer::Interp),
            ],
            SurfacePass::SampleDensity => seq![
                (0u32, Binding::Uniform { size: 96, dynamic: false }, Buffer::SurfaceParams),
                (4u32, Binding::Storage, Buffer::Interp),
                (5u32, Binding::Storage, Buffer::Starts(GridOf::Surface)),
                (6u32, Binding::Storage, Buffer::Sorted(GridOf::Surface)),
                (7u32, Binding::Storage, Buffer::Samples),
                (8u32, Binding::Storage, Buffer::SampleFoam),
                (9u32, Binding::VolumeOut(VolumeFormat::Rgba8Unorm), Buffer::Density),
            ],
            SurfacePass::Classify => seq![
                (0u32, Binding::Uniform { size: 96, dynamic: false }, Buffer::SurfaceParams),
                (7u32, Binding::Storage, Buffer::Samples),
                (10u32, Binding::Storage, Buffer::Offsets(ScanOf::Surface)),
            ],
            SurfacePass::Emit => seq![
                (0u32, Binding::Uniform { size: 96, dynamic: false }, Buffer::SurfaceParams),
                (7u32, Binding::Storage, Buffer::Samples),
                (8u32, Binding::Storage, Buffer::SampleFoam),
                (10u32, Binding::Storage, Buffer::Offsets(ScanOf::Surface)),
                (11u32, Binding::Storage, Buffer::Vertices(ScanOf::Surface)),
            ],
            SurfacePass::ClearTail => seq![
                (0u32, Binding::Uniform { size: 96, dynamic: false }, Buffer::SurfaceParams),
                (10u32, Binding::Storage, Buffer::Offsets(ScanOf::Surface)),
                (11u32, Binding::Storage, Buffer::Vertices(ScanOf::Surface)),
                (12u32, Binding::Storage, Buffer::Drawn(ScanOf::Surface)),
            ],
        },
        surface_entry(pass) == match pass {
            SurfacePass::Interpolate => "interpolate"@,
            SurfacePass::SampleDensity => "sample_density"@,
            SurfacePass::Classify => "classify"@,
            SurfacePass::Emit => "emit"@,
            SurfacePass::ClearTail => "clear_tail"@,
        },
{
    assert(bound =~= match pass {
            SurfacePass::Interpolate => seq![
                (0u32, Binding::Uniform { size: 96, dynamic: false }, Buffer::SurfaceParams),
                (1u32, Binding::Storage, Buffer::Previous),
                (2u32, Binding::Storage, Buffer::Positions),
                (3u32, Binding::Storage, Buffer::Foam),
                (4u32, Binding::Storage, Buffer::Interp),
            ],
            SurfacePass::SampleDensity => seq![
                (0u32, Binding::Uniform { size: 96, dynamic: false }, Buffer::SurfaceParams),
                (4u32, Binding::Storage, Buffer::Interp),
                (5u32, Binding::Storage, Buffer::Starts(GridOf::Surface)),
                (6u32, Binding::Storage, Buffer::Sorted(GridOf::Surface)),
                (7u32, Binding::Storage, Buffer::Samples),
                (8u32, Binding::Storage, Buffer::SampleFoam),
                (9u32, Binding::VolumeOut(VolumeFormat::Rgba8Unorm), Buffer::Density),
            ],
            SurfacePass::Classify => seq![
                (0u32, Binding::Uniform { size: 96, dynamic: false }, Buffer::SurfaceParams),
                (7u32, Binding::Storage, Buffer::Samples),
                (10u32, Binding::Storage, Buffer::Offsets(ScanOf::Surface)),
            ],
            SurfacePass::Emit => seq![
                (0u32, Binding::Uniform { size: 96, dynamic: false }, Buffer::SurfaceParams),
                (7u32, Binding::Storage, Buffer::Samples),
                (8u32, Binding::Storage, Buffer::SampleFoam),
                (10u32, Binding::Storage, Buffer::Offsets(ScanOf::Surface)),
                (11u32, Binding::Storage, Buffer::Vertices(ScanOf::Surface)),
            ],
            SurfacePass::ClearTail => seq![
                (0u32, Binding::Uniform { size: 96, dynamic: false }, Buffer::SurfaceParams),
                (10u32, Binding::Storage, Buffer::Offsets(ScanOf::Surface)),
                (11u32, Binding::Storage, Buffer::Vertices(ScanOf::Surface)),
                (12u32, Binding::Storage, Buffer::Drawn(ScanOf::Surface)),
            ],
    });
}

/// What each of the spray's passes binds, and its shader function.
#[verifier::spinoff_prover]
#[verifier::rlimit(40)]
pub proof fn lemma_spray_binds(pass: SprayPass, bound: Slots)
    requires
        bound.len() == spray_slots(pass).len(),
        forall|k: int|
            0 <= k < bound.len() ==> #[trigger] bound[k] == (
                spray_binding(spray_slots(pass)[k]),
                spray_kind(spray_slots(pass)[k]),
                spray_buffer(spray_slots(pass)[k]),
            ),
    ensures
        bound == match pass {
            SprayPass::Select => seq![
                (0u32, Binding::Uniform { size: 32, dynamic: false }, Buffer::SprayParams),
                (4u32, Binding::Storage, Buffer::Spray),
                (5u32, Binding::Storage, Buffer::Offsets(ScanOf::Spray)),
            ],
            SprayPass::Place => seq![
                (0u32, Binding::Uniform { size: 32, dynamic: false }, Buffer::SprayParams),
                (1u32, Binding::Storage, Buffer::Previous),
                (2u32, Binding::Storage, Buffer::Positions),
                (3u32, Binding::Storage, Buffer::Velocities),
                (4u32, Binding::Storage, Buffer::Spray),
                (5u32, Binding::Storage, Buffer::Offsets(ScanOf::Spray)),
                (6u32, Binding::Storage, Buffer::Vertices(ScanOf::Spray)),
            ],
            SprayPass::Clear => seq![
                (0u32, Binding::Uniform { size: 32, dynamic: false }, Buffer::SprayParams),
                (5u32, Binding::Storage, Buffer::Offsets(ScanOf::Spray)),
                (6u32, Binding::Storage, Buffer::Vertices(ScanOf::Spray)),
                (7u32, Binding::Storage, Buffer::Drawn(ScanOf::Spray)),
            ],
        },
        spray_entry(pass) == match pass {
            SprayPass::Select => "select_particles"@,
            SprayPass::Place => "place_droplets"@,
            SprayPass::Clear => "clear_droplets"@,
        },
{
    assert(bound =~= match pass {
            SprayPass::Select => seq![
                (0u32, Binding::Uniform { size: 32, dynamic: false }, Buffer::SprayParams),
                (4u32, Binding::Storage, Buffer::Spray),
                (5u32, Binding::Storage, Buffer::Offsets(ScanOf::Spray)),
            ],
            SprayPass::Place => seq![
                (0u32, Binding::Uniform { size: 32, dynamic: false }, Buffer::SprayParams),
                (1u32, Binding::Storage, Buffer::Previous),
                (2u32, Binding::Storage, Buffer::Positions),
                (3u32, Binding::Storage, Buffer::Velocities),
                (4u32, Binding::Storage, Buffer::Spray),
                (5u32, Binding::Storage, Buffer::Offsets(ScanOf::Spray)),
                (6u32, Binding::Storage, Buffer::Vertices(ScanOf::Spray)),
            ],
            SprayPass::Clear => seq![
                (0u32, Binding::Uniform { size: 32, dynamic: false }, Buffer::SprayParams),
                (5u32, Binding::Storage, Buffer::Offsets(ScanOf::Spray)),
                (6u32, Binding::Storage, Buffer::Vertices(ScanOf::Spray)),
                (7u32, Binding::Storage, Buffer::Drawn(ScanOf::Spray)),
            ],
    });
}

} // verus!
