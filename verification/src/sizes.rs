//! How large every buffer is: sixteen bytes to a vector and four to a scalar or an
//! index, for each of what it holds.
use vstd::prelude::*;
use crate::gpu::{Buffer, GridOf, ScanOf};
use crate::gpu_fluid::{lemma_storage, Buffers};
use crate::spray_gpu::GpuSpray;
use crate::surface_gpu::GpuSurface;

verus! {

/// The solver's buffers: one entry to a particle, to a neighbour slot, to a cell's
/// start, or to an entry of the reductions.
pub proof fn lemma_solver_sizes(b: Buffers)
    requires
        b.n >= 1,
        b.capacity >= 1,
        b.reduce_size >= 1,
        b.grid.size >= 1,
    ensures
        b.bytes(Buffer::Positions) == 16 * b.n,
        b.bytes(Buffer::Previous) == 16 * b.n,
        b.bytes(Buffer::Velocities) == 16 * b.n,
        b.bytes(Buffer::Predicted) == 16 * b.n,
        b.bytes(Buffer::Deltas) == 16 * b.n,
        b.bytes(Buffer::Boundary) == 16 * b.n,
        b.bytes(Buffer::Scratch) == 16 * b.n,
        b.bytes(Buffer::Lambdas) == 4 * b.n,
        b.bytes(Buffer::Foam) == 4 * b.n,
        b.bytes(Buffer::Spray) == 4 * b.n,
        b.bytes(Buffer::NeighborCount) == 4 * b.n,
        b.bytes(Buffer::Ids) == 4 * b.n,
        b.bytes(Buffer::Gathered) == 4 * b.n,
        b.bytes(Buffer::CellsOf(GridOf::Solver)) == 4 * b.n,
        b.bytes(Buffer::Sorted(GridOf::Solver)) == 4 * b.n,
        b.bytes(Buffer::Neighbors) == 4 * (b.n * b.capacity),
        b.bytes(Buffer::MaxNeighbors) == 4,
        b.bytes(Buffer::Stats) == 16 * b.reduce_size,
        b.bytes(Buffer::Top) == 16,
        b.bytes(Buffer::Probe) == 16,
        b.bytes(Buffer::Readback) == 60 * b.n,
        b.bytes(Buffer::Starts(GridOf::Solver)) == 4 * b.grid.size,
        b.bytes(Buffer::Cursor(GridOf::Solver)) == 4 * b.grid.size,
        b.bytes(Buffer::Params) == 336,
        b.bytes(Buffer::GridParams(GridOf::Solver)) == 336,
        b.bytes(Buffer::ReduceLevels) == b.reduce_levels.bytes@.len(),
        b.bytes(Buffer::GridLevels(GridOf::Solver)) == b.grid.levels.bytes@.len(),
{
    assert(b.n * b.capacity >= 1) by (nonlinear_arith)
        requires
            b.n >= 1,
            b.capacity >= 1,
    ;
    lemma_storage(b.n as int);
    lemma_storage(4 * b.n);
    lemma_storage(15 * b.n);
    lemma_storage(b.n * b.capacity);
    lemma_storage(4 * b.reduce_size);
    lemma_storage(b.grid.size as int);
    lemma_storage(1);
    lemma_storage(4);
}

/// The surface's buffers: one entry to a particle, to a sample, to a cell's start
/// or to a cube's offset.
pub proof fn lemma_surface_sizes(s: GpuSurface)
    requires
        s.base.n >= 1,
        s.base.voxel_count >= 1,
        s.grid.size >= 1,
        s.offsets_size >= 1,
    ensures
        s.bytes(Buffer::SurfaceParams) == 96,
        s.bytes(Buffer::GridParams(GridOf::Surface)) == 336,
        s.bytes(Buffer::Interp) == 16 * s.base.n,
        s.bytes(Buffer::Samples) == 16 * s.base.voxel_count,
        s.bytes(Buffer::SampleFoam) == 4 * s.base.voxel_count,
        s.bytes(Buffer::CellsOf(GridOf::Surface)) == 4 * s.base.n,
        s.bytes(Buffer::Sorted(GridOf::Surface)) == 4 * s.base.n,
        s.bytes(Buffer::Starts(GridOf::Surface)) == 4 * s.grid.size,
        s.bytes(Buffer::Cursor(GridOf::Surface)) == 4 * s.grid.size,
        s.bytes(Buffer::Offsets(ScanOf::Surface)) == 4 * s.offsets_size,
        s.bytes(Buffer::Drawn(ScanOf::Surface)) == 4,
        s.bytes(Buffer::Total(ScanOf::Surface)) == 4,
        s.bytes(Buffer::GridLevels(GridOf::Surface)) == s.grid.levels.bytes@.len(),
        s.bytes(Buffer::ScanLevels(ScanOf::Surface)) == s.levels.bytes@.len(),
{
    lemma_storage(s.base.n as int);
    lemma_storage(4 * s.base.n);
    lemma_storage(s.base.voxel_count as int);
    lemma_storage(4 * s.base.voxel_count);
    lemma_storage(s.grid.size as int);
    lemma_storage(s.offsets_size as int);
    lemma_storage(1);
}

/// The spray's buffers: one offset to a particle, and one more, up to a power of two.
pub proof fn lemma_spray_sizes(s: GpuSpray)
    requires
        s.offsets_size >= 1,
    ensures
        s.bytes(Buffer::SprayParams) == 32,
        s.bytes(Buffer::Offsets(ScanOf::Spray)) == 4 * s.offsets_size,
        s.bytes(Buffer::Drawn(ScanOf::Spray)) == 4,
        s.bytes(Buffer::Total(ScanOf::Spray)) == 4,
        s.bytes(Buffer::ScanLevels(ScanOf::Spray)) == s.levels.bytes@.len(),
{
    lemma_storage(s.offsets_size as int);
    lemma_storage(1);
}

/// The parameters are as long as their words, four bytes each; a level has four
/// words; a vertex of the water has a position, a normal and a colour, one of the
/// spray a position and a normal; and a droplet is eight triangles.
pub proof fn lemma_strides()
    ensures
        crate::sim_gpu::PARAM_BYTES == 4 * 84,
        crate::surface_gpu::SURFACE_PARAM_BYTES == 4 * 24,
        crate::spray_gpu::SPRAY_PARAM_BYTES == 4 * 8,
        crate::scan::LEVEL_BYTES == 4 * 4,
        crate::surface_gpu::VERTEX_BYTES == 4 * (3 + 3 + 4),
        crate::spray_gpu::VERTEX_BYTES == 4 * (3 + 3),
        crate::spray_gpu::DROPLET_VERTICES == 8 * 3,
{
}

} // verus!
