//! The surface, rebuilt on a compute device from the particles it keeps there.
//! Nothing comes back but a triangle count: the density volume and the triangles
//! are written straight into the texture and vertex buffer the water is drawn
//! from.
use vstd::prelude::*;
use crate::gpu::{run, run_levels};
use crate::gpu::{Binding, Buffer, Command, GridOf, Group, Kernel, Levels, ScanOf, VolumeFormat};
use crate::gpu_fluid::{rebuild_grid, storage, storage_size, sweep, GpuFluid, GpuGrid};
use crate::gpu_params::Quad;
use crate::sim_gpu::Pass;
use crate::single::{Point, Single};

verus! {

/// Bytes per vertex in the water mesh: position, normal, colour.
pub const VERTEX_BYTES: u64 = 40;

/// Bytes of the surface's parameters.
pub const SURFACE_PARAM_BYTES: u64 = 96;

/// The passes of a rebuild, in order.
#[derive(Clone, Copy, PartialEq, Eq, Structural, Debug)]
pub enum SurfacePass {
    Interpolate,
    SampleDensity,
    Classify,
    Emit,
    ClearTail,
}

/// What the surface's shader binds.
#[derive(Clone, Copy, PartialEq, Eq, Structural, Debug)]
pub enum SurfaceSlot {
    Params,
    Previous,
    Positions,
    Foam,
    Interp,
    GridStart,
    Sorted,
    Samples,
    SampleFoam,
    Density,
    Offsets,
    Vertices,
    Drawn,
}

/// The binding number of a slot.
pub open spec fn surface_binding(slot: SurfaceSlot) -> u32 {
    match slot {
        SurfaceSlot::Params => 0,
        SurfaceSlot::Previous => 1,
        SurfaceSlot::Positions => 2,
        SurfaceSlot::Foam => 3,
        SurfaceSlot::Interp => 4,
        SurfaceSlot::GridStart => 5,
        SurfaceSlot::Sorted => 6,
        SurfaceSlot::Samples => 7,
        SurfaceSlot::SampleFoam => 8,
        SurfaceSlot::Density => 9,
        SurfaceSlot::Offsets => 10,
        SurfaceSlot::Vertices => 11,
        SurfaceSlot::Drawn => 12,
    }
}

/// What a slot binds: the parameters are a uniform, the density a volume to
/// write, and the rest storage.
pub open spec fn surface_kind(slot: SurfaceSlot) -> Binding {
    match slot {
        SurfaceSlot::Params => Binding::Uniform { size: SURFACE_PARAM_BYTES, dynamic: false },
        SurfaceSlot::Density => Binding::VolumeOut(VolumeFormat::Rgba8Unorm),
        _ => Binding::Storage,
    }
}

/// The buffer for a slot.
pub open spec fn surface_buffer(slot: SurfaceSlot) -> Buffer {
    match slot {
        SurfaceSlot::Params => Buffer::SurfaceParams,
        SurfaceSlot::Previous => Buffer::Previous,
        SurfaceSlot::Positions => Buffer::Positions,
        SurfaceSlot::Foam => Buffer::Foam,
        SurfaceSlot::Interp => Buffer::Interp,
        SurfaceSlot::GridStart => Buffer::Starts(GridOf::Surface),
        SurfaceSlot::Sorted => Buffer::Sorted(GridOf::Surface),
        SurfaceSlot::Samples => Buffer::Samples,
        SurfaceSlot::SampleFoam => Buffer::SampleFoam,
        SurfaceSlot::Density => Buffer::Density,
        SurfaceSlot::Offsets => Buffer::Offsets(ScanOf::Surface),
        SurfaceSlot::Vertices => Buffer::Vertices(ScanOf::Surface),
        SurfaceSlot::Drawn => Buffer::Drawn(ScanOf::Surface),
    }
}

impl SurfaceSlot {
    /// The slot's binding number, what it binds, and the buffer bound there.
    pub fn bound(self) -> (bound: (u32, Binding, Buffer))
        ensures
            bound == (surface_binding(self), surface_kind(self), surface_buffer(self)),
    {
        let storage = Binding::Storage;
        match self {
            SurfaceSlot::Params => (
                0,
                Binding::Uniform { size: SURFACE_PARAM_BYTES, dynamic: false },
                Buffer::SurfaceParams,
            ),
            SurfaceSlot::Previous => (1, storage, Buffer::Previous),
            SurfaceSlot::Positions => (2, storage, Buffer::Positions),
            SurfaceSlot::Foam => (3, storage, Buffer::Foam),
            SurfaceSlot::Interp => (4, storage, Buffer::Interp),
            SurfaceSlot::GridStart => (5, storage, Buffer::Starts(GridOf::Surface)),
            SurfaceSlot::Sorted => (6, storage, Buffer::Sorted(GridOf::Surface)),
            SurfaceSlot::Samples => (7, storage, Buffer::Samples),
            SurfaceSlot::SampleFoam => (8, storage, Buffer::SampleFoam),
            SurfaceSlot::Density => (
                9,
                Binding::VolumeOut(VolumeFormat::Rgba8Unorm),
                Buffer::Density,
            ),
            SurfaceSlot::Offsets => (10, storage, Buffer::Offsets(ScanOf::Surface)),
            SurfaceSlot::Vertices => (11, storage, Buffer::Vertices(ScanOf::Surface)),
            SurfaceSlot::Drawn => (12, storage, Buffer::Drawn(ScanOf::Surface)),
        }
    }
}

/// The shader function of a pass.
pub open spec fn surface_entry(pass: SurfacePass) -> Seq<char> {
    match pass {
        SurfacePass::Interpolate => "interpolate"@,
        SurfacePass::SampleDensity => "sample_density"@,
        SurfacePass::Classify => "classify"@,
        SurfacePass::Emit => "emit"@,
        SurfacePass::ClearTail => "clear_tail"@,
    }
}

/// The slots a pass touches.
pub open spec fn surface_slots(pass: SurfacePass) -> Seq<SurfaceSlot> {
    match pass {
        SurfacePass::Interpolate => seq![
            SurfaceSlot::Params,
            SurfaceSlot::Previous,
            SurfaceSlot::Positions,
            SurfaceSlot::Foam,
            SurfaceSlot::Interp,
        ],
        SurfacePass::SampleDensity => seq![
            SurfaceSlot::Params,
            SurfaceSlot::Interp,
            SurfaceSlot::GridStart,
            SurfaceSlot::Sorted,
            SurfaceSlot::Samples,
            SurfaceSlot::SampleFoam,
            SurfaceSlot::Density,
        ],
        SurfacePass::Classify => seq![
            SurfaceSlot::Params,
            SurfaceSlot::Samples,
            SurfaceSlot::Offsets,
        ],
        SurfacePass::Emit => seq![
            SurfaceSlot::Params,
            SurfaceSlot::Samples,
            SurfaceSlot::SampleFoam,
            SurfaceSlot::Offsets,
            SurfaceSlot::Vertices,
        ],
        SurfacePass::ClearTail => seq![
            SurfaceSlot::Params,
            SurfaceSlot::Offsets,
            SurfaceSlot::Vertices,
            SurfaceSlot::Drawn,
        ],
    }
}

impl SurfacePass {
    /// The shader function of this pass.
    pub fn entry(self) -> (name: &'static str)
        ensures
            name@ == surface_entry(self),
    {
        match self {
            SurfacePass::Interpolate => "interpolate",
            SurfacePass::SampleDensity => "sample_density",
            SurfacePass::Classify => "classify",
            SurfacePass::Emit => "emit",
            SurfacePass::ClearTail => "clear_tail",
        }
    }

    /// The slots this pass touches.
    pub fn slots(self) -> (slots: Vec<SurfaceSlot>)
        ensures
            slots@ == surface_slots(self),
    {
        let slots: Vec<SurfaceSlot> = match self {
            SurfacePass::Interpolate => vec![
                SurfaceSlot::Params,
                SurfaceSlot::Previous,
                SurfaceSlot::Positions,
                SurfaceSlot::Foam,
                SurfaceSlot::Interp,
            ],
            SurfacePass::SampleDensity => vec![
                SurfaceSlot::Params,
                SurfaceSlot::Interp,
                SurfaceSlot::GridStart,
                SurfaceSlot::Sorted,
                SurfaceSlot::Samples,
                SurfaceSlot::SampleFoam,
                SurfaceSlot::Density,
            ],
            SurfacePass::Classify => vec![
                SurfaceSlot::Params,
                SurfaceSlot::Samples,
                SurfaceSlot::Offsets,
            ],
            SurfacePass::Emit => vec![
                SurfaceSlot::Params,
                SurfaceSlot::Samples,
                SurfaceSlot::SampleFoam,
                SurfaceSlot::Offsets,
                SurfaceSlot::Vertices,
            ],
            SurfacePass::ClearTail => vec![
                SurfaceSlot::Params,
                SurfaceSlot::Offsets,
                SurfaceSlot::Vertices,
                SurfaceSlot::Drawn,
            ],
        };
        assert(slots@ =~= surface_slots(self));
        slots
    }

    /// What the pass binds, slot by slot: the number, the kind, and the buffer.
    pub fn bindings(self) -> (bindings: Vec<(u32, Binding, Buffer)>)
        ensures
            bindings@.len() == surface_slots(self).len(),
            forall|k: int|
                0 <= k < bindings@.len() ==> #[trigger] bindings@[k] == (
                    surface_binding(surface_slots(self)[k]),
                    surface_kind(surface_slots(self)[k]),
                    surface_buffer(surface_slots(self)[k]),
                ),
    {
        let slots: Vec<SurfaceSlot> = self.slots();
        let mut bindings: Vec<(u32, Binding, Buffer)> = Vec::new();
        let mut k: usize = 0;
        while k < slots.len()
            invariant
                k <= slots@.len(),
                slots@ == surface_slots(self),
                bindings@.len() == k,
                forall|m: int|
                    0 <= m < k ==> #[trigger] bindings@[m] == (
                        surface_binding(surface_slots(self)[m]),
                        surface_kind(surface_slots(self)[m]),
                        surface_buffer(surface_slots(self)[m]),
                    ),
            decreases slots@.len() - k,
        {
            bindings.push(slots[k].bound());
            k += 1;
        }
        bindings
    }
}

/// What the surface's shader reads.
#[derive(Clone, Copy, PartialEq, Eq, Structural, Debug)]
pub struct SurfaceParams {
    pub origin: Quad,
    pub grid_origin: Quad,
    pub n: u32,
    pub alpha: Single,
    pub radius2: Single,
    pub reference: Single,
    pub voxels_x: u32,
    pub voxels_y: u32,
    pub voxels_z: u32,
    pub voxel_count: u32,
    pub dims_x: i32,
    pub dims_y: i32,
    pub dims_z: i32,
    pub cube_count: u32,
    pub vertex_start: u32,
    pub vertex_capacity: u32,
}

/// The words of the parameters, in the shader's order, padded to whole vectors.
pub open spec fn surface_words(p: SurfaceParams) -> Seq<u32> {
    seq![
        p.origin.x.bits,
        p.origin.y.bits,
        p.origin.z.bits,
        p.origin.w.bits,
        p.grid_origin.x.bits,
        p.grid_origin.y.bits,
        p.grid_origin.z.bits,
        p.grid_origin.w.bits,
        p.n,
        p.alpha.bits,
        p.radius2.bits,
        p.reference.bits,
        p.voxels_x,
        p.voxels_y,
        p.voxels_z,
        p.voxel_count,
        p.dims_x as u32,
        p.dims_y as u32,
        p.dims_z as u32,
        p.cube_count,
        p.vertex_start,
        p.vertex_capacity,
        0,
        0,
    ]
}

impl SurfaceParams {
    /// The parameters' words.
    pub fn words(&self) -> (words: Vec<u32>)
        ensures
            words@ == surface_words(*self),
            words@.len() == 24,
            words@[0] == self.origin.x.bits,
            words@[1] == self.origin.y.bits,
            words@[2] == self.origin.z.bits,
            words@[3] == self.origin.w.bits,
            words@[4] == self.grid_origin.x.bits,
            words@[5] == self.grid_origin.y.bits,
            words@[6] == self.grid_origin.z.bits,
            words@[7] == self.grid_origin.w.bits,
            words@[8] == self.n,
            words@[9] == self.alpha.bits,
            words@[10] == self.radius2.bits,
            words@[11] == self.reference.bits,
            words@[12] == self.voxels_x,
            words@[13] == self.voxels_y,
            words@[14] == self.voxels_z,
            words@[15] == self.voxel_count,
            words@[16] == self.dims_x as u32,
            words@[17] == self.dims_y as u32,
            words@[18] == self.dims_z as u32,
            words@[19] == self.cube_count,
            words@[20] == self.vertex_start,
            words@[21] == self.vertex_capacity,
            words@[22] == 0,
            words@[23] == 0,
    {
        let words: Vec<u32> = vec![
            self.origin.x.bits,
            self.origin.y.bits,
            self.origin.z.bits,
            self.origin.w.bits,
            self.grid_origin.x.bits,
            self.grid_origin.y.bits,
            self.grid_origin.z.bits,
            self.grid_origin.w.bits,
            self.n,
            self.alpha.bits,
            self.radius2.bits,
            self.reference.bits,
            self.voxels_x,
            self.voxels_y,
            self.voxels_z,
            self.voxel_count,
            self.dims_x as u32,
            self.dims_y as u32,
            self.dims_z as u32,
            self.cube_count,
            self.vertex_start,
            self.vertex_capacity,
            0,
            0,
        ];
        assert(words@ =~= surface_words(*self));
        words
    }
}

/// How a surface is laid out over the bounds.
#[derive(Clone, Copy, PartialEq, Eq, Structural, Debug)]
pub struct SurfaceLayout {
    /// The volume's lower corner, and the width of a voxel.
    pub origin: Point,
    pub cell: Single,
    /// Samples along each axis.
    pub voxels_x: u32,
    pub voxels_y: u32,
    pub voxels_z: u32,
    /// How far a particle reaches, and that squared.
    pub radius: Single,
    pub radius2: Single,
    /// The density of water at rest.
    pub reference: Single,
    /// The lower corner of the bounds.
    pub bounds_min: Point,
    /// Cells of the particle grid along each axis, each a radius wide.
    pub dims_x: i32,
    pub dims_y: i32,
    pub dims_z: i32,
}

/// Samples in the volume.
pub open spec fn voxels_in(layout: SurfaceLayout) -> int {
    layout.voxels_x * layout.voxels_y * layout.voxels_z
}

/// Cubes between the samples.
pub open spec fn cubes_in(layout: SurfaceLayout) -> int {
    (layout.voxels_x - 1) * (layout.voxels_y - 1) * (layout.voxels_z - 1)
}

/// A layout whose volume has samples, few enough to count, over a grid that can
/// be built.
pub open spec fn layout_fits(layout: SurfaceLayout) -> bool {
    &&& 1 <= layout.voxels_x
    &&& 1 <= layout.voxels_y
    &&& 1 <= layout.voxels_z
    &&& layout.voxels_x * layout.voxels_y <= u32::MAX
    &&& voxels_in(layout) <= 0x7fff_ffff
    &&& crate::grid::dims_fit(layout.dims_x as int, layout.dims_y as int, layout.dims_z as int)
}

/// There are no more cubes than samples.
pub proof fn lemma_cubes(layout: SurfaceLayout)
    requires
        layout_fits(layout),
    ensures
        0 <= (layout.voxels_x - 1) * (layout.voxels_y - 1) <= u32::MAX,
        0 <= cubes_in(layout) <= voxels_in(layout),
{
    let (x, y, z) = (layout.voxels_x as int, layout.voxels_y as int, layout.voxels_z as int);
    assert(0 <= (x - 1) * (y - 1) <= x * y) by (nonlinear_arith)
        requires
            1 <= x,
            1 <= y,
    ;
    let (p, q) = ((x - 1) * (y - 1), x * y);
    assert(0 <= p * (z - 1) <= q * z) by (nonlinear_arith)
        requires
            0 <= p <= q,
            1 <= z,
    ;
}

/// The surface's state between frames.
pub struct GpuSurface {
    pub base: SurfaceParams,
    pub grid: GpuGrid,
    /// Power-of-two length of the triangle offsets.
    pub offsets_size: u32,
    pub levels: Levels,
    /// The solver buffers this was built against.
    pub revision: u64,
}

/// The parameters of a layout, before a rebuild fills in its own.
pub open spec fn base_params(layout: SurfaceLayout, n: u32) -> SurfaceParams {
    SurfaceParams {
        origin: crate::gpu_params::extended(layout.origin, layout.cell),
        grid_origin: crate::gpu_params::extended(layout.bounds_min, layout.radius),
        n,
        alpha: Single { bits: crate::gpu_params::ONE },
        radius2: layout.radius2,
        reference: layout.reference,
        voxels_x: layout.voxels_x,
        voxels_y: layout.voxels_y,
        voxels_z: layout.voxels_z,
        voxel_count: voxels_in(layout) as u32,
        dims_x: layout.dims_x,
        dims_y: layout.dims_y,
        dims_z: layout.dims_z,
        cube_count: cubes_in(layout) as u32,
        vertex_start: 0,
        vertex_capacity: 0,
    }
}

/// A rebuild: interpolate the particles, sort them, sample the density, count
/// each cube's triangles, turn the counts into offsets, emit the triangles, and
/// blank what the last rebuild left behind them. The offset past the last cube
/// is the number of triangles.
pub open spec fn surface_program(
    base: SurfaceParams,
    grid: GpuGrid,
    levels: Levels,
    capacity: u32,
) -> Seq<Command> {
    let of = |pass: SurfacePass, count: u32|
        crate::gpu::ran(Kernel::Surface(pass), Group::Surface(pass), count);
    seq![Command::Write(Buffer::SurfaceParams)] + crate::gpu_fluid::passed(
        of(SurfacePass::Interpolate, base.n),
    ) + crate::gpu_fluid::rebuilt(GridOf::Surface, grid) + seq![
        Command::Clear(Buffer::Offsets(ScanOf::Surface)),
    ] + crate::gpu_fluid::passed(
        of(SurfacePass::SampleDensity, base.voxel_count) + of(SurfacePass::Classify, base.cube_count)
            + crate::gpu::ran_levels(
            Kernel::Solver(Pass::Prefix),
            Group::Scan(ScanOf::Surface),
            levels.runs@,
        ) + of(SurfacePass::Emit, base.cube_count) + of(SurfacePass::ClearTail, capacity),
    ) + totalled(ScanOf::Surface, base.cube_count)
}

/// The total past the last of `count` offsets, copied out to draw by and to read.
pub open spec fn totalled(scan: ScanOf, count: u32) -> Seq<Command> {
    let at = (4 * count) as u64;
    seq![
        Command::Copy {
            from: Buffer::Offsets(scan),
            at,
            to: Buffer::Drawn(scan),
            to_at: 0,
            bytes: Some(4),
        },
        Command::Copy {
            from: Buffer::Offsets(scan),
            at,
            to: Buffer::Total(scan),
            to_at: 0,
            bytes: Some(4),
        },
        Command::Submit,
    ]
}

pub(crate) fn total(program: &mut Vec<Command>, scan: ScanOf, count: u32)
    ensures
        final(program)@ == old(program)@ + totalled(scan, count),
{
    let at: u64 = 4 * count as u64;
    program.push(
        Command::Copy {
            from: Buffer::Offsets(scan),
            at,
            to: Buffer::Drawn(scan),
            to_at: 0,
            bytes: Some(4),
        },
    );
    program.push(
        Command::Copy {
            from: Buffer::Offsets(scan),
            at,
            to: Buffer::Total(scan),
            to_at: 0,
            bytes: Some(4),
        },
    );
    program.push(Command::Submit);
    assert(program@ =~= old(program)@ + totalled(scan, count));
}

fn stage(program: &mut Vec<Command>, pass: SurfacePass, count: u32)
    ensures
        final(program)@ == old(program)@ + crate::gpu::ran(
            Kernel::Surface(pass),
            Group::Surface(pass),
            count,
        ),
{
    run(program, Kernel::Surface(pass), Group::Surface(pass), count);
}

impl GpuSurface {
    /// There is an offset for every cube and one more, and the sweep covers them.
    pub open spec fn wf(&self, align: int) -> bool {
        &&& crate::gpu_fluid::is_least_power(self.offsets_size as int, self.base.cube_count + 1)
        &&& forall|k: nat| #[trigger]
            vstd::arithmetic::power2::pow2(k) == self.offsets_size ==> crate::gpu::tabulates(
                self.levels,
                crate::scan::schedule(k, true),
                align,
            )
        &&& self.grid.n == self.base.n
        &&& self.grid.wf(align)
    }

    /// The reconstruction that `layout` lays out, over the solver's particles.
    pub fn new(solver: &GpuFluid, layout: &SurfaceLayout) -> (surface: GpuSurface)
        requires
            solver.wf(),
            layout_fits(*layout),
        ensures
            surface.wf(solver.align as int),
            surface.base == base_params(*layout, solver.buffers.n as u32),
            surface.base.origin.x == layout.origin.x,
            surface.base.origin.y == layout.origin.y,
            surface.base.origin.z == layout.origin.z,
            surface.base.origin.w == layout.cell,
            surface.base.grid_origin.x == layout.bounds_min.x,
            surface.base.grid_origin.y == layout.bounds_min.y,
            surface.base.grid_origin.z == layout.bounds_min.z,
            surface.base.grid_origin.w == layout.radius,
            surface.base.n == solver.buffers.n,
            surface.base.radius2 == layout.radius2,
            surface.base.reference == layout.reference,
            surface.base.voxels_x == layout.voxels_x,
            surface.base.voxels_y == layout.voxels_y,
            surface.base.voxels_z == layout.voxels_z,
            surface.base.voxel_count == layout.voxels_x * layout.voxels_y * layout.voxels_z,
            surface.base.dims_x == layout.dims_x,
            surface.base.dims_y == layout.dims_y,
            surface.base.dims_z == layout.dims_z,
            surface.base.cube_count == (layout.voxels_x - 1) * (layout.voxels_y - 1) * (
            layout.voxels_z - 1),
            surface.grid.n == solver.buffers.n,
            surface.grid.n > 0,
            surface.grid.cells > 0,
            surface.offsets_size > surface.base.cube_count,
            surface.grid.cells == layout.dims_x * (layout.dims_y * layout.dims_z),
            surface.revision == solver.revision,
            surface.matches_solver(*solver),
    {
        proof {
            lemma_cubes(*layout);
        }
        let n: u32 = solver.len() as u32;
        let voxel_count: u32 = layout.voxels_x * layout.voxels_y * layout.voxels_z;
        let cube_count: u32 = (layout.voxels_x - 1) * (layout.voxels_y - 1) * (layout.voxels_z - 1);
        let offsets_size: u32 = crate::num::next_power_of_two(cube_count + 1);
        proof {
            crate::grid::lemma_dims(
                layout.dims_x as int,
                layout.dims_y as int,
                layout.dims_z as int,
            );
        }
        let flat: u32 = layout.dims_y as u32 * layout.dims_z as u32;
        let cells: u32 = layout.dims_x as u32 * flat;
        proof {
            assert(layout.dims_x * (layout.dims_y * layout.dims_z) >= 1) by (nonlinear_arith)
                requires
                    layout.dims_x >= 1,
                    layout.dims_y >= 1,
                    layout.dims_z >= 1,
            ;
        }
        let one = Single { bits: crate::gpu_params::ONE };
        GpuSurface {
            base: SurfaceParams {
                origin: crate::gpu_params::extend(layout.origin, layout.cell),
                grid_origin: crate::gpu_params::extend(layout.bounds_min, layout.radius),
                n,
                alpha: one,
                radius2: layout.radius2,
                reference: layout.reference,
                voxels_x: layout.voxels_x,
                voxels_y: layout.voxels_y,
                voxels_z: layout.voxels_z,
                voxel_count,
                dims_x: layout.dims_x,
                dims_y: layout.dims_y,
                dims_z: layout.dims_z,
                cube_count,
                vertex_start: 0,
                vertex_capacity: 0,
            },
            grid: GpuGrid::new(n, cells, solver.align),
            offsets_size,
            levels: sweep(offsets_size, true, solver.align),
            revision: solver.revision(),
        }
    }

    /// Bytes set aside for each of the surface's buffers; none for those that are
    /// not the surface's.
    pub open spec fn bytes(&self, buffer: Buffer) -> int {
        match buffer {
            Buffer::SurfaceParams => SURFACE_PARAM_BYTES as int,
            Buffer::GridParams(GridOf::Surface) => crate::sim_gpu::PARAM_BYTES as int,
            Buffer::Interp => storage(16 * self.base.n),
            Buffer::Samples => storage(16 * self.base.voxel_count),
            Buffer::SampleFoam => storage(4 * self.base.voxel_count),
            Buffer::CellsOf(GridOf::Surface) | Buffer::Sorted(GridOf::Surface) => storage(
                4 * self.base.n,
            ),
            Buffer::Starts(GridOf::Surface) | Buffer::Cursor(GridOf::Surface) => storage(
                4 * self.grid.size,
            ),
            Buffer::GridLevels(GridOf::Surface) => self.grid.levels.bytes@.len() as int,
            Buffer::Offsets(ScanOf::Surface) => storage(4 * self.offsets_size),
            Buffer::ScanLevels(ScanOf::Surface) => self.levels.bytes@.len() as int,
            Buffer::Drawn(ScanOf::Surface) | Buffer::Total(ScanOf::Surface) => storage(4),
            _ => 0,
        }
    }

    /// Bytes to set aside for one of the surface's buffers.
    pub fn size(&self, buffer: Buffer) -> (size: u64)
        ensures
            size == self.bytes(buffer),
    {
        let (n, voxels): (u64, u64) = (self.base.n as u64, self.base.voxel_count as u64);
        match buffer {
            Buffer::SurfaceParams => SURFACE_PARAM_BYTES,
            Buffer::GridParams(GridOf::Surface) => crate::sim_gpu::PARAM_BYTES,
            Buffer::Interp => storage_size(16 * n),
            Buffer::Samples => storage_size(16 * voxels),
            Buffer::SampleFoam => storage_size(4 * voxels),
            Buffer::CellsOf(GridOf::Surface) | Buffer::Sorted(GridOf::Surface) => storage_size(
                4 * n,
            ),
            Buffer::Starts(GridOf::Surface) | Buffer::Cursor(GridOf::Surface) => storage_size(
                4 * self.grid.size as u64,
            ),
            Buffer::GridLevels(GridOf::Surface) => self.grid.levels.bytes.len() as u64,
            Buffer::Offsets(ScanOf::Surface) => storage_size(4 * self.offsets_size as u64),
            Buffer::ScanLevels(ScanOf::Surface) => self.levels.bytes.len() as u64,
            Buffer::Drawn(ScanOf::Surface) | Buffer::Total(ScanOf::Surface) => storage_size(4),
            _ => 0,
        }
    }

    /// The solver's buffers are the ones this was built over.
    pub open spec fn matches_solver(&self, solver: GpuFluid) -> bool {
        self.revision == solver.revision && self.base.n == solver.buffers.n
    }

    /// Whether the solver's buffers are still the ones this was built over.
    pub fn matches(&self, solver: &GpuFluid) -> (r: bool)
        requires
            solver.wf(),
        ensures
            r == self.matches_solver(*solver),
            r <==> self.revision == solver.revision && self.base.n == solver.buffers.n,
    {
        self.revision == solver.revision() && self.base.n == solver.len() as u32
    }

    /// What to run to rebuild the surface from the particles `alpha` of the way
    /// from where the last step started to where it ended, into `capacity`
    /// vertices from vertex `start`, and the parameters to write for it.
    pub fn rebuild(&self, alpha: Single, start: u32, capacity: u32) -> (work: (
        SurfaceParams,
        Vec<Command>,
    ))
        ensures
            work.0 == (SurfaceParams {
                alpha,
                vertex_start: start,
                vertex_capacity: capacity,
                ..self.base
            }),
            work.0.alpha == alpha,
            work.0.vertex_start == start,
            work.0.vertex_capacity == capacity,
            work.0.origin == self.base.origin,
            work.0.grid_origin == self.base.grid_origin,
            work.0.n == self.base.n,
            work.0.radius2 == self.base.radius2,
            work.0.reference == self.base.reference,
            work.0.voxels_x == self.base.voxels_x,
            work.0.voxels_y == self.base.voxels_y,
            work.0.voxels_z == self.base.voxels_z,
            work.0.voxel_count == self.base.voxel_count,
            work.0.dims_x == self.base.dims_x,
            work.0.dims_y == self.base.dims_y,
            work.0.dims_z == self.base.dims_z,
            work.0.cube_count == self.base.cube_count,
            work.1@ == surface_program(self.base, self.grid, self.levels, capacity),
    {
        let b = self.base;
        let params = SurfaceParams { alpha, vertex_start: start, vertex_capacity: capacity, ..b };
        let mut program: Vec<Command> = Vec::new();
        program.push(Command::Write(Buffer::SurfaceParams));
        program.push(Command::BeginPass);
        stage(&mut program, SurfacePass::Interpolate, b.n);
        program.push(Command::EndPass);
        rebuild_grid(&mut program, GridOf::Surface, &self.grid);
        program.push(Command::Clear(Buffer::Offsets(ScanOf::Surface)));
        program.push(Command::BeginPass);
        stage(&mut program, SurfacePass::SampleDensity, b.voxel_count);
        stage(&mut program, SurfacePass::Classify, b.cube_count);
        run_levels(
            &mut program,
            Kernel::Solver(Pass::Prefix),
            Group::Scan(ScanOf::Surface),
            &self.levels.runs,
        );
        stage(&mut program, SurfacePass::Emit, b.cube_count);
        stage(&mut program, SurfacePass::ClearTail, capacity);
        program.push(Command::EndPass);
        total(&mut program, ScanOf::Surface, b.cube_count);
        assert(program@ =~= surface_program(self.base, self.grid, self.levels, capacity));
        (params, program)
    }
}

} // verus!
