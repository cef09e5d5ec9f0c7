//! Spray and the particle diagnostic, built on a compute device from the
//! particles it keeps there, straight into a mesh's vertex buffer.
use vstd::prelude::*;
use crate::gpu::{run, run_levels};
use crate::gpu::{Binding, Buffer, Command, Group, Kernel, Levels, ScanOf};
use crate::gpu_fluid::{storage, storage_size, sweep, GpuFluid};
use crate::sim_gpu::Pass;
use crate::single::Single;
use crate::surface_gpu::total;

verus! {

/// Vertices per droplet: an octahedron, unindexed.
pub const DROPLET_VERTICES: u32 = 24;

/// Bytes per vertex in the spray mesh: position, normal.
pub const VERTEX_BYTES: u64 = 24;

/// Bytes of the spray's parameters.
pub const SPRAY_PARAM_BYTES: u64 = 32;

/// The passes of a rebuild, in order.
#[derive(Clone, Copy, PartialEq, Eq, Structural, Debug)]
pub enum SprayPass {
    Select,
    Place,
    Clear,
}

/// What the spray's shader binds.
#[derive(Clone, Copy, PartialEq, Eq, Structural, Debug)]
pub enum SpraySlot {
    Params,
    Previous,
    Positions,
    Velocities,
    Spray,
    Offsets,
    Vertices,
    Drawn,
}

/// The binding number of a slot.
pub open spec fn spray_binding(slot: SpraySlot) -> u32 {
    match slot {
        SpraySlot::Params => 0,
        SpraySlot::Previous => 1,
        SpraySlot::Positions => 2,
        SpraySlot::Velocities => 3,
        SpraySlot::Spray => 4,
        SpraySlot::Offsets => 5,
        SpraySlot::Vertices => 6,
        SpraySlot::Drawn => 7,
    }
}

/// What a slot binds: the parameters are a uniform, the rest storage.
pub open spec fn spray_kind(slot: SpraySlot) -> Binding {
    match slot {
        SpraySlot::Params => Binding::Uniform { size: SPRAY_PARAM_BYTES, dynamic: false },
        _ => Binding::Storage,
    }
}

/// The buffer for a slot.
pub open spec fn spray_buffer(slot: SpraySlot) -> Buffer {
    match slot {
        SpraySlot::Params => Buffer::SprayParams,
        SpraySlot::Previous => Buffer::Previous,
        SpraySlot::Positions => Buffer::Positions,
        SpraySlot::Velocities => Buffer::Velocities,
        SpraySlot::Spray => Buffer::Spray,
        SpraySlot::Offsets => Buffer::Offsets(ScanOf::Spray),
        SpraySlot::Vertices => Buffer::Vertices(ScanOf::Spray),
        SpraySlot::Drawn => Buffer::Drawn(ScanOf::Spray),
    }
}

impl SpraySlot {
    /// The slot's binding number, what it binds, and the buffer bound there.
    pub fn bound(self) -> (bound: (u32, Binding, Buffer))
        ensures
            bound == (spray_binding(self), spray_kind(self), spray_buffer(self)),
    {
        let storage = Binding::Storage;
        match self {
            SpraySlot::Params => (
                0,
                Binding::Uniform { size: SPRAY_PARAM_BYTES, dynamic: false },
                Buffer::SprayParams,
            ),
            SpraySlot::Previous => (1, storage, Buffer::Previous),
            SpraySlot::Positions => (2, storage, Buffer::Positions),
            SpraySlot::Velocities => (3, storage, Buffer::Velocities),
            SpraySlot::Spray => (4, storage, Buffer::Spray),
            SpraySlot::Offsets => (5, storage, Buffer::Offsets(ScanOf::Spray)),
            SpraySlot::Vertices => (6, storage, Buffer::Vertices(ScanOf::Spray)),
            SpraySlot::Drawn => (7, storage, Buffer::Drawn(ScanOf::Spray)),
        }
    }
}

/// The shader function of a pass.
pub open spec fn spray_entry(pass: SprayPass) -> Seq<char> {
    match pass {
        SprayPass::Select => "select_particles"@,
        SprayPass::Place => "place_droplets"@,
        SprayPass::Clear => "clear_droplets"@,
    }
}

/// The slots a pass touches.
pub open spec fn spray_slots(pass: SprayPass) -> Seq<SpraySlot> {
    match pass {
        SprayPass::Select => seq![SpraySlot::Params, SpraySlot::Spray, SpraySlot::Offsets],
        SprayPass::Place => seq![
            SpraySlot::Params,
            SpraySlot::Previous,
            SpraySlot::Positions,
            SpraySlot::Velocities,
            SpraySlot::Spray,
            SpraySlot::Offsets,
            SpraySlot::Vertices,
        ],
        SprayPass::Clear => seq![
            SpraySlot::Params,
            SpraySlot::Offsets,
            SpraySlot::Vertices,
            SpraySlot::Drawn,
        ],
    }
}

impl SprayPass {
    /// The shader function of this pass.
    pub fn entry(self) -> (name: &'static str)
        ensures
            name@ == spray_entry(self),
    {
        match self {
            SprayPass::Select => "select_particles",
            SprayPass::Place => "place_droplets",
            SprayPass::Clear => "clear_droplets",
        }
    }

    /// The slots this pass touches.
    pub fn slots(self) -> (slots: Vec<SpraySlot>)
        ensures
            slots@ == spray_slots(self),
    {
        let slots: Vec<SpraySlot> = match self {
            SprayPass::Select => vec![SpraySlot::Params, SpraySlot::Spray, SpraySlot::Offsets],
            SprayPass::Place => vec![
                SpraySlot::Params,
                SpraySlot::Previous,
                SpraySlot::Positions,
                SpraySlot::Velocities,
                SpraySlot::Spray,
                SpraySlot::Offsets,
                SpraySlot::Vertices,
            ],
            SprayPass::Clear => vec![
                SpraySlot::Params,
                SpraySlot::Offsets,
                SpraySlot::Vertices,
                SpraySlot::Drawn,
            ],
        };
        assert(slots@ =~= spray_slots(self));
        slots
    }

    /// What the pass binds, slot by slot: the number, the kind, and the buffer.
    pub fn bindings(self) -> (bindings: Vec<(u32, Binding, Buffer)>)
        ensures
            bindings@.len() == spray_slots(self).len(),
            forall|k: int|
                0 <= k < bindings@.len() ==> #[trigger] bindings@[k] == (
                    spray_binding(spray_slots(self)[k]),
                    spray_kind(spray_slots(self)[k]),
                    spray_buffer(spray_slots(self)[k]),
                ),
    {
        let slots: Vec<SpraySlot> = self.slots();
        let mut bindings: Vec<(u32, Binding, Buffer)> = Vec::new();
        let mut k: usize = 0;
        while k < slots.len()
            invariant
                k <= slots@.len(),
                slots@ == spray_slots(self),
                bindings@.len() == k,
                forall|m: int|
                    0 <= m < k ==> #[trigger] bindings@[m] == (
                        spray_binding(spray_slots(self)[m]),
                        spray_kind(spray_slots(self)[m]),
                        spray_buffer(spray_slots(self)[m]),
                    ),
            decreases slots@.len() - k,
        {
            bindings.push(slots[k].bound());
            k += 1;
        }
        bindings
    }
}

/// How a rebuild draws the particles.
#[derive(Clone, Copy, PartialEq, Eq, Structural, Debug)]
pub struct SprayStyle {
    /// Radius of a droplet at reference size.
    pub radius: Single,
    /// The particle scale over its reference.
    pub scale: Single,
    /// Every `stride`th particle at rest size instead of the spray.
    pub diagnostic: Option<u32>,
}

/// What the spray's shader reads.
#[derive(Clone, Copy, PartialEq, Eq, Structural, Debug)]
pub struct SprayParams {
    pub n: u32,
    pub alpha: Single,
    pub radius: Single,
    pub scale: Single,
    pub all: u32,
    pub stride: u32,
    pub capacity: u32,
    pub vertex_start: u32,
}

/// The words of the parameters, in the shader's order.
pub open spec fn spray_words(p: SprayParams) -> Seq<u32> {
    seq![
        p.n,
        p.alpha.bits,
        p.radius.bits,
        p.scale.bits,
        p.all,
        p.stride,
        p.capacity,
        p.vertex_start,
    ]
}

impl SprayParams {
    /// The parameters' words.
    pub fn words(&self) -> (words: Vec<u32>)
        ensures
            words@ == spray_words(*self),
            words@.len() == 8,
            words@[0] == self.n,
            words@[1] == self.alpha.bits,
            words@[2] == self.radius.bits,
            words@[3] == self.scale.bits,
            words@[4] == self.all,
            words@[5] == self.stride,
            words@[6] == self.capacity,
            words@[7] == self.vertex_start,
    {
        let words: Vec<u32> = vec![
            self.n,
            self.alpha.bits,
            self.radius.bits,
            self.scale.bits,
            self.all,
            self.stride,
            self.capacity,
            self.vertex_start,
        ];
        assert(words@ =~= spray_words(*self));
        words
    }
}

/// The spray's state between frames.
pub struct GpuSpray {
    pub n: u32,
    /// Power-of-two length of the droplet offsets.
    pub offsets_size: u32,
    pub levels: Levels,
    /// The solver buffers this was built against.
    pub revision: u64,
}

/// The parameters of a rebuild: the diagnostic shows all particles, by a stride
/// of at least one, and the spray only those that are spray.
pub open spec fn style_params(
    n: u32,
    alpha: Single,
    style: SprayStyle,
    start: u32,
    capacity: u32,
) -> SprayParams {
    SprayParams {
        n,
        alpha,
        radius: style.radius,
        scale: style.scale,
        all: if style.diagnostic is Some {
            1
        } else {
            0
        },
        stride: match style.diagnostic {
            Some(stride) => if stride < 1 {
                1
            } else {
                stride
            },
            None => 1,
        },
        capacity,
        vertex_start: start,
    }
}

/// A rebuild: select the particles to draw, turn the selection into offsets,
/// place the droplets, and blank what the last rebuild left behind them. The
/// offset past the last particle is the number of droplets.
pub open spec fn spray_program(n: u32, levels: Levels, capacity: u32) -> Seq<Command> {
    let of = |pass: SprayPass, count: u32|
        crate::gpu::ran(Kernel::Spray(pass), Group::Spray(pass), count);
    seq![
        Command::Write(Buffer::SprayParams),
        Command::Clear(Buffer::Offsets(ScanOf::Spray)),
    ] + crate::gpu_fluid::passed(
        of(SprayPass::Select, n) + crate::gpu::ran_levels(
            Kernel::Solver(Pass::Prefix),
            Group::Scan(ScanOf::Spray),
            levels.runs@,
        ) + of(SprayPass::Place, n) + of(SprayPass::Clear, capacity),
    ) + crate::surface_gpu::totalled(ScanOf::Spray, n)
}

fn stage(program: &mut Vec<Command>, pass: SprayPass, count: u32)
    ensures
        final(program)@ == old(program)@ + crate::gpu::ran(
            Kernel::Spray(pass),
            Group::Spray(pass),
            count,
        ),
{
    run(program, Kernel::Spray(pass), Group::Spray(pass), count);
}

impl GpuSpray {
    /// There is an offset for every particle and one more, and the sweep covers
    /// them.
    pub open spec fn wf(&self, align: int) -> bool {
        &&& crate::gpu_fluid::is_least_power(self.offsets_size as int, self.n + 1)
        &&& forall|k: nat| #[trigger]
            vstd::arithmetic::power2::pow2(k) == self.offsets_size ==> crate::gpu::tabulates(
                self.levels,
                crate::scan::schedule(k, true),
                align,
            )
    }

    /// The spray of the solver's particles.
    pub fn new(solver: &GpuFluid) -> (spray: GpuSpray)
        requires
            solver.wf(),
            solver.buffers.n < 0x8000_0000,
        ensures
            spray.wf(solver.align as int),
            spray.n == solver.buffers.n,
            spray.revision == solver.revision,
            spray.matches_solver(*solver),
            spray.offsets_size > spray.n,
    {
        let n: u32 = solver.len() as u32;
        let offsets_size: u32 = crate::num::next_power_of_two(n + 1);
        GpuSpray {
            n,
            offsets_size,
            levels: sweep(offsets_size, true, solver.align),
            revision: solver.revision(),
        }
    }

    /// Bytes set aside for each of the spray's buffers; none for those that are
    /// not the spray's.
    pub open spec fn bytes(&self, buffer: Buffer) -> int {
        match buffer {
            Buffer::SprayParams => SPRAY_PARAM_BYTES as int,
            Buffer::Offsets(ScanOf::Spray) => storage(4 * self.offsets_size),
            Buffer::ScanLevels(ScanOf::Spray) => self.levels.bytes@.len() as int,
            Buffer::Drawn(ScanOf::Spray) | Buffer::Total(ScanOf::Spray) => storage(4),
            _ => 0,
        }
    }

    /// Bytes to set aside for one of the spray's buffers.
    pub fn size(&self, buffer: Buffer) -> (size: u64)
        ensures
            size == self.bytes(buffer),
    {
        match buffer {
            Buffer::SprayParams => SPRAY_PARAM_BYTES,
            Buffer::Offsets(ScanOf::Spray) => storage_size(4 * self.offsets_size as u64),
            Buffer::ScanLevels(ScanOf::Spray) => self.levels.bytes.len() as u64,
            Buffer::Drawn(ScanOf::Spray) | Buffer::Total(ScanOf::Spray) => storage_size(4),
            _ => 0,
        }
    }

    /// The solver's buffers are the ones this was built over.
    pub open spec fn matches_solver(&self, solver: GpuFluid) -> bool {
        self.revision == solver.revision && self.n == solver.buffers.n
    }

    /// Whether the solver's buffers are still the ones this was built over.
    pub fn matches(&self, solver: &GpuFluid) -> (r: bool)
        requires
            solver.wf(),
        ensures
            r == self.matches_solver(*solver),
            r <==> self.revision == solver.revision && self.n == solver.buffers.n,
    {
        self.revision == solver.revision() && self.n == solver.len() as u32
    }

    /// What to run to write a droplet per visible particle into `capacity`
    /// droplets' worth of vertices from vertex `start`, and the parameters to
    /// write for it.
    pub fn rebuild(&self, alpha: Single, style: SprayStyle, start: u32, capacity: u32) -> (work: (
        SprayParams,
        Vec<Command>,
    ))
        ensures
            work.0 == style_params(self.n, alpha, style, start, capacity),
            work.0.n == self.n,
            work.0.alpha == alpha,
            work.0.radius == style.radius,
            work.0.scale == style.scale,
            work.0.all == 1 <==> style.diagnostic is Some,
            work.0.all == 0 <==> style.diagnostic is None,
            style.diagnostic is None ==> work.0.stride == 1,
            style.diagnostic matches Some(stride) ==> work.0.stride == if stride == 0 {
                1
            } else {
                stride
            },
            work.0.capacity == capacity,
            work.0.vertex_start == start,
            work.1@ == spray_program(self.n, self.levels, capacity),
    {
        let (all, stride): (u32, u32) = match style.diagnostic {
            Some(stride) => (
                1,
                if stride < 1 {
                    1
                } else {
                    stride
                },
            ),
            None => (0, 1),
        };
        let params = SprayParams {
            n: self.n,
            alpha,
            radius: style.radius,
            scale: style.scale,
            all,
            stride,
            capacity,
            vertex_start: start,
        };
        let mut program: Vec<Command> = Vec::new();
        program.push(Command::Write(Buffer::SprayParams));
        program.push(Command::Clear(Buffer::Offsets(ScanOf::Spray)));
        program.push(Command::BeginPass);
        stage(&mut program, SprayPass::Select, self.n);
        run_levels(
            &mut program,
            Kernel::Solver(Pass::Prefix),
            Group::Scan(ScanOf::Spray),
            &self.levels.runs,
        );
        stage(&mut program, SprayPass::Place, self.n);
        stage(&mut program, SprayPass::Clear, capacity);
        program.push(Command::EndPass);
        total(&mut program, ScanOf::Spray, self.n);
        assert(program@ =~= spray_program(self.n, self.levels, capacity));
        (params, program)
    }
}

} // verus!
