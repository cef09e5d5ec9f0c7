//! Everything tunable, and what makes a setting acceptable.
//!
//! A bad config is refused with a message that says what to change. Whatever
//! rounds, such as how far the fluid moves in a step, is worked out by the caller
//! and handed over in [`Measures`].
use vstd::prelude::*;
use crate::sim::{Bounds, Fluid, FluidParams, Site, Start};
use crate::single::{zero, Point, Single};
use crate::wave::{endless, tank_checks, wave_checks, Swell, Wave, WaveMeasures};

verus! {

/// The least kernel radius, in spacings.
pub const RATIO_LIMIT: u32 = 0x3fc0_0000;

/// Largest Courant number the solver is known to survive. Held slightly under one
/// so a config that merely approaches the cliff is refused.
pub const COURANT_LIMIT: u32 = 0x3f73_3333;

/// Greater corrections diverge for some iteration counts.
pub const RELAX_LIMIT: u32 = 0x3f0c_cccd;

/// The slowest playback.
pub const SLOWEST: u32 = 0x3d4c_cccd;

/// The finest voxels, in spacings.
pub const FINEST: u32 = 0x3f00_0000;

/// The coarsest voxels, in spacings.
pub const COARSEST: u32 = 0x4000_0000;

/// The most samples of a surface.
pub const SAMPLE_LIMIT: u32 = 0x4a74_2400;

/// The bits of one.
pub const UNITY: u32 = 0x3f80_0000;

/// The scenes.
#[derive(Clone, Copy, PartialEq, Eq, Structural, Debug)]
pub enum Scenario {
    DamBreak,
    Wave,
}

impl Default for Scenario {
    fn default() -> (scenario: Scenario)
        ensures
            scenario is DamBreak,
    {
        Scenario::DamBreak
    }
}

/// Where the solver runs.
#[derive(Clone, Copy, PartialEq, Eq, Structural, Debug)]
pub enum Backend {
    Gpu,
    Cpu,
}

impl Default for Backend {
    fn default() -> (backend: Backend)
        ensures
            backend is Gpu,
    {
        Backend::Gpu
    }
}

/// A colour, in sRGB from 0 to 1.
#[derive(Clone, Copy, PartialEq, Eq, Structural, Debug)]
pub struct Rgb {
    pub r: Single,
    pub g: Single,
    pub b: Single,
}

/// What is played, and how fast.
#[derive(Clone, Copy, PartialEq, Eq, Structural, Debug)]
pub struct Scene {
    pub scenario: Scenario,
    pub time_scale: Single,
    /// Simulation seconds between replays; zero disables replay.
    pub replay_after: Single,
}

/// A dam break at full speed, without replay.
pub open spec fn default_scene() -> Scene {
    Scene {
        scenario: Scenario::DamBreak,
        time_scale: Single { bits: 0x3f80_0000 },
        replay_after: Single { bits: 0x0000_0000 },
    }
}

impl Default for Scene {
    fn default() -> (scene: Scene)
        ensures
            scene == default_scene(),
    {
        Scene {
            scenario: Scenario::DamBreak,
            time_scale: Single { bits: 0x3f80_0000 },
            replay_after: Single { bits: 0x0000_0000 },
        }
    }
}

/// The box the fluid lives in. Gravity is in world units per second squared.
#[derive(Clone, Copy, PartialEq, Eq, Structural, Debug)]
pub struct World {
    pub width: Single,
    pub height: Single,
    pub depth: Single,
    pub gravity: Point,
}

/// A box 400 by 300 by 400, with gravity 1400 downwards.
pub open spec fn default_world() -> World {
    World {
        width: Single { bits: 0x43c8_0000 },
        height: Single { bits: 0x4396_0000 },
        depth: Single { bits: 0x43c8_0000 },
        gravity: Point {
            x: Single { bits: 0x0000_0000 },
            y: Single { bits: 0xc4af_0000 },
            z: Single { bits: 0x0000_0000 },
        },
    }
}

impl Default for World {
    fn default() -> (world: World)
        ensures
            world == default_world(),
    {
        World {
            width: Single { bits: 0x43c8_0000 },
            height: Single { bits: 0x4396_0000 },
            depth: Single { bits: 0x43c8_0000 },
            gravity: Point {
                x: Single { bits: 0x0000_0000 },
                y: Single { bits: 0xc4af_0000 },
                z: Single { bits: 0x0000_0000 },
            },
        }
    }
}

/// How much water there is, and how finely it is resolved.
#[derive(Clone, Copy, Debug)]
pub struct FluidBlock {
    /// Particles along x, y and z in the starting block.
    pub block: [usize; 3],
    /// Rest distance between neighbouring particles.
    pub spacing: Single,
    /// Kernel radius: how far a particle looks for neighbours.
    pub smoothing_radius: Single,
}

impl Default for FluidBlock {
    fn default() -> (fluid: FluidBlock)
        ensures
            fluid.block@ == seq![24usize, 26, 24],
            fluid.spacing == (Single { bits: 0x4120_0000 }),
            fluid.smoothing_radius == (Single { bits: 0x41a0_0000 }),
    {
        let block: [usize; 3] = [24, 26, 24];
        assert(block@ =~= seq![24usize, 26, 24]);
        FluidBlock {
            block,
            spacing: Single { bits: 0x4120_0000 },
            smoothing_radius: Single { bits: 0x41a0_0000 },
        }
    }
}

/// Solver tunables.
#[derive(Clone, Copy, PartialEq, Eq, Structural, Debug)]
pub struct Solver {
    pub backend: Backend,
    /// Jacobi iterations per substep.
    pub iterations: u32,
    /// Solver steps per frame. A smaller kernel needs more of them.
    pub substeps: u32,
    /// Under-relaxation on the positional correction; a half is a ceiling, not a
    /// starting point.
    pub jacobi_relax: Single,
    pub relaxation: Single,
    pub viscosity: Single,
    pub tensile_k: Single,
    pub tensile_q: Single,
    pub tensile_n: i32,
    /// Resolve compression only, leaving under-dense particles alone.
    pub clamp_constraint: bool,
    pub wall_friction: Single,
}

/// Eight iterations of one substep, on the device.
pub open spec fn default_solver() -> Solver {
    Solver {
        backend: Backend::Gpu,
        iterations: 8,
        substeps: 1,
        jacobi_relax: Single { bits: 0x3f00_0000 },
        relaxation: Single { bits: 0x3d4c_cccd },
        viscosity: Single { bits: 0x3da3_d70a },
        tensile_k: Single { bits: 0x3d23_d70a },
        tensile_q: Single { bits: 0x3e4c_cccd },
        tensile_n: 4,
        clamp_constraint: false,
        wall_friction: Single { bits: 0x3f7a_e148 },
    }
}

impl Default for Solver {
    fn default() -> (solver: Solver)
        ensures
            solver == default_solver(),
    {
        Solver {
            backend: Backend::Gpu,
            iterations: 8,
            substeps: 1,
            jacobi_relax: Single { bits: 0x3f00_0000 },
            relaxation: Single { bits: 0x3d4c_cccd },
            viscosity: Single { bits: 0x3da3_d70a },
            tensile_k: Single { bits: 0x3d23_d70a },
            tensile_q: Single { bits: 0x3e4c_cccd },
            tensile_n: 4,
            clamp_constraint: false,
            wall_friction: Single { bits: 0x3f7a_e148 },
        }
    }
}

/// How the water is drawn.
#[derive(Clone, Copy, PartialEq, Eq, Structural, Debug)]
pub struct Render {
    /// Reconstruction voxel width, as a multiple of particle spacing.
    pub surface_resolution: Single,
    pub show_bounds: bool,
    /// Spray droplet size multiplier; 2.4 is the reference size.
    pub particle_scale: Single,
    /// Foam visibility; smaller values reveal more aeration.
    pub foam_speed: Single,
    pub background: Rgb,
    pub deep_color: Rgb,
    pub mid_color: Rgb,
    pub foam_color: Rgb,
    /// Cap the frame rate to the display.
    pub vsync: bool,
}

/// Voxels of 0.85 spacings, and reference-sized spray.
pub open spec fn default_render() -> Render {
    Render {
        surface_resolution: Single { bits: 0x3f59_999a },
        show_bounds: false,
        particle_scale: Single { bits: 0x4019_999a },
        foam_speed: Single { bits: 0x4461_0000 },
        background: Rgb {
            r: Single { bits: 0x3f2b_851f },
            g: Single { bits: 0x3f4c_cccd },
            b: Single { bits: 0x3f5e_b852 },
        },
        deep_color: Rgb {
            r: Single { bits: 0x3c75_c28f },
            g: Single { bits: 0x3e23_d70a },
            b: Single { bits: 0x3e4c_cccd },
        },
        mid_color: Rgb {
            r: Single { bits: 0x3da3_d70a },
            g: Single { bits: 0x3f14_7ae1 },
            b: Single { bits: 0x3f07_ae14 },
        },
        foam_color: Rgb {
            r: Single { bits: 0x3f6b_851f },
            g: Single { bits: 0x3f7a_e148 },
            b: Single { bits: 0x3f80_0000 },
        },
        vsync: true,
    }
}

impl Default for Render {
    fn default() -> (render: Render)
        ensures
            render == default_render(),
    {
        Render {
            surface_resolution: Single { bits: 0x3f59_999a },
            show_bounds: false,
            particle_scale: Single { bits: 0x4019_999a },
            foam_speed: Single { bits: 0x4461_0000 },
            background: Rgb {
                r: Single { bits: 0x3f2b_851f },
                g: Single { bits: 0x3f4c_cccd },
                b: Single { bits: 0x3f5e_b852 },
            },
            deep_color: Rgb {
                r: Single { bits: 0x3c75_c28f },
                g: Single { bits: 0x3e23_d70a },
                b: Single { bits: 0x3e4c_cccd },
            },
            mid_color: Rgb {
                r: Single { bits: 0x3da3_d70a },
                g: Single { bits: 0x3f14_7ae1 },
                b: Single { bits: 0x3f07_ae14 },
            },
            foam_color: Rgb {
                r: Single { bits: 0x3f6b_851f },
                g: Single { bits: 0x3f7a_e148 },
                b: Single { bits: 0x3f80_0000 },
            },
            vsync: true,
        }
    }
}

/// The reach and strength of the mouse.
#[derive(Clone, Copy, PartialEq, Eq, Structural, Debug)]
pub struct Input {
    pub mouse_radius: Single,
    /// Velocity change per second at the centre of the mouse's influence.
    pub mouse_strength: Single,
}

/// A reach of 110 and a strength of 10000.
pub open spec fn default_input() -> Input {
    Input {
        mouse_radius: Single { bits: 0x42dc_0000 },
        mouse_strength: Single { bits: 0x461c_4000 },
    }
}

impl Default for Input {
    fn default() -> (input: Input)
        ensures
            input == default_input(),
    {
        Input {
            mouse_radius: Single { bits: 0x42dc_0000 },
            mouse_strength: Single { bits: 0x461c_4000 },
        }
    }
}

/// All the settings.
#[derive(Clone, Copy, Debug)]
pub struct Config {
    pub scene: Scene,
    pub wave: Wave,
    pub swell: Swell,
    pub world: World,
    pub fluid: FluidBlock,
    pub solver: Solver,
    pub render: Render,
    pub input: Input,
}

impl Default for Config {
    fn default() -> (config: Config)
        ensures
            config.scene == default_scene(),
            config.wave == crate::wave::default_wave(),
            config.swell == crate::wave::default_swell(),
            config.world == default_world(),
            config.fluid.block@ == seq![24usize, 26, 24],
            config.fluid.spacing == (Single { bits: 0x4120_0000 }),
            config.fluid.smoothing_radius == (Single { bits: 0x41a0_0000 }),
            config.solver == default_solver(),
            config.render == default_render(),
            config.input == default_input(),
    {
        Config {
            scene: Scene::default(),
            wave: Wave::default(),
            swell: Swell::default(),
            world: World::default(),
            fluid: FluidBlock::default(),
            solver: Solver::default(),
            render: Render::default(),
            input: Input::default(),
        }
    }
}

/// What the settings are checked against, worked out from them.
#[derive(Clone, Copy, PartialEq, Eq, Structural, Debug)]
pub struct Measures {
    /// The kernel radius in spacings.
    pub ratio: Single,
    /// How many particles the box has room for along each axis: its length in
    /// spacings, less a half for the walls, and another half where rows are
    /// staggered.
    pub room_x: Single,
    pub room_y: Single,
    pub room_z: Single,
    /// The box that the starting block needs.
    pub needs_x: Single,
    pub needs_y: Single,
    pub needs_z: Single,
    /// The speed the fluid is expected to peak at, and how far that takes it in
    /// a substep, in kernel radii.
    pub peak: Single,
    pub courant: Single,
    /// The Courant number of a single substep, over its limit.
    pub needed_substeps: Single,
    /// Samples of the surface.
    pub voxels: Single,
    pub wave: WaveMeasures,
}

/// What there is to say of a block that does not fit.
#[derive(Clone, Copy, PartialEq, Eq, Structural, Debug)]
pub struct BlockReport {
    pub block_x: usize,
    pub block_y: usize,
    pub block_z: usize,
    pub spacing: Single,
    pub needs_x: Single,
    pub needs_y: Single,
    pub needs_z: Single,
    pub width: Single,
    pub height: Single,
    pub depth: Single,
    pub max_x: usize,
    pub max_y: usize,
    pub max_z: usize,
}

/// What there is to say of a fluid that moves too far in a substep.
#[derive(Clone, Copy, PartialEq, Eq, Structural, Debug)]
pub struct SpeedReport {
    pub courant: Single,
    pub spacing: Single,
    pub smoothing_radius: Single,
    pub peak: Single,
    pub required: u32,
    pub substeps: u32,
}

/// Why a config is refused.
#[derive(Clone, Copy, PartialEq, Eq, Structural, Debug)]
pub enum Invalid {
    EmptyBlock,
    Spacing(Single),
    Width(Single),
    Height(Single),
    Depth(Single),
    Ratio(Single),
    /// The starting block does not fit.
    BlockTooBig(BlockReport),
    Gravity,
    WaterDepth,
    ReefHeight,
    ReefStart,
    ReefWidth,
    BeachWidth,
    ReefSkew,
    Upward,
    Direction,
    Period,
    SwellHeight,
    SwellUnresolved,
    ReefTooHigh,
    CrestTooHigh,
    WavelengthUnresolved,
    TooShallow(Single),
    TooSteep,
    ReefTooNear,
    RiseUnresolved,
    Beach,
    TankTooNarrow,
    Iterations,
    Substeps,
    /// The fluid would outrun its neighbour lists.
    TooFast(SpeedReport),
    JacobiRelax(Single),
    Relaxation,
    WallFriction(Single),
    ParticleScale,
    FoamSpeed,
    TimeScale,
    ReplayAfter,
    SurfaceResolution,
    Background,
    DeepColor,
    MidColor,
    FoamColor,
    TooManySamples,
}

/// A piece of a message: words, a number as it is, a number to so many decimals,
/// a count, or the product of three counts.
#[derive(Clone, Copy, Debug)]
pub enum Piece {
    Text(&'static str),
    Number(Single),
    Fixed(Single, u32),
    Count(usize),
    Product(usize, usize, usize),
}

/// The message for a refusal.
pub open spec fn message_of(invalid: Invalid) -> Seq<Piece> {
    match invalid {
        Invalid::EmptyBlock => seq![Piece::Text("every axis of fluid.block must be at least 1")],
        Invalid::Spacing(v) => seq![
            Piece::Text("fluid.spacing must be positive, got "),
            Piece::Number(v),
        ],
        Invalid::Width(v) => seq![
            Piece::Text("world.width must be positive, got "),
            Piece::Number(v),
        ],
        Invalid::Height(v) => seq![
            Piece::Text("world.height must be positive, got "),
            Piece::Number(v),
        ],
        Invalid::Depth(v) => seq![
            Piece::Text("world.depth must be positive, got "),
            Piece::Number(v),
        ],
        Invalid::Ratio(v) => seq![
            Piece::Text("fluid.smoothing_radius must be at least 1.5x fluid.spacing (got "),
            Piece::Fixed(v, 2),
            Piece::Text("x); the tuned ratio is 2.4x"),
        ],
        Invalid::BlockTooBig(r) => seq![
            Piece::Text("the starting block does not fit in the world: "),
            Piece::Count(r.block_x),
            Piece::Text("x"),
            Piece::Count(r.block_y),
            Piece::Text("x"),
            Piece::Count(r.block_z),
            Piece::Text(" particles at spacing "),
            Piece::Number(r.spacing),
            Piece::Text(" needs a "),
            Piece::Fixed(r.needs_x, 0),
            Piece::Text("x"),
            Piece::Fixed(r.needs_y, 0),
            Piece::Text("x"),
            Piece::Fixed(r.needs_z, 0),
            Piece::Text(" box, but world is "),
            Piece::Fixed(r.width, 0),
            Piece::Text("x"),
            Piece::Fixed(r.height, 0),
            Piece::Text("x"),
            Piece::Fixed(r.depth, 0),
            Piece::Text(". At this spacing the box holds at most "),
            Piece::Count(r.max_x),
            Piece::Text("x"),
            Piece::Count(r.max_y),
            Piece::Text("x"),
            Piece::Count(r.max_z),
            Piece::Text(" ("),
            Piece::Product(r.max_x, r.max_y, r.max_z),
            Piece::Text(" particles); either lower fluid.block, lower fluid.spacing, or raise world.width/world.height/world.depth"),
        ],
        Invalid::Gravity => seq![Piece::Text("world.gravity must be finite")],
        Invalid::WaterDepth => seq![Piece::Text("wave.water_depth must be finite and nonnegative")],
        Invalid::ReefHeight => seq![Piece::Text("wave.reef_height must be finite and nonnegative")],
        Invalid::ReefStart => seq![Piece::Text("wave.reef_start must be finite and nonnegative")],
        Invalid::ReefWidth => seq![Piece::Text("wave.reef_width must be finite and nonnegative")],
        Invalid::BeachWidth => seq![Piece::Text("wave.beach_width must be finite and nonnegative")],
        Invalid::ReefSkew => seq![Piece::Text("wave.reef_skew must be finite and in [-1, 1]")],
        Invalid::Upward => seq![
            Piece::Text("the wave tank requires downward world.gravity = [0, -g, 0]"),
        ],
        Invalid::Direction => seq![
            Piece::Text("swell.direction must be in [-60, 60] degrees: 0 travels along +X toward the reef, positive toward +Z"),
        ],
        Invalid::Period => seq![
            Piece::Text("swell.period must be finite and positive (simulation seconds)"),
        ],
        Invalid::SwellHeight => seq![
            Piece::Text("swell.height must be finite and nonnegative (crest-to-trough world units)"),
        ],
        Invalid::SwellUnresolved => seq![
            Piece::Text("swell.height must resolve at least three particle spacings; lower fluid.spacing and smoothing_radius together (or set height = 0 for still water)"),
        ],
        Invalid::ReefTooHigh => seq![
            Piece::Text("wave.water_depth must leave at least two particle layers above the reef"),
        ],
        Invalid::CrestTooHigh => seq![
            Piece::Text("world.height must fit wave.water_depth + 2 * swell.height + fluid.spacing to leave room for breaking crests"),
        ],
        Invalid::WavelengthUnresolved => seq![
            Piece::Text("swell.period is too short to resolve its wavelength; increase it or lower fluid.spacing"),
        ],
        Invalid::TooShallow(v) => seq![
            Piece::Text("deep-water swell needs wave.water_depth >= half its wavelength ("),
            Piece::Fixed(v, 1),
            Piece::Text("); increase depth or shorten swell.period"),
        ],
        Invalid::TooSteep => seq![
            Piece::Text("swell.height / wavelength must be <= 0.12 so the incoming swell does not already break offshore; lower height or increase period and depth"),
        ],
        Invalid::ReefTooNear => seq![
            Piece::Text("wave.reef_start must leave at least four particle spacings of deep water beyond the generation zone; increase world.width or reef_start, or shorten swell.period"),
        ],
        Invalid::RiseUnresolved => seq![
            Piece::Text("wave.reef_width must resolve at least two particle spacings"),
        ],
        Invalid::Beach => seq![
            Piece::Text("wave.beach_width must be in [0.1, 0.4] and start at least four spacings beyond the whole reef rise"),
        ],
        Invalid::TankTooNarrow => seq![
            Piece::Text("world.depth must resolve at least eight particle spacings"),
        ],
        Invalid::Iterations => seq![Piece::Text("solver.iterations must be at least 1")],
        Invalid::Substeps => seq![Piece::Text("solver.substeps must be at least 1")],
        Invalid::TooFast(r) => seq![
            Piece::Text("the fluid would move too far per solver step to stay stable (Courant number "),
            Piece::Fixed(r.courant, 2),
            Piece::Text(", limit "),
            Piece::Number(Single { bits: COURANT_LIMIT }),
            Piece::Text("): at spacing "),
            Piece::Number(r.spacing),
            Piece::Text(" the kernel radius is "),
            Piece::Fixed(r.smoothing_radius, 1),
            Piece::Text(" units, but the fluid is expected to peak near "),
            Piece::Fixed(r.peak, 0),
            Piece::Text(" units/s. Set solver.substeps = "),
            Piece::Count(r.required as usize),
            Piece::Text(" (currently "),
            Piece::Count(r.substeps as usize),
            Piece::Text("), or raise fluid.spacing, or lower world.gravity"),
        ],
        Invalid::JacobiRelax(v) => seq![
            Piece::Text("solver.jacobi_relax must be in (0, 0.55]; got "),
            Piece::Number(v),
            Piece::Text(". Values at or above 0.6 diverge for some iteration counts"),
        ],
        Invalid::Relaxation => seq![Piece::Text("solver.relaxation must be positive")],
        Invalid::WallFriction(v) => seq![
            Piece::Text("solver.wall_friction must be in [0, 1]; got "),
            Piece::Number(v),
        ],
        Invalid::ParticleScale => seq![Piece::Text("render.particle_scale must be positive")],
        Invalid::FoamSpeed => seq![Piece::Text("render.foam_speed must be positive")],
        Invalid::TimeScale => seq![Piece::Text("scene.time_scale must be in [0.05, 1]")],
        Invalid::ReplayAfter => seq![
            Piece::Text("scene.replay_after must be finite and nonnegative"),
        ],
        Invalid::SurfaceResolution => seq![
            Piece::Text("render.surface_resolution must be in [0.5, 2]"),
        ],
        Invalid::Background => seq![
            Piece::Text("render.background must contain finite colors in [0, 1]"),
        ],
        Invalid::DeepColor => seq![
            Piece::Text("render.deep_color must contain finite colors in [0, 1]"),
        ],
        Invalid::MidColor => seq![
            Piece::Text("render.mid_color must contain finite colors in [0, 1]"),
        ],
        Invalid::FoamColor => seq![
            Piece::Text("render.foam_color must contain finite colors in [0, 1]"),
        ],
        Invalid::TooManySamples => seq![
            Piece::Text("surface grid exceeds four million samples; raise render.surface_resolution or fluid.spacing"),
        ],
    }
}

impl Invalid {
    /// The message to show, piece by piece.
    pub fn message(&self) -> (message: Vec<Piece>)
        ensures
            message@ == message_of(*self),
    {
        let message: Vec<Piece> = match *self {
            Invalid::EmptyBlock => vec![
                Piece::Text("every axis of fluid.block must be at least 1"),
            ],
            Invalid::Spacing(v) => vec![
                Piece::Text("fluid.spacing must be positive, got "),
                Piece::Number(v),
            ],
            Invalid::Width(v) => vec![
                Piece::Text("world.width must be positive, got "),
                Piece::Number(v),
            ],
            Invalid::Height(v) => vec![
                Piece::Text("world.height must be positive, got "),
                Piece::Number(v),
            ],
            Invalid::Depth(v) => vec![
                Piece::Text("world.depth must be positive, got "),
                Piece::Number(v),
            ],
            Invalid::Ratio(v) => vec![
                Piece::Text("fluid.smoothing_radius must be at least 1.5x fluid.spacing (got "),
                Piece::Fixed(v, 2),
                Piece::Text("x); the tuned ratio is 2.4x"),
            ],
            Invalid::BlockTooBig(r) => vec![
                Piece::Text("the starting block does not fit in the world: "),
                Piece::Count(r.block_x),
                Piece::Text("x"),
                Piece::Count(r.block_y),
                Piece::Text("x"),
                Piece::Count(r.block_z),
                Piece::Text(" particles at spacing "),
                Piece::Number(r.spacing),
                Piece::Text(" needs a "),
                Piece::Fixed(r.needs_x, 0),
                Piece::Text("x"),
                Piece::Fixed(r.needs_y, 0),
                Piece::Text("x"),
                Piece::Fixed(r.needs_z, 0),
                Piece::Text(" box, but world is "),
                Piece::Fixed(r.width, 0),
                Piece::Text("x"),
                Piece::Fixed(r.height, 0),
                Piece::Text("x"),
                Piece::Fixed(r.depth, 0),
                Piece::Text(". At this spacing the box holds at most "),
                Piece::Count(r.max_x),
                Piece::Text("x"),
                Piece::Count(r.max_y),
                Piece::Text("x"),
                Piece::Count(r.max_z),
                Piece::Text(" ("),
                Piece::Product(r.max_x, r.max_y, r.max_z),
                Piece::Text(" particles); either lower fluid.block, lower fluid.spacing, or raise world.width/world.height/world.depth"),
            ],
            Invalid::Gravity => vec![Piece::Text("world.gravity must be finite")],
            Invalid::WaterDepth => vec![
                Piece::Text("wave.water_depth must be finite and nonnegative"),
            ],
            Invalid::ReefHeight => vec![
                Piece::Text("wave.reef_height must be finite and nonnegative"),
            ],
            Invalid::ReefStart => vec![
                Piece::Text("wave.reef_start must be finite and nonnegative"),
            ],
            Invalid::ReefWidth => vec![
                Piece::Text("wave.reef_width must be finite and nonnegative"),
            ],
            Invalid::BeachWidth => vec![
                Piece::Text("wave.beach_width must be finite and nonnegative"),
            ],
            Invalid::ReefSkew => vec![Piece::Text("wave.reef_skew must be finite and in [-1, 1]")],
            Invalid::Upward => vec![
                Piece::Text("the wave tank requires downward world.gravity = [0, -g, 0]"),
            ],
            Invalid::Direction => vec![
                Piece::Text("swell.direction must be in [-60, 60] degrees: 0 travels along +X toward the reef, positive toward +Z"),
            ],
            Invalid::Period => vec![
                Piece::Text("swell.period must be finite and positive (simulation seconds)"),
            ],
            Invalid::SwellHeight => vec![
                Piece::Text("swell.height must be finite and nonnegative (crest-to-trough world units)"),
            ],
            Invalid::SwellUnresolved => vec![
                Piece::Text("swell.height must resolve at least three particle spacings; lower fluid.spacing and smoothing_radius together (or set height = 0 for still water)"),
            ],
            Invalid::ReefTooHigh => vec![
                Piece::Text("wave.water_depth must leave at least two particle layers above the reef"),
            ],
            Invalid::CrestTooHigh => vec![
                Piece::Text("world.height must fit wave.water_depth + 2 * swell.height + fluid.spacing to leave room for breaking crests"),
            ],
            Invalid::WavelengthUnresolved => vec![
                Piece::Text("swell.period is too short to resolve its wavelength; increase it or lower fluid.spacing"),
            ],
            Invalid::TooShallow(v) => vec![
                Piece::Text("deep-water swell needs wave.water_depth >= half its wavelength ("),
                Piece::Fixed(v, 1),
                Piece::Text("); increase depth or shorten swell.period"),
            ],
            Invalid::TooSteep => vec![
                Piece::Text("swell.height / wavelength must be <= 0.12 so the incoming swell does not already break offshore; lower height or increase period and depth"),
            ],
            Invalid::ReefTooNear => vec![
                Piece::Text("wave.reef_start must leave at least four particle spacings of deep water beyond the generation zone; increase world.width or reef_start, or shorten swell.period"),
            ],
            Invalid::RiseUnresolved => vec![
                Piece::Text("wave.reef_width must resolve at least two particle spacings"),
            ],
            Invalid::Beach => vec![
                Piece::Text("wave.beach_width must be in [0.1, 0.4] and start at least four spacings beyond the whole reef rise"),
            ],
            Invalid::TankTooNarrow => vec![
                Piece::Text("world.depth must resolve at least eight particle spacings"),
            ],
            Invalid::Iterations => vec![Piece::Text("solver.iterations must be at least 1")],
            Invalid::Substeps => vec![Piece::Text("solver.substeps must be at least 1")],
            Invalid::TooFast(r) => vec![
                Piece::Text("the fluid would move too far per solver step to stay stable (Courant number "),
                Piece::Fixed(r.courant, 2),
                Piece::Text(", limit "),
                Piece::Number(Single { bits: COURANT_LIMIT }),
                Piece::Text("): at spacing "),
                Piece::Number(r.spacing),
                Piece::Text(" the kernel radius is "),
                Piece::Fixed(r.smoothing_radius, 1),
                Piece::Text(" units, but the fluid is expected to peak near "),
                Piece::Fixed(r.peak, 0),
                Piece::Text(" units/s. Set solver.substeps = "),
                Piece::Count(r.required as usize),
                Piece::Text(" (currently "),
                Piece::Count(r.substeps as usize),
                Piece::Text("), or raise fluid.spacing, or lower world.gravity"),
            ],
            Invalid::JacobiRelax(v) => vec![
                Piece::Text("solver.jacobi_relax must be in (0, 0.55]; got "),
                Piece::Number(v),
                Piece::Text(". Values at or above 0.6 diverge for some iteration counts"),
            ],
            Invalid::Relaxation => vec![Piece::Text("solver.relaxation must be positive")],
            Invalid::WallFriction(v) => vec![
                Piece::Text("solver.wall_friction must be in [0, 1]; got "),
                Piece::Number(v),
            ],
            Invalid::ParticleScale => vec![Piece::Text("render.particle_scale must be positive")],
            Invalid::FoamSpeed => vec![Piece::Text("render.foam_speed must be positive")],
            Invalid::TimeScale => vec![Piece::Text("scene.time_scale must be in [0.05, 1]")],
            Invalid::ReplayAfter => vec![
                Piece::Text("scene.replay_after must be finite and nonnegative"),
            ],
            Invalid::SurfaceResolution => vec![
                Piece::Text("render.surface_resolution must be in [0.5, 2]"),
            ],
            Invalid::Background => vec![
                Piece::Text("render.background must contain finite colors in [0, 1]"),
            ],
            Invalid::DeepColor => vec![
                Piece::Text("render.deep_color must contain finite colors in [0, 1]"),
            ],
            Invalid::MidColor => vec![
                Piece::Text("render.mid_color must contain finite colors in [0, 1]"),
            ],
            Invalid::FoamColor => vec![
                Piece::Text("render.foam_color must contain finite colors in [0, 1]"),
            ],
            Invalid::TooManySamples => vec![
                Piece::Text("surface grid exceeds four million samples; raise render.surface_resolution or fluid.spacing"),
            ],
        };
        assert(message@ =~= message_of(*self));
        message
    }
}

/// Not a number above zero that can be worked with.
pub open spec fn not_positive(v: Single) -> bool {
    !v.finite() || v.at_most(zero())
}

pub(crate) fn fails_positive(v: Single) -> (r: bool)
    ensures
        r == not_positive(v),
{
    !v.is_finite() || v.le(Single { bits: 0 })
}

/// Not a number from zero on that can be worked with.
pub open spec fn not_nonnegative(v: Single) -> bool {
    !v.finite() || v.below(zero())
}

pub(crate) fn fails_nonnegative(v: Single) -> (r: bool)
    ensures
        r == not_nonnegative(v),
{
    !v.is_finite() || v.lt(Single { bits: 0 })
}

/// Not a number between two others.
pub open spec fn not_in(v: Single, low: Single, high: Single) -> bool {
    !v.finite() || !v.within(low, high)
}

pub(crate) fn fails_range(v: Single, low: Single, high: Single) -> (r: bool)
    ensures
        r == not_in(v, low, high),
{
    !v.is_finite() || !v.is_within(low, high)
}

/// Not a colour.
pub open spec fn not_color(c: Rgb) -> bool {
    let one = Single { bits: UNITY };
    not_in(c.r, zero(), one) || not_in(c.g, zero(), one) || not_in(c.b, zero(), one)
}

fn fails_color(c: Rgb) -> (r: bool)
    ensures
        r == not_color(c),
{
    let (none, one) = (Single { bits: 0 }, Single { bits: UNITY });
    fails_range(c.r, none, one) || fails_range(c.g, none, one) || fails_range(c.b, none, one)
}

/// The block has more particles along some axis than there is room for.
pub open spec fn sticks_out(c: Config, m: Measures) -> bool {
    ||| c.fluid.block[0] > m.room_x.floor_as_usize()
    ||| c.fluid.block[1] > m.room_y.floor_as_usize()
    ||| c.fluid.block[2] > m.room_z.floor_as_usize()
}

pub open spec fn block_report(c: Config, m: Measures) -> BlockReport {
    BlockReport {
        block_x: c.fluid.block[0],
        block_y: c.fluid.block[1],
        block_z: c.fluid.block[2],
        spacing: c.fluid.spacing,
        needs_x: m.needs_x,
        needs_y: m.needs_y,
        needs_z: m.needs_z,
        width: c.world.width,
        height: c.world.height,
        depth: c.world.depth,
        max_x: m.room_x.floor_as_usize() as usize,
        max_y: m.room_y.floor_as_usize() as usize,
        max_z: m.room_z.floor_as_usize() as usize,
    }
}

/// Substeps that keep the fluid within its neighbour lists: the need rounded up,
/// and at least one.
pub open spec fn substeps_for(need: Single) -> int {
    if need.ceil_as_u32() < 1 {
        1
    } else {
        need.ceil_as_u32()
    }
}

pub open spec fn speed_report(c: Config, m: Measures) -> SpeedReport {
    SpeedReport {
        courant: m.courant,
        spacing: c.fluid.spacing,
        smoothing_radius: c.fluid.smoothing_radius,
        peak: m.peak,
        required: substeps_for(m.needed_substeps) as u32,
        substeps: c.solver.substeps,
    }
}

/// The checks on the block and the box, in order: whether each one fails, and
/// what it is refused with.
pub open spec fn fluid_checks(c: &Config, m: &Measures) -> Seq<(bool, Invalid)> {
    seq![
        (
            c.fluid.block[0] == 0 || c.fluid.block[1] == 0 || c.fluid.block[2] == 0,
            Invalid::EmptyBlock,
        ),
        (not_positive(c.fluid.spacing), Invalid::Spacing(c.fluid.spacing)),
        (not_positive(c.world.width), Invalid::Width(c.world.width)),
        (not_positive(c.world.height), Invalid::Height(c.world.height)),
        (not_positive(c.world.depth), Invalid::Depth(c.world.depth)),
        (!m.ratio.finite() || m.ratio.below(Single { bits: RATIO_LIMIT }), Invalid::Ratio(m.ratio)),
        (
            c.scene.scenario is DamBreak && sticks_out(*c, *m),
            Invalid::BlockTooBig(block_report(*c, *m)),
        ),
        (
            !c.world.gravity.x.finite()
                || !c.world.gravity.y.finite()
                || !c.world.gravity.z.finite(),
            Invalid::Gravity,
        ),
    ]
}

/// The checks on the solver and what is drawn, in order.
pub open spec fn solver_checks(c: &Config, m: &Measures) -> Seq<(bool, Invalid)> {
    seq![
        (c.solver.iterations == 0, Invalid::Iterations),
        (c.solver.substeps == 0, Invalid::Substeps),
        (
            !m.courant.at_most(Single { bits: COURANT_LIMIT }),
            Invalid::TooFast(speed_report(*c, *m)),
        ),
        (
            not_positive(c.solver.jacobi_relax)
                || (Single { bits: RELAX_LIMIT }).below(c.solver.jacobi_relax),
            Invalid::JacobiRelax(c.solver.jacobi_relax),
        ),
        (not_positive(c.solver.relaxation), Invalid::Relaxation),
        (
            not_in(c.solver.wall_friction, Single { bits: 0 }, Single { bits: UNITY }),
            Invalid::WallFriction(c.solver.wall_friction),
        ),
        (not_positive(c.render.particle_scale), Invalid::ParticleScale),
        (not_positive(c.render.foam_speed), Invalid::FoamSpeed),
        (
            not_in(c.scene.time_scale, Single { bits: SLOWEST }, Single { bits: UNITY }),
            Invalid::TimeScale,
        ),
        (not_nonnegative(c.scene.replay_after), Invalid::ReplayAfter),
        (
            not_in(c.render.surface_resolution, Single { bits: FINEST }, Single { bits: COARSEST }),
            Invalid::SurfaceResolution,
        ),
        (not_color(c.render.background), Invalid::Background),
        (not_color(c.render.deep_color), Invalid::DeepColor),
        (not_color(c.render.mid_color), Invalid::MidColor),
        (not_color(c.render.foam_color), Invalid::FoamColor),
        ((Single { bits: SAMPLE_LIMIT }).below(m.voxels), Invalid::TooManySamples),
    ]
}

/// All the checks, in order. Only a wave tank is checked for being one.
pub open spec fn checks(c: &Config, m: &Measures) -> Seq<(bool, Invalid)> {
    if c.scene.scenario is Wave {
        fluid_checks(c, m) + tank_checks(&c.wave, &c.swell, &c.world.gravity, &m.wave)
            + solver_checks(c, m)
    } else {
        fluid_checks(c, m) + solver_checks(c, m)
    }
}

/// No check of a list fails.
pub open spec fn passes(list: Seq<(bool, Invalid)>) -> bool {
    forall|k: int| 0 <= k < list.len() ==> !(#[trigger] list[k]).0
}

/// The first check of a list that fails is `k`.
pub open spec fn fails_first(list: Seq<(bool, Invalid)>, k: int) -> bool {
    &&& 0 <= k < list.len()
    &&& list[k].0
    &&& forall|j: int| 0 <= j < k ==> !(#[trigger] list[j]).0
}

/// The verdict on a list of checks: accepted if none fails, and otherwise refused
/// for the first one that does.
pub open spec fn judged(list: Seq<(bool, Invalid)>, r: Result<(), Invalid>) -> bool {
    &&& r is Ok <==> passes(list)
    &&& r is Err ==> exists|k: int| #[trigger] fails_first(list, k) && list[k].1 == r->Err_0
}

/// No check fails.
pub open spec fn accepted(c: &Config, m: &Measures) -> bool {
    passes(checks(c, m))
}

/// Judges a list of checks.
pub(crate) fn judge(list: &Vec<(bool, Invalid)>) -> (r: Result<(), Invalid>)
    ensures
        judged(list@, r),
{
    let mut k: usize = 0;
    while k < list.len()
        invariant
            k <= list@.len(),
            forall|j: int| 0 <= j < k ==> !(#[trigger] list@[j]).0,
        decreases list@.len() - k,
    {
        let (failed, invalid) = list[k];
        if failed {
            assert(fails_first(list@, k as int));
            return Err(invalid);
        }
        k += 1;
    }
    Ok(())
}

/// What a list is refused for, it is refused for with more checks after it.
proof fn lemma_refused_before(
    a: Seq<(bool, Invalid)>,
    b: Seq<(bool, Invalid)>,
    r: Result<(),
    Invalid>,
)
    requires
        judged(a, r),
        r is Err,
    ensures
        judged(a + b, r),
{
    let k = choose|k: int| #[trigger] fails_first(a, k) && a[k].1 == r->Err_0;
    assert((a + b)[k] == a[k]);
    assert forall|j: int| 0 <= j < k implies !(#[trigger] (a + b)[j]).0 by {
        assert((a + b)[j] == a[j]);
    }
    assert(fails_first(a + b, k));
}

/// After checks that pass, the verdict is that on the checks after them.
proof fn lemma_judged_after(
    a: Seq<(bool, Invalid)>,
    b: Seq<(bool, Invalid)>,
    r: Result<(),
    Invalid>,
)
    requires
        passes(a),
        judged(b, r),
    ensures
        judged(a + b, r),
{
    let all = a + b;
    if r is Err {
        let k = choose|k: int| #[trigger] fails_first(b, k) && b[k].1 == r->Err_0;
        assert(all[a.len() + k] == b[k]);
        assert forall|j: int| 0 <= j < a.len() + k implies !(#[trigger] all[j]).0 by {
            if j < a.len() {
                assert(all[j] == a[j]);
            } else {
                assert(all[j] == b[j - a.len()]);
            }
        }
        assert(fails_first(all, a.len() + k));
    } else {
        assert forall|j: int| 0 <= j < all.len() implies !(#[trigger] all[j]).0 by {
            if j < a.len() {
                assert(all[j] == a[j]);
            } else {
                assert(all[j] == b[j - a.len()]);
            }
        }
    }
}

fn check_fluid(c: &Config, m: &Measures) -> (list: Vec<(bool, Invalid)>)
    ensures
        list@ == fluid_checks(c, m),
{
    let max: [usize; 3] = c.max_block(m);
    let dam_break: bool = match c.scene.scenario {
        Scenario::DamBreak => true,
        Scenario::Wave => false,
    };
    let overfull: bool = c.fluid.block[0] > max[0] || c.fluid.block[1] > max[1] || c.fluid.block[2]
        > max[2];
    let report = BlockReport {
        block_x: c.fluid.block[0],
        block_y: c.fluid.block[1],
        block_z: c.fluid.block[2],
        spacing: c.fluid.spacing,
        needs_x: m.needs_x,
        needs_y: m.needs_y,
        needs_z: m.needs_z,
        width: c.world.width,
        height: c.world.height,
        depth: c.world.depth,
        max_x: max[0],
        max_y: max[1],
        max_z: max[2],
    };
    let list: Vec<(bool, Invalid)> = vec![
        (
            c.fluid.block[0] == 0 || c.fluid.block[1] == 0 || c.fluid.block[2] == 0,
            Invalid::EmptyBlock,
        ),
        (fails_positive(c.fluid.spacing), Invalid::Spacing(c.fluid.spacing)),
        (fails_positive(c.world.width), Invalid::Width(c.world.width)),
        (fails_positive(c.world.height), Invalid::Height(c.world.height)),
        (fails_positive(c.world.depth), Invalid::Depth(c.world.depth)),
        (!m.ratio.is_finite() || m.ratio.lt(Single { bits: RATIO_LIMIT }), Invalid::Ratio(m.ratio)),
        (dam_break && overfull, Invalid::BlockTooBig(report)),
        (!c.world.gravity.x.is_finite() || !c.world.gravity.y.is_finite()
                || !c.world.gravity.z.is_finite(), Invalid::Gravity),
    ];
    assert(list@ =~= fluid_checks(c, m));
    list
}

fn check_solver(c: &Config, m: &Measures) -> (list: Vec<(bool, Invalid)>)
    ensures
        list@ == solver_checks(c, m),
{
    let speed = SpeedReport {
        courant: m.courant,
        spacing: c.fluid.spacing,
        smoothing_radius: c.fluid.smoothing_radius,
        peak: m.peak,
        required: c.required_substeps(m),
        substeps: c.solver.substeps,
    };
    let list: Vec<(bool, Invalid)> = vec![
        (c.solver.iterations == 0, Invalid::Iterations),
        (c.solver.substeps == 0, Invalid::Substeps),
        (!m.courant.le(Single { bits: COURANT_LIMIT }), Invalid::TooFast(speed)),
        (
            fails_positive(c.solver.jacobi_relax)
                || c.solver.jacobi_relax.gt(Single { bits: RELAX_LIMIT }),
            Invalid::JacobiRelax(c.solver.jacobi_relax),
        ),
        (fails_positive(c.solver.relaxation), Invalid::Relaxation),
        (
            fails_range(c.solver.wall_friction, Single { bits: 0 }, Single { bits: UNITY }),
            Invalid::WallFriction(c.solver.wall_friction),
        ),
        (fails_positive(c.render.particle_scale), Invalid::ParticleScale),
        (fails_positive(c.render.foam_speed), Invalid::FoamSpeed),
        (
            fails_range(c.scene.time_scale, Single { bits: SLOWEST }, Single { bits: UNITY }),
            Invalid::TimeScale,
        ),
        (fails_nonnegative(c.scene.replay_after), Invalid::ReplayAfter),
        (
            fails_range(
                c.render.surface_resolution,
                Single { bits: FINEST },
                Single { bits: COARSEST },
            ),
            Invalid::SurfaceResolution,
        ),
        (fails_color(c.render.background), Invalid::Background),
        (fails_color(c.render.deep_color), Invalid::DeepColor),
        (fails_color(c.render.mid_color), Invalid::MidColor),
        (fails_color(c.render.foam_color), Invalid::FoamColor),
        (m.voxels.gt(Single { bits: SAMPLE_LIMIT }), Invalid::TooManySamples),
    ];
    assert(list@ =~= solver_checks(c, m));
    list
}

/// The places that a scene starts with: a dam break has its block's, and a wave
/// tank those of the largest block that `wet` says are under water.
pub open spec fn refills<F: Fn(Site) -> bool>(
    c: Config,
    m: Measures,
    wet: F,
    sites: Seq<Site>,
) -> bool {
    match c.scene.scenario {
        Scenario::DamBreak => {
            &&& sites.len() == crate::sim::block_size(c.fluid.block)
            &&& forall|k: int|
                0 <= k < sites.len() ==> #[trigger] sites[k] == crate::sim::site(
                    c.fluid.block[0] as int,
                    c.fluid.block[2] as int,
                    k,
                )
        },
        Scenario::Wave => crate::sim::floods(
            wet,
            m.room_x.floor_as_usize(),
            m.room_z.floor_as_usize(),
            m.room_x.floor_as_usize() * m.room_z.floor_as_usize() * m.room_y.floor_as_usize(),
            sites,
        ),
    }
}

/// A reset repeats itself, in either scene and whatever was done with the water in
/// between: where a place is either under water or not, the particles start at
/// the same places every time, at the same positions however those follow from
/// the places, as still, and at the same time.
pub proof fn lemma_reset_repeats<F: Fn(Site) -> bool>(
    c: Config,
    m: Measures,
    wet: F,
    first: Start,
    again: Start,
    placed: spec_fn(Site) -> Point,
)
    requires
        forall|s: Site, a: bool, b: bool|
            #[trigger] call_ensures(wet, (s,), a) && #[trigger] call_ensures(wet, (s,), b) ==> a
                == b,
        refills(c, m, wet, first.sites@),
        first.at_rest(),
        refills(c, m, wet, again.sites@),
        again.at_rest(),
    ensures
        first.sites@ == again.sites@,
        first.sites@.map_values(placed) == again.sites@.map_values(placed),
        first.vel@ == again.vel@,
        first.foam@ == again.foam@,
        first.spray@ == again.spray@,
        first.elapsed == again.elapsed,
{
    match c.scene.scenario {
        Scenario::DamBreak => {
            assert(first.sites@ =~= again.sites@);
        },
        Scenario::Wave => {
            let (x, z) = (m.room_x.floor_as_usize(), m.room_z.floor_as_usize());
            let n = x * z * m.room_y.floor_as_usize();
            crate::sim::lemma_refill_repeats(wet, x, z, n, first.sites@, again.sites@);
        },
    }
}

impl Config {
    /// Checks the invariants the solver relies on: the first setting that breaks
    /// one is what the config is refused for.
    pub fn validate(&self, m: &Measures) -> (r: Result<(), Invalid>)
        ensures
            judged(checks(self, m), r),
            r is Ok <==> accepted(self, m),
    {
        let first: Vec<(bool, Invalid)> = check_fluid(self, m);
        let last: Vec<(bool, Invalid)> = check_solver(self, m);
        let ghost tank = tank_checks(&self.wave, &self.swell, &self.world.gravity, &m.wave);
        let fluid: Result<(), Invalid> = judge(&first);
        if fluid.is_err() {
            proof {
                lemma_refused_before(first@, last@, fluid);
                lemma_refused_before(first@, tank, fluid);
                lemma_refused_before(first@ + tank, last@, fluid);
            }
            return fluid;
        }
        if self.scene.scenario == Scenario::Wave {
            let wave: Result<(), Invalid> = self.wave.validate(
                self.swell,
                self.world.gravity,
                &m.wave,
            );
            proof {
                lemma_judged_after(first@, tank, wave);
            }
            if wave.is_err() {
                proof {
                    lemma_refused_before(first@ + tank, last@, wave);
                }
                return wave;
            }
        }
        let solver: Result<(), Invalid> = judge(&last);
        proof {
            lemma_judged_after(first@, last@, solver);
            if self.scene.scenario is Wave {
                lemma_judged_after(first@ + tank, last@, solver);
            }
        }
        solver
    }

    /// Substeps needed to keep the Courant number under the safe limit.
    pub fn required_substeps(&self, m: &Measures) -> (substeps: u32)
        ensures
            substeps == substeps_for(m.needed_substeps),
            substeps >= 1,
            substeps == if m.needed_substeps.ceil_as_u32() >= 1 {
                m.needed_substeps.ceil_as_u32()
            } else {
                1
            },
    {
        let substeps: u32 = m.needed_substeps.ceil_u32();
        if substeps < 1 {
            1
        } else {
            substeps
        }
    }

    /// Largest starting block that fits inside the bounds.
    pub fn max_block(&self, m: &Measures) -> (max: [usize; 3])
        ensures
            max[0] == m.room_x.floor_as_usize(),
            max[1] == m.room_y.floor_as_usize(),
            max[2] == m.room_z.floor_as_usize(),
    {
        [m.room_x.floor_usize(), m.room_y.floor_usize(), m.room_z.floor_usize()]
    }

    /// Particles in the starting block.
    pub fn particle_count(&self) -> (n: usize)
        requires
            crate::sim::block_size(self.fluid.block) <= usize::MAX,
        ensures
            n == crate::sim::block_size(self.fluid.block),
            n == self.fluid.block[0] * self.fluid.block[1] * self.fluid.block[2],
    {
        let (x, y, z) = (self.fluid.block[0], self.fluid.block[1], self.fluid.block[2]);
        proof {
            assert(x * z * y == x * y * z) by (nonlinear_arith);
        }
        if x == 0 || y == 0 || z == 0 {
            proof {
                assert(x * z * y == 0) by (nonlinear_arith)
                    requires
                        x == 0 || y == 0 || z == 0,
                ;
            }
            return 0;
        }
        proof {
            assert(x * z <= x * z * y) by (nonlinear_arith)
                requires
                    x >= 1,
                    y >= 1,
                    z >= 1,
            ;
        }
        x * z * y
    }

    /// The solver's tunables, for a box with these bounds.
    pub fn fluid_params(&self, bounds: Bounds) -> (params: FluidParams)
        ensures
            params == (FluidParams {
                smoothing_radius: self.fluid.smoothing_radius,
                spacing: self.fluid.spacing,
                iterations: self.solver.iterations,
                substeps: self.solver.substeps,
                relaxation: self.solver.relaxation,
                viscosity: self.solver.viscosity,
                tensile_k: self.solver.tensile_k,
                tensile_q: self.solver.tensile_q,
                tensile_n: self.solver.tensile_n,
                clamp_constraint: self.solver.clamp_constraint,
                gravity: self.world.gravity,
                jacobi_relax: self.solver.jacobi_relax,
                wall_friction: self.solver.wall_friction,
                bounds,
            }),
    {
        FluidParams {
            smoothing_radius: self.fluid.smoothing_radius,
            spacing: self.fluid.spacing,
            iterations: self.solver.iterations,
            substeps: self.solver.substeps,
            relaxation: self.solver.relaxation,
            viscosity: self.solver.viscosity,
            tensile_k: self.solver.tensile_k,
            tensile_q: self.solver.tensile_q,
            tensile_n: self.solver.tensile_n,
            clamp_constraint: self.solver.clamp_constraint,
            gravity: self.world.gravity,
            jacobi_relax: self.solver.jacobi_relax,
            wall_friction: self.solver.wall_friction,
            bounds,
        }
    }

    /// Fills the tank for the scene, with gravity as it was set.
    pub fn reset_fluid<F: Fn(Site) -> bool>(
        &self,
        fluid: &mut Fluid,
        m: &Measures,
        wet: F,
    ) -> (start: Start)
        requires
            old(fluid).wf(),
            self.scene.scenario is DamBreak ==> crate::sim::block_size(self.fluid.block)
                <= usize::MAX,
            self.scene.scenario is Wave ==> m.room_x.floor_as_usize() * m.room_z.floor_as_usize()
                * m.room_y.floor_as_usize() <= usize::MAX,
            forall|s: Site| call_requires(wet, (s,)),
        ensures
            final(fluid).wf(),
            !final(fluid).lists_valid(),
            final(fluid).grid == old(fluid).grid,
            final(fluid).count == start.sites@.len(),
            final(fluid).params == (FluidParams {
                gravity: self.world.gravity,
                ..old(fluid).params
            }),
            final(fluid).generation == (if old(fluid).generation == u64::MAX {
                0
            } else {
                old(fluid).generation + 1
            }),
            refills(*self, *m, wet, start.sites@),
            start.at_rest(),
    {
        fluid.set_gravity(self.world.gravity);
        let max: [usize; 3] = self.max_block(m);
        match self.scene.scenario {
            Scenario::Wave => fluid.fill_wave(max, wet),
            Scenario::DamBreak => fluid.fill_block(self.fluid.block),
        }
    }
}

/// No check of any part fails.
proof fn lemma_accepted_parts(c: &Config, m: &Measures)
    requires
        accepted(c, m),
    ensures
        passes(fluid_checks(c, m)),
        c.scene.scenario is Wave ==> {
            &&& passes(wave_checks(&c.wave, &c.swell, &c.world.gravity))
            &&& passes(tank_checks(&c.wave, &c.swell, &c.world.gravity, &m.wave))
        },
        passes(solver_checks(c, m)),
{
    let (a, d) = (fluid_checks(c, m), solver_checks(c, m));
    let b = wave_checks(&c.wave, &c.swell, &c.world.gravity);
    let all = checks(c, m);
    assert forall|k: int| 0 <= k < a.len() implies !(#[trigger] a[k]).0 by {
        assert(all[k] == a[k]);
    }
    if c.scene.scenario is Wave {
        let tank = tank_checks(&c.wave, &c.swell, &c.world.gravity, &m.wave);
        assert forall|k: int| 0 <= k < tank.len() implies !(#[trigger] tank[k]).0 by {
            assert(all[a.len() + k] == tank[k]);
        }
        assert forall|k: int| 0 <= k < b.len() implies !(#[trigger] b[k]).0 by {
            assert(tank[k] == b[k]);
        }
    }
    assert forall|k: int| 0 <= k < d.len() implies !(#[trigger] d[k]).0 by {
        assert(all[all.len() - d.len() + k] == d[k]);
    }
}

/// A number that is not finite never gets past validation: of an accepted config
/// the lengths, the gravity and the solver's weights are all finite, and so are
/// the playback, the colours and, in the wave tank, its own settings.
#[verifier::spinoff_prover]
pub proof fn lemma_accepted_is_finite(c: &Config, m: &Measures)
    requires
        accepted(c, m),
    ensures
        c.fluid.spacing.finite(),
        c.world.width.finite(),
        c.world.height.finite(),
        c.world.depth.finite(),
        c.world.gravity.x.finite(),
        c.world.gravity.y.finite(),
        c.world.gravity.z.finite(),
        c.solver.jacobi_relax.finite(),
        c.solver.relaxation.finite(),
        c.solver.wall_friction.finite(),
        c.render.particle_scale.finite(),
        c.render.foam_speed.finite(),
        c.render.surface_resolution.finite(),
        c.scene.time_scale.finite(),
        c.scene.replay_after.finite(),
        !not_color(c.render.background),
        !not_color(c.render.deep_color),
        !not_color(c.render.mid_color),
        !not_color(c.render.foam_color),
        c.scene.scenario is Wave ==> {
            &&& c.wave.water_depth.finite()
            &&& c.wave.reef_height.finite()
            &&& c.wave.reef_start.finite()
            &&& c.wave.reef_width.finite()
            &&& c.wave.reef_skew.finite()
            &&& c.wave.beach_width.finite()
            &&& c.swell.direction.finite()
            &&& c.swell.height.finite()
            &&& endless(c.swell) ==> c.swell.period.finite()
        },
{
    lemma_accepted_parts(c, m);
    let (a, d) = (fluid_checks(c, m), solver_checks(c, m));
    let b = wave_checks(&c.wave, &c.swell, &c.world.gravity);
    assert(!a[1].0);
    assert(!a[2].0);
    assert(!a[3].0);
    assert(!a[4].0);
    assert(!a[7].0);
    if c.scene.scenario is Wave {
        assert(!b[0].0);
        assert(!b[1].0);
        assert(!b[2].0);
        assert(!b[3].0);
        assert(!b[4].0);
        assert(!b[5].0);
        assert(!b[7].0);
        assert(!b[8].0);
        assert(!b[9].0);
    }
    assert(!d[3].0);
    assert(!d[4].0);
    assert(!d[5].0);
    assert(!d[6].0);
    assert(!d[7].0);
    assert(!d[8].0);
    assert(!d[9].0);
    assert(!d[10].0);
    assert(!d[11].0);
    assert(!d[12].0);
    assert(!d[13].0);
    assert(!d[14].0);
}

/// What the checks on the block and the box leave of them.
#[verifier::spinoff_prover]
proof fn lemma_passing_fluid(c: &Config, m: &Measures)
    requires
        passes(fluid_checks(c, m)),
    ensures
        c.fluid.block[0] >= 1 && c.fluid.block[1] >= 1 && c.fluid.block[2] >= 1,
        !not_positive(c.fluid.spacing),
        !not_positive(c.world.width),
        !not_positive(c.world.height),
        !not_positive(c.world.depth),
        m.ratio.finite() && (Single { bits: RATIO_LIMIT }).at_most(m.ratio),
        c.world.gravity.x.finite() && c.world.gravity.y.finite() && c.world.gravity.z.finite(),
        c.scene.scenario is DamBreak ==> !sticks_out(*c, *m),
{
    let a = fluid_checks(c, m);
    assert(!a[0].0);
    assert(!a[1].0);
    assert(!a[2].0);
    assert(!a[3].0);
    assert(!a[4].0);
    assert(!a[5].0);
    assert(!a[6].0);
    assert(!a[7].0);
}

/// What the checks on the solver leave of it.
#[verifier::spinoff_prover]
proof fn lemma_passing_solver(c: &Config, m: &Measures)
    requires
        passes(solver_checks(c, m)),
    ensures
        c.solver.iterations >= 1,
        c.solver.substeps >= 1,
        m.courant.at_most(Single { bits: COURANT_LIMIT }),
        !not_positive(c.solver.jacobi_relax),
        c.solver.jacobi_relax.at_most(Single { bits: RELAX_LIMIT }),
{
    let d = solver_checks(c, m);
    assert(!d[0].0);
    assert(!d[1].0);
    assert(!d[2].0);
    assert(!d[3].0);
}

/// What the solver relies on holds of an accepted config: there is water in a box
/// with sides, it has a positive spacing and sees enough neighbours, gravity is
/// finite, its block fits or its tank passes the tank's own checks, it takes at
/// least one iteration of one substep, it does not outrun its neighbour lists,
/// and its corrections do not diverge.
pub proof fn lemma_accepted_is_solvable(c: &Config, m: &Measures)
    requires
        accepted(c, m),
    ensures
        c.fluid.block[0] >= 1 && c.fluid.block[1] >= 1 && c.fluid.block[2] >= 1,
        c.fluid.spacing.finite() && zero().below(c.fluid.spacing),
        c.world.width.finite() && zero().below(c.world.width),
        c.world.height.finite() && zero().below(c.world.height),
        c.world.depth.finite() && zero().below(c.world.depth),
        m.ratio.finite() && (Single { bits: RATIO_LIMIT }).at_most(m.ratio),
        c.world.gravity.x.finite() && c.world.gravity.y.finite() && c.world.gravity.z.finite(),
        c.scene.scenario is DamBreak ==> {
            &&& c.fluid.block[0] <= m.room_x.floor_as_usize()
            &&& c.fluid.block[1] <= m.room_y.floor_as_usize()
            &&& c.fluid.block[2] <= m.room_z.floor_as_usize()
        },
        c.scene.scenario is Wave ==> passes(
            tank_checks(&c.wave, &c.swell, &c.world.gravity, &m.wave),
        ),
        c.solver.iterations >= 1,
        c.solver.substeps >= 1,
        m.courant.at_most(Single { bits: COURANT_LIMIT }),
        zero().below(c.solver.jacobi_relax),
        c.solver.jacobi_relax.at_most(Single { bits: RELAX_LIMIT }),
{
    lemma_accepted_parts(c, m);
    lemma_passing_fluid(c, m);
    lemma_passing_solver(c, m);
}

/// The number of substeps that a refusal asks for is enough: no fewer than were
/// needed, as far as it can be counted.
pub proof fn lemma_required_substeps_suffice(need: Single)
    requires
        !need.nan(),
        !need.is_negative(),
        need.ceiling() <= u32::MAX,
    ensures
        crate::single::quanta(need.magnitude()) <= substeps_for(need)
            * crate::single::one_in_quanta(),
{
    let (q, one) = (crate::single::quanta(need.magnitude()), crate::single::one_in_quanta());
    vstd::arithmetic::power2::lemma_pow2_pos(149);
    crate::num::lemma_ceil_div(q, one);
    let (c, s) = (need.ceiling(), substeps_for(need));
    assert(c * one <= s * one) by (nonlinear_arith)
        requires
            c <= s,
            one > 0,
    ;
}

/// And it is the least that is: with one fewer, the fluid would still move too
/// far.
pub proof fn lemma_required_substeps_are_least(need: Single)
    requires
        !need.nan(),
        !need.is_negative(),
        substeps_for(need) > 1,
    ensures
        (substeps_for(need) - 1) * crate::single::one_in_quanta() < crate::single::quanta(
            need.magnitude(),
        ),
{
    let (q, one) = (crate::single::quanta(need.magnitude()), crate::single::one_in_quanta());
    vstd::arithmetic::power2::lemma_pow2_pos(149);
    crate::single::lemma_quanta_increases(need.magnitude(), need.magnitude() + 1);
    crate::num::lemma_ceil_div(q, one);
    let (c, s) = (need.ceiling(), substeps_for(need));
    assert((s - 1) * one <= (c - 1) * one) by (nonlinear_arith)
        requires
            s <= c,
            one > 0,
    ;
}

/// The need handed over is the Courant number of a single substep over its
/// limit, give or take `error` quanta for the rounding of the division.
pub open spec fn need_within(need: Single, single: Single, error: int) -> bool {
    let limit = (Single { bits: COURANT_LIMIT }).rank();
    let one = crate::single::one_in_quanta();
    -error * limit <= need.rank() * limit - single.rank() * one <= error * limit
}

/// Setting the substeps that a refusal asks for cures it, and no fewer do: shared
/// among that many, the Courant number of a single substep comes within the
/// limit, and shared among one fewer it does not, up to the rounding of the need.
pub proof fn lemma_required_substeps_cure(need: Single, single: Single, error: int)
    requires
        !need.nan(),
        !need.is_negative(),
        need.ceiling() <= u32::MAX,
        need_within(need, single, error),
    ensures
        ({
            let limit = (Single { bits: COURANT_LIMIT }).rank();
            let one = crate::single::one_in_quanta();
            let n = substeps_for(need);
            &&& single.rank() * one <= (n * one + error) * limit
            &&& n > 1 ==> single.rank() * one > ((n - 1) * one - error) * limit
        }),
{
    let l = Single { bits: COURANT_LIMIT };
    let (limit, one) = (l.rank(), crate::single::one_in_quanta());
    let (q, n) = (need.rank(), substeps_for(need));
    crate::single::lemma_quanta_increases(0, l.magnitude());
    lemma_required_substeps_suffice(need);
    let (whole, less, e) = (n * one, (n - 1) * one, error);
    assert(q * limit <= whole * limit) by (nonlinear_arith)
        requires
            q <= whole,
            limit > 0,
    ;
    assert((whole + e) * limit == whole * limit + e * limit) by (nonlinear_arith);
    if n > 1 {
        lemma_required_substeps_are_least(need);
        assert(less * limit < q * limit) by (nonlinear_arith)
            requires
                less < q,
                limit > 0,
        ;
        assert((less - e) * limit == less * limit - e * limit) by (nonlinear_arith);
    }
    assert(-e * limit == -(e * limit)) by (nonlinear_arith);
}

/// The largest block passes the check on its size, and a block with one more
/// particle along any axis is refused.
pub proof fn lemma_max_block_is_largest(
    largest: &Config,
    larger: &Config,
    m: &Measures,
    axis: int,
    verdict: Result<(), Invalid>,
)
    requires
        largest.scene.scenario is DamBreak,
        largest.fluid.block[0] == m.room_x.floor_as_usize(),
        largest.fluid.block[1] == m.room_y.floor_as_usize(),
        largest.fluid.block[2] == m.room_z.floor_as_usize(),
        larger.scene.scenario is DamBreak,
        0 <= axis < 3,
        forall|k: int|
            0 <= k < 3 ==> #[trigger] larger.fluid.block[k] == largest.fluid.block[k] + if k
                == axis {
                1int
            } else {
                0int
            },
        judged(checks(larger, m), verdict),
    ensures
        !sticks_out(*largest, *m),
        !fluid_checks(largest, m)[6].0,
        sticks_out(*larger, *m),
        verdict is Err,
{
    assert(larger.fluid.block[axis] > largest.fluid.block[axis]);
    assert(checks(larger, m)[6] == fluid_checks(larger, m)[6]);
    assert(checks(larger, m)[6].0);
}

/// The room handed over is a length of the box in spacings, less so many half
/// spacings of slack, give or take `error` quanta for its rounding.
pub open spec fn room_within(
    room: Single,
    extent: Single,
    spacing: Single,
    slack: int,
    error: int,
) -> bool {
    let (d, one) = (spacing.rank(), crate::single::one_in_quanta());
    -error * d <= 2 * room.rank() * d - (2 * extent.rank() - slack * d) * one <= error * d
}

/// The particles along an axis of the largest block are as many as there is room
/// for: with the slack, they take no more than the box's length, and one more
/// would, up to the rounding of the room. The slack is a half spacing on the
/// height and a whole one where rows are staggered.
pub proof fn lemma_room_is_filled(
    room: Single,
    extent: Single,
    spacing: Single,
    slack: int,
    error: int,
)
    requires
        !room.nan(),
        !room.is_negative(),
        room.whole() <= usize::MAX,
        zero().below(spacing),
        room_within(room, extent, spacing, slack, error),
    ensures
        ({
            let (n, d, one) = (
                room.floor_as_usize(),
                spacing.rank(),
                crate::single::one_in_quanta(),
            );
            &&& (2 * n + slack) * d * one <= 2 * extent.rank() * one + error * d
            &&& (2 * (n + 1) + slack) * d * one > 2 * extent.rank() * one - error * d
        }),
{
    let (n, d, one) = (room.floor_as_usize(), spacing.rank(), crate::single::one_in_quanta());
    let (r, e, s) = (room.rank(), extent.rank(), slack);
    crate::single::lemma_quanta_increases(0, 1);
    vstd::arithmetic::power2::lemma_pow2_pos(149);
    vstd::arithmetic::div_mod::lemma_fundamental_div_mod(r, one);
    vstd::arithmetic::div_mod::lemma_mod_bound(r, one);
    assert(n * one == one * n) by (nonlinear_arith);
    assert((n + 1) * one == n * one + one) by (nonlinear_arith);
    let (low, high) = (n * one, (n + 1) * one);
    assert(low <= r < high);
    assert(2 * low * d <= 2 * r * d < 2 * high * d) by (nonlinear_arith)
        requires
            low <= r < high,
            d > 0,
    ;
    assert((2 * n + s) * d * one == 2 * (n * one) * d + s * d * one) by (nonlinear_arith);
    assert((2 * (n + 1) + s) * d * one == 2 * ((n + 1) * one) * d + s * d * one)
        by (nonlinear_arith);
    assert((2 * e - s * d) * one == 2 * e * one - s * d * one) by (nonlinear_arith);
    assert(-error * d == -(error * d)) by (nonlinear_arith);
}

} // verus!
