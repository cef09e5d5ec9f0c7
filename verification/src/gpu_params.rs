//! The solver's parameters as the shader reads them: vectors of four first, then
//! scalars, so nothing is padded implicitly on either side.
use vstd::prelude::*;
use crate::sim::FluidParams;
use crate::single::{zero, Point, Single};
use crate::wave::Wave;

verus! {

pub const WAVE: u32 = 1;

pub const SINGLE: u32 = 2;

pub const CLAMP: u32 = 4;

pub const MAKER: u32 = 8;

/// The bits of one.
pub const ONE: u32 = 0x3f80_0000;

/// Four numbers side by side.
#[derive(Clone, Copy, PartialEq, Eq, Structural, Debug)]
pub struct Quad {
    pub x: Single,
    pub y: Single,
    pub z: Single,
    pub w: Single,
}

/// A point and a fourth number.
pub open spec fn extended(p: Point, w: Single) -> Quad {
    Quad { x: p.x, y: p.y, z: p.z, w }
}

pub fn extend(p: Point, w: Single) -> (q: Quad)
    ensures
        q == extended(p, w),
{
    Quad { x: p.x, y: p.y, z: p.z, w }
}

fn flat(p: Point) -> (q: Quad)
    ensures
        q == extended(p, zero()),
{
    extend(p, Single { bits: 0 })
}

/// What the shader reads.
#[derive(Clone, Copy, PartialEq, Eq, Structural, Debug)]
pub struct GpuParams {
    pub bounds_min: Quad,
    pub bounds_max: Quad,
    pub bounds_size: Quad,
    pub wall_min: Quad,
    pub wall_max: Quad,
    pub gravity: Quad,
    pub grid_origin: Quad,
    pub direction: Quad,
    pub impulse: Quad,
    pub ray: Quad,
    pub n: u32,
    pub capacity: u32,
    pub dims_x: i32,
    pub dims_y: i32,
    pub dims_z: i32,
    pub cells: u32,
    pub flags: u32,
    pub tensile_n: i32,
    pub reduce_size: u32,
    pub dt: Single,
    pub time: Single,
    pub h: Single,
    pub h2: Single,
    pub poly6: Single,
    pub spiky: Single,
    pub inv_rho0: Single,
    pub epsilon: Single,
    pub tensile_scale: Single,
    pub tensile_w: Single,
    pub relax: Single,
    pub margin: Single,
    pub touch: Single,
    pub friction: Single,
    pub viscosity: Single,
    pub speed_scale: Single,
    pub interior_scale: Single,
    pub strength: Single,
    pub reef_height: Single,
    pub reef_start: Single,
    pub reef_width: Single,
    pub reef_skew: Single,
    pub origin_x: Single,
    pub amplitude: Single,
    pub omega: Single,
    pub wavenumber: Single,
    pub depth: Single,
    pub level: Single,
    pub generation_width: Single,
    pub period: Single,
    pub beach_start: Single,
    pub beach_width: Single,
}

/// The words of the parameters, in the shader's order, padded to whole vectors.
pub open spec fn param_words(p: GpuParams) -> Seq<u32> {
    seq![
        p.bounds_min.x.bits,
        p.bounds_min.y.bits,
        p.bounds_min.z.bits,
        p.bounds_min.w.bits,
        p.bounds_max.x.bits,
        p.bounds_max.y.bits,
        p.bounds_max.z.bits,
        p.bounds_max.w.bits,
        p.bounds_size.x.bits,
        p.bounds_size.y.bits,
        p.bounds_size.z.bits,
        p.bounds_size.w.bits,
        p.wall_min.x.bits,
        p.wall_min.y.bits,
        p.wall_min.z.bits,
        p.wall_min.w.bits,
        p.wall_max.x.bits,
        p.wall_max.y.bits,
        p.wall_max.z.bits,
        p.wall_max.w.bits,
        p.gravity.x.bits,
        p.gravity.y.bits,
        p.gravity.z.bits,
        p.gravity.w.bits,
        p.grid_origin.x.bits,
        p.grid_origin.y.bits,
        p.grid_origin.z.bits,
        p.grid_origin.w.bits,
        p.direction.x.bits,
        p.direction.y.bits,
        p.direction.z.bits,
        p.direction.w.bits,
        p.impulse.x.bits,
        p.impulse.y.bits,
        p.impulse.z.bits,
        p.impulse.w.bits,
        p.ray.x.bits,
        p.ray.y.bits,
        p.ray.z.bits,
        p.ray.w.bits,
        p.n,
        p.capacity,
        p.dims_x as u32,
        p.dims_y as u32,
        p.dims_z as u32,
        p.cells,
        p.flags,
        p.tensile_n as u32,
        p.reduce_size,
        p.dt.bits,
        p.time.bits,
        p.h.bits,
        p.h2.bits,
        p.poly6.bits,
        p.spiky.bits,
        p.inv_rho0.bits,
        p.epsilon.bits,
        p.tensile_scale.bits,
        p.tensile_w.bits,
        p.relax.bits,
        p.margin.bits,
        p.touch.bits,
        p.friction.bits,
        p.viscosity.bits,
        p.speed_scale.bits,
        p.interior_scale.bits,
        p.strength.bits,
        p.reef_height.bits,
        p.reef_start.bits,
        p.reef_width.bits,
        p.reef_skew.bits,
        p.origin_x.bits,
        p.amplitude.bits,
        p.omega.bits,
        p.wavenumber.bits,
        p.depth.bits,
        p.level.bits,
        p.generation_width.bits,
        p.period.bits,
        p.beach_start.bits,
        p.beach_width.bits,
        0,
        0,
        0,
    ]
}

impl GpuParams {
    /// The parameters' words.
    pub fn words(&self) -> (words: Vec<u32>)
        ensures
            words@ == param_words(*self),
            words@.len() == 84,
            words@[0] == self.bounds_min.x.bits,
            words@[1] == self.bounds_min.y.bits,
            words@[2] == self.bounds_min.z.bits,
            words@[3] == self.bounds_min.w.bits,
            words@[4] == self.bounds_max.x.bits,
            words@[5] == self.bounds_max.y.bits,
            words@[6] == self.bounds_max.z.bits,
            words@[7] == self.bounds_max.w.bits,
            words@[8] == self.bounds_size.x.bits,
            words@[9] == self.bounds_size.y.bits,
            words@[10] == self.bounds_size.z.bits,
            words@[11] == self.bounds_size.w.bits,
            words@[12] == self.wall_min.x.bits,
            words@[13] == self.wall_min.y.bits,
            words@[14] == self.wall_min.z.bits,
            words@[15] == self.wall_min.w.bits,
            words@[16] == self.wall_max.x.bits,
            words@[17] == self.wall_max.y.bits,
            words@[18] == self.wall_max.z.bits,
            words@[19] == self.wall_max.w.bits,
            words@[20] == self.gravity.x.bits,
            words@[21] == self.gravity.y.bits,
            words@[22] == self.gravity.z.bits,
            words@[23] == self.gravity.w.bits,
            words@[24] == self.grid_origin.x.bits,
            words@[25] == self.grid_origin.y.bits,
            words@[26] == self.grid_origin.z.bits,
            words@[27] == self.grid_origin.w.bits,
            words@[28] == self.direction.x.bits,
            words@[29] == self.direction.y.bits,
            words@[30] == self.direction.z.bits,
            words@[31] == self.direction.w.bits,
            words@[32] == self.impulse.x.bits,
            words@[33] == self.impulse.y.bits,
            words@[34] == self.impulse.z.bits,
            words@[35] == self.impulse.w.bits,
            words@[36] == self.ray.x.bits,
            words@[37] == self.ray.y.bits,
            words@[38] == self.ray.z.bits,
            words@[39] == self.ray.w.bits,
            words@[40] == self.n,
            words@[41] == self.capacity,
            words@[42] == self.dims_x as u32,
            words@[43] == self.dims_y as u32,
            words@[44] == self.dims_z as u32,
            words@[45] == self.cells,
            words@[46] == self.flags,
            words@[47] == self.tensile_n as u32,
            words@[48] == self.reduce_size,
            words@[49] == self.dt.bits,
            words@[50] == self.time.bits,
            words@[51] == self.h.bits,
            words@[52] == self.h2.bits,
            words@[53] == self.poly6.bits,
            words@[54] == self.spiky.bits,
            words@[55] == self.inv_rho0.bits,
            words@[56] == self.epsilon.bits,
            words@[57] == self.tensile_scale.bits,
            words@[58] == self.tensile_w.bits,
            words@[59] == self.relax.bits,
            words@[60] == self.margin.bits,
            words@[61] == self.touch.bits,
            words@[62] == self.friction.bits,
            words@[63] == self.viscosity.bits,
            words@[64] == self.speed_scale.bits,
            words@[65] == self.interior_scale.bits,
            words@[66] == self.strength.bits,
            words@[67] == self.reef_height.bits,
            words@[68] == self.reef_start.bits,
            words@[69] == self.reef_width.bits,
            words@[70] == self.reef_skew.bits,
            words@[71] == self.origin_x.bits,
            words@[72] == self.amplitude.bits,
            words@[73] == self.omega.bits,
            words@[74] == self.wavenumber.bits,
            words@[75] == self.depth.bits,
            words@[76] == self.level.bits,
            words@[77] == self.generation_width.bits,
            words@[78] == self.period.bits,
            words@[79] == self.beach_start.bits,
            words@[80] == self.beach_width.bits,
            words@[81] == 0,
            words@[82] == 0,
            words@[83] == 0,
    {
        let words: Vec<u32> = vec![
            self.bounds_min.x.bits,
            self.bounds_min.y.bits,
            self.bounds_min.z.bits,
            self.bounds_min.w.bits,
            self.bounds_max.x.bits,
            self.bounds_max.y.bits,
            self.bounds_max.z.bits,
            self.bounds_max.w.bits,
            self.bounds_size.x.bits,
            self.bounds_size.y.bits,
            self.bounds_size.z.bits,
            self.bounds_size.w.bits,
            self.wall_min.x.bits,
            self.wall_min.y.bits,
            self.wall_min.z.bits,
            self.wall_min.w.bits,
            self.wall_max.x.bits,
            self.wall_max.y.bits,
            self.wall_max.z.bits,
            self.wall_max.w.bits,
            self.gravity.x.bits,
            self.gravity.y.bits,
            self.gravity.z.bits,
            self.gravity.w.bits,
            self.grid_origin.x.bits,
            self.grid_origin.y.bits,
            self.grid_origin.z.bits,
            self.grid_origin.w.bits,
            self.direction.x.bits,
            self.direction.y.bits,
            self.direction.z.bits,
            self.direction.w.bits,
            self.impulse.x.bits,
            self.impulse.y.bits,
            self.impulse.z.bits,
            self.impulse.w.bits,
            self.ray.x.bits,
            self.ray.y.bits,
            self.ray.z.bits,
            self.ray.w.bits,
            self.n,
            self.capacity,
            self.dims_x as u32,
            self.dims_y as u32,
            self.dims_z as u32,
            self.cells,
            self.flags,
            self.tensile_n as u32,
            self.reduce_size,
            self.dt.bits,
            self.time.bits,
            self.h.bits,
            self.h2.bits,
            self.poly6.bits,
            self.spiky.bits,
            self.inv_rho0.bits,
            self.epsilon.bits,
            self.tensile_scale.bits,
            self.tensile_w.bits,
            self.relax.bits,
            self.margin.bits,
            self.touch.bits,
            self.friction.bits,
            self.viscosity.bits,
            self.speed_scale.bits,
            self.interior_scale.bits,
            self.strength.bits,
            self.reef_height.bits,
            self.reef_start.bits,
            self.reef_width.bits,
            self.reef_skew.bits,
            self.origin_x.bits,
            self.amplitude.bits,
            self.omega.bits,
            self.wavenumber.bits,
            self.depth.bits,
            self.level.bits,
            self.generation_width.bits,
            self.period.bits,
            self.beach_start.bits,
            self.beach_width.bits,
            0,
            0,
            0,
        ];
        assert(words@ =~= param_words(*self));
        words
    }
}

/// Quantities worked out from the solver's tunables.
#[derive(Clone, Copy, PartialEq, Eq, Structural, Debug)]
pub struct Derived {
    pub bounds_size: Point,
    /// The bounds, half a spacing in.
    pub wall_min: Point,
    pub wall_max: Point,
    pub h2: Single,
    pub poly6: Single,
    pub spiky: Single,
    pub inv_rho0: Single,
    pub epsilon: Single,
    pub tensile_scale: Single,
    pub tensile_w: Single,
    pub margin: Single,
    pub touch: Single,
    pub speed_scale: Single,
    pub interior_scale: Single,
}

/// A generation zone, as its quantities were worked out at reset.
#[derive(Clone, Copy, PartialEq, Eq, Structural, Debug)]
pub struct Maker {
    pub origin_x: Single,
    pub amplitude: Single,
    pub omega: Single,
    pub wavenumber: Single,
    pub direction: Point,
    pub depth: Single,
    pub level: Single,
    pub generation_width: Single,
    pub period: Single,
    pub beach_start: Single,
    pub beach_width: Single,
    /// Whether it makes one wave and stops.
    pub single: bool,
}

/// A push or pull from the mouse, waiting for the next step.
#[derive(Clone, Copy, PartialEq, Eq, Structural, Debug)]
pub struct Impulse {
    pub center: Point,
    pub radius: Single,
    pub strength: Single,
}

/// The sizes the shader is told of.
#[derive(Clone, Copy, PartialEq, Eq, Structural, Debug)]
pub struct Sizes {
    pub n: u32,
    pub capacity: u32,
    pub dims_x: i32,
    pub dims_y: i32,
    pub dims_z: i32,
    pub cells: u32,
    /// Power-of-two length of the particle reductions.
    pub reduce_size: u32,
}

/// What runs in the scene, one bit each: a reef, a single wave, clamped
/// constraints, a wavemaker. Only a wavemaker makes a single wave.
pub open spec fn flags_of(wave: bool, maker: Option<Maker>, clamp: bool) -> int {
    (if wave {
        WAVE as int
    } else {
        0
    }) + (if maker is Some && maker->0.single {
        SINGLE as int
    } else {
        0
    }) + (if clamp {
        CLAMP as int
    } else {
        0
    }) + (if maker is Some {
        MAKER as int
    } else {
        0
    })
}

pub fn flags(wave: bool, maker: Option<Maker>, clamp: bool) -> (flags: u32)
    ensures
        flags == flags_of(wave, maker, clamp),
{
    let mut flags: u32 = 0;
    if wave {
        flags += WAVE;
    }
    if let Some(maker) = maker {
        flags += MAKER;
        if maker.single {
            flags += SINGLE;
        }
    }
    if clamp {
        flags += CLAMP;
    }
    flags
}

/// No wavemaker: nothing drives the water, and nothing divides by zero.
pub open spec fn still() -> Maker {
    let one = Single { bits: ONE };
    Maker {
        origin_x: zero(),
        amplitude: zero(),
        omega: zero(),
        wavenumber: zero(),
        direction: Point { x: one, y: zero(), z: zero() },
        depth: zero(),
        level: zero(),
        generation_width: one,
        period: one,
        beach_start: zero(),
        beach_width: one,
        single: false,
    }
}

/// No push at all.
pub open spec fn no_impulse() -> Impulse {
    Impulse {
        center: Point { x: zero(), y: zero(), z: zero() },
        radius: zero(),
        strength: zero(),
    }
}

/// The parameters of a scene: absent a reef, a wavemaker or an impulse, those
/// of a default reef that the flags switch off, of still water, and of no push.
pub open spec fn scene_params(
    p: FluidParams,
    d: Derived,
    b: Sizes,
    wave: Option<Wave>,
    maker: Option<Maker>,
    dt: Single,
    time: Single,
    impulse: Option<Impulse>,
    ray: Point,
) -> GpuParams {
    let w = match wave {
        Some(wave) => wave,
        None => crate::wave::default_wave(),
    };
    let m = match maker {
        Some(maker) => maker,
        None => still(),
    };
    let i = match impulse {
        Some(impulse) => impulse,
        None => no_impulse(),
    };
    GpuParams {
        bounds_min: extended(p.bounds.min, zero()),
        bounds_max: extended(p.bounds.max, zero()),
        bounds_size: extended(d.bounds_size, zero()),
        wall_min: extended(d.wall_min, zero()),
        wall_max: extended(d.wall_max, zero()),
        gravity: extended(p.gravity, zero()),
        grid_origin: extended(p.bounds.min, p.smoothing_radius),
        direction: extended(m.direction, zero()),
        impulse: extended(i.center, i.radius),
        ray: extended(ray, zero()),
        n: b.n,
        capacity: b.capacity,
        dims_x: b.dims_x,
        dims_y: b.dims_y,
        dims_z: b.dims_z,
        cells: b.cells,
        flags: flags_of(wave is Some, maker, p.clamp_constraint) as u32,
        tensile_n: p.tensile_n,
        reduce_size: b.reduce_size,
        dt,
        time,
        h: p.smoothing_radius,
        h2: d.h2,
        poly6: d.poly6,
        spiky: d.spiky,
        inv_rho0: d.inv_rho0,
        epsilon: d.epsilon,
        tensile_scale: d.tensile_scale,
        tensile_w: d.tensile_w,
        relax: p.jacobi_relax,
        margin: d.margin,
        touch: d.touch,
        friction: p.wall_friction,
        viscosity: p.viscosity,
        speed_scale: d.speed_scale,
        interior_scale: d.interior_scale,
        strength: i.strength,
        reef_height: w.reef_height,
        reef_start: w.reef_start,
        reef_width: w.reef_width,
        reef_skew: w.reef_skew,
        origin_x: m.origin_x,
        amplitude: m.amplitude,
        omega: m.omega,
        wavenumber: m.wavenumber,
        depth: m.depth,
        level: m.level,
        generation_width: m.generation_width,
        period: m.period,
        beach_start: m.beach_start,
        beach_width: m.beach_width,
    }
}

/// The parameters of a scene.
pub fn scene(
    p: &FluidParams,
    d: &Derived,
    b: &Sizes,
    wave: Option<Wave>,
    maker: Option<Maker>,
    dt: Single,
    time: Single,
    impulse: Option<Impulse>,
    ray: Point,
) -> (params: GpuParams)
    ensures
        params == scene_params(*p, *d, *b, wave, maker, dt, time, impulse, ray),
{
    let none = Single { bits: 0 };
    let one = Single { bits: ONE };
    let w = match wave {
        Some(wave) => wave,
        None => Wave::default(),
    };
    let flags: u32 = flags(wave.is_some(), maker, p.clamp_constraint);
    let m = match maker {
        Some(maker) => maker,
        None => Maker {
            origin_x: none,
            amplitude: none,
            omega: none,
            wavenumber: none,
            direction: Point { x: one, y: none, z: none },
            depth: none,
            level: none,
            generation_width: one,
            period: one,
            beach_start: none,
            beach_width: one,
            single: false,
        },
    };
    let i = match impulse {
        Some(impulse) => impulse,
        None => Impulse {
            center: Point { x: none, y: none, z: none },
            radius: none,
            strength: none,
        },
    };
    GpuParams {
        bounds_min: flat(p.bounds.min),
        bounds_max: flat(p.bounds.max),
        bounds_size: flat(d.bounds_size),
        wall_min: flat(d.wall_min),
        wall_max: flat(d.wall_max),
        gravity: flat(p.gravity),
        grid_origin: extend(p.bounds.min, p.smoothing_radius),
        direction: flat(m.direction),
        impulse: extend(i.center, i.radius),
        ray: flat(ray),
        n: b.n,
        capacity: b.capacity,
        dims_x: b.dims_x,
        dims_y: b.dims_y,
        dims_z: b.dims_z,
        cells: b.cells,
        flags,
        tensile_n: p.tensile_n,
        reduce_size: b.reduce_size,
        dt,
        time,
        h: p.smoothing_radius,
        h2: d.h2,
        poly6: d.poly6,
        spiky: d.spiky,
        inv_rho0: d.inv_rho0,
        epsilon: d.epsilon,
        tensile_scale: d.tensile_scale,
        tensile_w: d.tensile_w,
        relax: p.jacobi_relax,
        margin: d.margin,
        touch: d.touch,
        friction: p.wall_friction,
        viscosity: p.viscosity,
        speed_scale: d.speed_scale,
        interior_scale: d.interior_scale,
        strength: i.strength,
        reef_height: w.reef_height,
        reef_start: w.reef_start,
        reef_width: w.reef_width,
        reef_skew: w.reef_skew,
        origin_x: m.origin_x,
        amplitude: m.amplitude,
        omega: m.omega,
        wavenumber: m.wavenumber,
        depth: m.depth,
        level: m.level,
        generation_width: m.generation_width,
        period: m.period,
        beach_start: m.beach_start,
        beach_width: m.beach_width,
    }
}

/// The parameters of a grid: only where it lies, how many particles it sorts
/// and its dimensions.
pub open spec fn grid_params_of(
    origin: Point,
    cell: Single,
    n: u32,
    dims_x: i32,
    dims_y: i32,
    dims_z: i32,
    cells: u32,
) -> GpuParams {
    let nothing = Quad { x: zero(), y: zero(), z: zero(), w: zero() };
    GpuParams {
        bounds_min: nothing,
        bounds_max: nothing,
        bounds_size: nothing,
        wall_min: nothing,
        wall_max: nothing,
        gravity: nothing,
        grid_origin: extended(origin, cell),
        direction: nothing,
        impulse: nothing,
        ray: nothing,
        n,
        capacity: 0,
        dims_x,
        dims_y,
        dims_z,
        cells,
        flags: 0,
        tensile_n: 0,
        reduce_size: 0,
        dt: zero(),
        time: zero(),
        h: zero(),
        h2: zero(),
        poly6: zero(),
        spiky: zero(),
        inv_rho0: zero(),
        epsilon: zero(),
        tensile_scale: zero(),
        tensile_w: zero(),
        relax: zero(),
        margin: zero(),
        touch: zero(),
        friction: zero(),
        viscosity: zero(),
        speed_scale: zero(),
        interior_scale: zero(),
        strength: zero(),
        reef_height: zero(),
        reef_start: zero(),
        reef_width: zero(),
        reef_skew: zero(),
        origin_x: zero(),
        amplitude: zero(),
        omega: zero(),
        wavenumber: zero(),
        depth: zero(),
        level: zero(),
        generation_width: zero(),
        period: zero(),
        beach_start: zero(),
        beach_width: zero(),
    }
}

/// The parameters of a grid.
pub fn grid_params(
    origin: Point,
    cell: Single,
    n: u32,
    dims_x: i32,
    dims_y: i32,
    dims_z: i32,
    cells: u32,
) -> (params: GpuParams)
    ensures
        params == grid_params_of(origin, cell, n, dims_x, dims_y, dims_z, cells),
{
    let none = Single { bits: 0 };
    let nothing = Quad { x: none, y: none, z: none, w: none };
    GpuParams {
        bounds_min: nothing,
        bounds_max: nothing,
        bounds_size: nothing,
        wall_min: nothing,
        wall_max: nothing,
        gravity: nothing,
        grid_origin: extend(origin, cell),
        direction: nothing,
        impulse: nothing,
        ray: nothing,
        n,
        capacity: 0,
        dims_x,
        dims_y,
        dims_z,
        cells,
        flags: 0,
        tensile_n: 0,
        reduce_size: 0,
        dt: none,
        time: none,
        h: none,
        h2: none,
        poly6: none,
        spiky: none,
        inv_rho0: none,
        epsilon: none,
        tensile_scale: none,
        tensile_w: none,
        relax: none,
        margin: none,
        touch: none,
        friction: none,
        viscosity: none,
        speed_scale: none,
        interior_scale: none,
        strength: none,
        reef_height: none,
        reef_start: none,
        reef_width: none,
        reef_skew: none,
        origin_x: none,
        amplitude: none,
        omega: none,
        wavenumber: none,
        depth: none,
        level: none,
        generation_width: none,
        period: none,
        beach_start: none,
        beach_width: none,
    }
}

} // verus!
