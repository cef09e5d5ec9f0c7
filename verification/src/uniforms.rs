//! What each word of the parameters stands for.
//!
//! A shader reads its parameters by place. The laws say for every place which of
//! the quantities it holds that the parameters were made from.
use vstd::prelude::*;
use crate::gpu_params::{grid_params_of, param_words, scene_params};
use crate::gpu_params::{Derived, Impulse, Maker, Sizes};
use crate::sim::FluidParams;
use crate::single::{Point, Single};
use crate::spray_gpu::{spray_words, style_params, SprayStyle};
use crate::surface_gpu::{base_params, layout_fits, surface_words, SurfaceLayout, SurfaceParams};
use crate::wave::Wave;

verus! {

/// Where the solver's shader finds the box, the sizes, the time and the solver's
/// tunables; and its flags, one for a reef, two for a single wave, four for clamped
/// constraints and eight for a wavemaker.
pub proof fn lemma_scene_words(
    p: FluidParams,
    d: Derived,
    b: Sizes,
    wave: Option<Wave>,
    maker: Option<Maker>,
    dt: Single,
    time: Single,
    impulse: Option<Impulse>,
    ray: Point,
    words: Seq<u32>,
)
    requires
        words == param_words(scene_params(p, d, b, wave, maker, dt, time, impulse, ray)),
    ensures
        words.len() == 84,
        words[0] == p.bounds.min.x.bits,
        words[1] == p.bounds.min.y.bits,
        words[2] == p.bounds.min.z.bits,
        words[3] == 0,
        words[4] == p.bounds.max.x.bits,
        words[5] == p.bounds.max.y.bits,
        words[6] == p.bounds.max.z.bits,
        words[7] == 0,
        words[8] == d.bounds_size.x.bits,
        words[9] == d.bounds_size.y.bits,
        words[10] == d.bounds_size.z.bits,
        words[11] == 0,
        words[12] == d.wall_min.x.bits,
        words[13] == d.wall_min.y.bits,
        words[14] == d.wall_min.z.bits,
        words[15] == 0,
        words[16] == d.wall_max.x.bits,
        words[17] == d.wall_max.y.bits,
        words[18] == d.wall_max.z.bits,
        words[19] == 0,
        words[20] == p.gravity.x.bits,
        words[21] == p.gravity.y.bits,
        words[22] == p.gravity.z.bits,
        words[23] == 0,
        words[24] == p.bounds.min.x.bits,
        words[25] == p.bounds.min.y.bits,
        words[26] == p.bounds.min.z.bits,
        words[27] == p.smoothing_radius.bits,
        words[31] == 0,
        words[36] == ray.x.bits,
        words[37] == ray.y.bits,
        words[38] == ray.z.bits,
        words[39] == 0,
        words[40] == b.n,
        words[41] == b.capacity,
        words[42] == b.dims_x as u32,
        words[43] == b.dims_y as u32,
        words[44] == b.dims_z as u32,
        words[45] == b.cells,
        words[46] == (if wave is Some {
            1int
        } else {
            0
        }) + (if maker is Some && maker->0.single {
            2int
        } else {
            0
        }) + (if p.clamp_constraint {
            4int
        } else {
            0
        }) + (if maker is Some {
            8int
        } else {
            0
        }),
        words[47] == p.tensile_n as u32,
        words[48] == b.reduce_size,
        words[49] == dt.bits,
        words[50] == time.bits,
        words[51] == p.smoothing_radius.bits,
        words[52] == d.h2.bits,
        words[53] == d.poly6.bits,
        words[54] == d.spiky.bits,
        words[55] == d.inv_rho0.bits,
        words[56] == d.epsilon.bits,
        words[57] == d.tensile_scale.bits,
        words[58] == d.tensile_w.bits,
        words[59] == p.jacobi_relax.bits,
        words[60] == d.margin.bits,
        words[61] == d.touch.bits,
        words[62] == p.wall_friction.bits,
        words[63] == p.viscosity.bits,
        words[64] == d.speed_scale.bits,
        words[65] == d.interior_scale.bits,
        words[81] == 0,
        words[82] == 0,
        words[83] == 0,
{
}

/// Where the solver's shader finds the reef: absent one, that of the default
/// tank.
pub proof fn lemma_reef_words(
    p: FluidParams,
    d: Derived,
    b: Sizes,
    wave: Option<Wave>,
    maker: Option<Maker>,
    dt: Single,
    time: Single,
    impulse: Option<Impulse>,
    ray: Point,
    words: Seq<u32>,
)
    requires
        words == param_words(scene_params(p, d, b, wave, maker, dt, time, impulse, ray)),
    ensures
        wave matches Some(w) ==> {
            &&& words[67] == w.reef_height.bits
            &&& words[68] == w.reef_start.bits
            &&& words[69] == w.reef_width.bits
            &&& words[70] == w.reef_skew.bits
        },
        wave is None ==> {
            &&& words[67] == 0x432e_0000
            &&& words[68] == 0x3e99_999a
            &&& words[69] == 0x3e75_c28f
            &&& words[70] == 0x3df5_c28f
        },
{
}

/// Where the solver's shader finds the wavemaker: absent one, nothing moves, and
/// the lengths are one.
pub proof fn lemma_maker_words(
    p: FluidParams,
    d: Derived,
    b: Sizes,
    wave: Option<Wave>,
    maker: Option<Maker>,
    dt: Single,
    time: Single,
    impulse: Option<Impulse>,
    ray: Point,
    words: Seq<u32>,
)
    requires
        words == param_words(scene_params(p, d, b, wave, maker, dt, time, impulse, ray)),
    ensures
        maker matches Some(m) ==> {
            &&& words[28] == m.direction.x.bits
            &&& words[29] == m.direction.y.bits
            &&& words[30] == m.direction.z.bits
            &&& words[71] == m.origin_x.bits
            &&& words[72] == m.amplitude.bits
            &&& words[73] == m.omega.bits
            &&& words[74] == m.wavenumber.bits
            &&& words[75] == m.depth.bits
            &&& words[76] == m.level.bits
            &&& words[77] == m.generation_width.bits
            &&& words[78] == m.period.bits
            &&& words[79] == m.beach_start.bits
            &&& words[80] == m.beach_width.bits
        },
        maker is None ==> {
            &&& words[28] == 0x3f80_0000
            &&& words[29] == 0
            &&& words[30] == 0
            &&& words[71] == 0
            &&& words[72] == 0
            &&& words[73] == 0
            &&& words[74] == 0
            &&& words[75] == 0
            &&& words[76] == 0
            &&& words[77] == 0x3f80_0000
            &&& words[78] == 0x3f80_0000
            &&& words[79] == 0
            &&& words[80] == 0x3f80_0000
        },
{
}

/// Where the solver's shader finds the push: absent one, it is nought.
pub proof fn lemma_impulse_words(
    p: FluidParams,
    d: Derived,
    b: Sizes,
    wave: Option<Wave>,
    maker: Option<Maker>,
    dt: Single,
    time: Single,
    impulse: Option<Impulse>,
    ray: Point,
    words: Seq<u32>,
)
    requires
        words == param_words(scene_params(p, d, b, wave, maker, dt, time, impulse, ray)),
    ensures
        impulse matches Some(i) ==> {
            &&& words[32] == i.center.x.bits
            &&& words[33] == i.center.y.bits
            &&& words[34] == i.center.z.bits
            &&& words[35] == i.radius.bits
            &&& words[66] == i.strength.bits
        },
        impulse is None ==> {
            &&& words[32] == 0
            &&& words[33] == 0
            &&& words[34] == 0
            &&& words[35] == 0
            &&& words[66] == 0
        },
{
}

/// Where a grid's passes find it: its corner, its cell's width, the particles and
/// the dimensions, and nothing else.
#[verifier::rlimit(60)]
pub proof fn lemma_grid_words(
    origin: Point,
    cell: Single,
    n: u32,
    dims_x: i32,
    dims_y: i32,
    dims_z: i32,
    cells: u32,
    words: Seq<u32>,
)
    requires
        words == param_words(grid_params_of(origin, cell, n, dims_x, dims_y, dims_z, cells)),
    ensures
        words.len() == 84,
        words[24] == origin.x.bits,
        words[25] == origin.y.bits,
        words[26] == origin.z.bits,
        words[27] == cell.bits,
        words[40] == n,
        words[42] == dims_x as u32,
        words[43] == dims_y as u32,
        words[44] == dims_z as u32,
        words[45] == cells,
        forall|k: int|
            0 <= k < 84 && !(24 <= k <= 27) && k != 40 && !(42 <= k <= 45) ==> #[trigger] words[k]
                == 0,
{
    assert(0i32 as u32 == 0u32) by (bit_vector);
    let all = param_words(grid_params_of(origin, cell, n, dims_x, dims_y, dims_z, cells));
    assert(all[0] == 0);
    assert(all[1] == 0);
    assert(all[2] == 0);
    assert(all[3] == 0);
    assert(all[4] == 0);
    assert(all[5] == 0);
    assert(all[6] == 0);
    assert(all[7] == 0);
    assert(all[8] == 0);
    assert(all[9] == 0);
    assert(all[10] == 0);
    assert(all[11] == 0);
    assert(all[12] == 0);
    assert(all[13] == 0);
    assert(all[14] == 0);
    assert(all[15] == 0);
    assert(all[16] == 0);
    assert(all[17] == 0);
    assert(all[18] == 0);
    assert(all[19] == 0);
    assert(all[20] == 0);
    assert(all[21] == 0);
    assert(all[22] == 0);
    assert(all[23] == 0);
    assert(all[28] == 0);
    assert(all[29] == 0);
    assert(all[30] == 0);
    assert(all[31] == 0);
    assert(all[32] == 0);
    assert(all[33] == 0);
    assert(all[34] == 0);
    assert(all[35] == 0);
    assert(all[36] == 0);
    assert(all[37] == 0);
    assert(all[38] == 0);
    assert(all[39] == 0);
    assert(all[46] == 0);
    assert(all[47] == 0);
    assert(all[48] == 0);
    assert(all[49] == 0);
    assert(all[50] == 0);
    assert(all[51] == 0);
    assert(all[52] == 0);
    assert(all[53] == 0);
    assert(all[54] == 0);
    assert(all[55] == 0);
    assert(all[56] == 0);
    assert(all[57] == 0);
    assert(all[58] == 0);
    assert(all[59] == 0);
    assert(all[60] == 0);
    assert(all[61] == 0);
    assert(all[62] == 0);
    assert(all[63] == 0);
    assert(all[64] == 0);
    assert(all[65] == 0);
    assert(all[66] == 0);
    assert(all[67] == 0);
    assert(all[68] == 0);
    assert(all[69] == 0);
    assert(all[70] == 0);
    assert(all[71] == 0);
    assert(all[72] == 0);
    assert(all[73] == 0);
    assert(all[74] == 0);
    assert(all[75] == 0);
    assert(all[76] == 0);
    assert(all[77] == 0);
    assert(all[78] == 0);
    assert(all[79] == 0);
    assert(all[80] == 0);
    assert(all[81] == 0);
    assert(all[82] == 0);
    assert(all[83] == 0);
    assert(all[41] == 0);
}

/// Where the surface's shader finds the volume, the particles' reach and its
/// square, the density of water at rest, and what the rebuild is given.
pub proof fn lemma_surface_words(
    layout: SurfaceLayout,
    n: u32,
    alpha: Single,
    start: u32,
    capacity: u32,
    words: Seq<u32>,
)
    requires
        layout_fits(layout),
        words == surface_words(
            (SurfaceParams {
                alpha,
                vertex_start: start,
                vertex_capacity: capacity,
                ..base_params(layout, n)
            }),
        ),
    ensures
        words.len() == 24,
        words[0] == layout.origin.x.bits,
        words[1] == layout.origin.y.bits,
        words[2] == layout.origin.z.bits,
        words[3] == layout.cell.bits,
        words[4] == layout.bounds_min.x.bits,
        words[5] == layout.bounds_min.y.bits,
        words[6] == layout.bounds_min.z.bits,
        words[7] == layout.radius.bits,
        words[8] == n,
        words[9] == alpha.bits,
        words[10] == layout.radius2.bits,
        words[11] == layout.reference.bits,
        words[12] == layout.voxels_x,
        words[13] == layout.voxels_y,
        words[14] == layout.voxels_z,
        words[15] == layout.voxels_x * layout.voxels_y * layout.voxels_z,
        words[16] == layout.dims_x as u32,
        words[17] == layout.dims_y as u32,
        words[18] == layout.dims_z as u32,
        words[19] == (layout.voxels_x - 1) * (layout.voxels_y - 1) * (layout.voxels_z - 1),
        words[20] == start,
        words[21] == capacity,
        words[22] == 0,
        words[23] == 0,
{
    crate::surface_gpu::lemma_cubes(layout);
}

/// Where the spray's shader finds the particles, their size, and what the rebuild is
/// given: a diagnostic shows all particles at its stride, or at one for a stride of
/// nought, and spray only some.
pub proof fn lemma_spray_words(
    n: u32,
    alpha: Single,
    style: SprayStyle,
    start: u32,
    capacity: u32,
    words: Seq<u32>,
)
    requires
        words == spray_words(style_params(n, alpha, style, start, capacity)),
    ensures
        words.len() == 8,
        words[0] == n,
        words[1] == alpha.bits,
        words[2] == style.radius.bits,
        words[3] == style.scale.bits,
        style.diagnostic is None ==> words[4] == 0 && words[5] == 1,
        style.diagnostic matches Some(stride) ==> words[4] == 1 && words[5] == if stride == 0 {
            1
        } else {
            stride
        },
        words[6] == capacity,
        words[7] == start,
{
}

} // verus!
