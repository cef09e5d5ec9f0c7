//! The limits that settings are held to, with their numbers.
//!
//! Each law says of every setting what it is accepted as and what it is refused
//! for, in the order the settings are looked at. Sizes are counted in the smallest
//! positive single, of which there are `2^149` to one; a limit that no single
//! hits exactly is given by the bits of the nearest.
use vstd::prelude::*;
use vstd::arithmetic::power2::{lemma2_to64, lemma_pow2_adds, lemma_pow2_pos, pow2};
use crate::config::{checks, fails_first, fluid_checks, judged, solver_checks};
use crate::config::{default_input, default_render, default_scene, default_solver, default_world};
use crate::config::{Backend, BlockReport, Config, Invalid, Measures, Scenario, SpeedReport};
use crate::single::{lemma_bits, lemma_normal, lemma_zero, zero, Point, Single};
use crate::wave::{default_swell, default_wave, swell_checks, tank_checks, wave_checks};
use crate::wave::{Swell, Wave, WaveMeasures};

verus! {

/// One number is below another.
pub open spec fn less(a: Single, b: Single) -> bool {
    !a.nan() && !b.nan() && a.rank() < b.rank()
}

/// The first failing check from `k` on decides.
spec fn verdict(list: Seq<(bool, Invalid)>, k: int) -> Result<(), Invalid>
    decreases list.len() - k,
{
    if k < 0 || k >= list.len() {
        Ok(())
    } else if list[k].0 {
        Err(list[k].1)
    } else {
        verdict(list, k + 1)
    }
}

proof fn lemma_verdict(list: Seq<(bool, Invalid)>, r: Result<(), Invalid>)
    requires
        judged(list, r),
    ensures
        r == verdict(list, 0),
{
    if r is Ok {
        lemma_verdict_clear(list, 0, list.len() as int);
        assert(r->Ok_0 == ());
    } else {
        let k = choose|k: int| #[trigger] fails_first(list, k) && list[k].1 == r->Err_0;
        lemma_verdict_clear(list, 0, k);
        assert(verdict(list, k) == Err::<(), Invalid>(list[k].1));
    }
}

proof fn lemma_verdict_clear(list: Seq<(bool, Invalid)>, j: int, k: int)
    requires
        0 <= j <= k <= list.len(),
        forall|i: int| j <= i < k ==> !(#[trigger] list[i]).0,
    ensures
        verdict(list, j) == verdict(list, k),
    decreases k - j,
{
    if j < k {
        assert(!list[j].0);
        lemma_verdict_clear(list, j + 1, k);
    }
}

/// Two lists in turn: the second is asked where the first has nothing against.
proof fn lemma_verdict_joins(a: Seq<(bool, Invalid)>, b: Seq<(bool, Invalid)>, k: int)
    requires
        0 <= k <= a.len(),
    ensures
        verdict(a + b, k) == if verdict(a, k) is Err {
            verdict(a, k)
        } else {
            verdict(b, 0)
        },
    decreases a.len() - k,
{
    if k < a.len() {
        assert((a + b)[k] == a[k]);
        lemma_verdict_joins(a, b, k + 1);
    } else {
        lemma_verdict_rest(a, b, 0);
    }
}

proof fn lemma_verdict_rest(a: Seq<(bool, Invalid)>, b: Seq<(bool, Invalid)>, k: int)
    requires
        0 <= k <= b.len(),
    ensures
        verdict(a + b, a.len() + k) == verdict(b, k),
    decreases b.len() - k,
{
    if k < b.len() {
        assert((a + b)[a.len() + k] == b[k]);
        lemma_verdict_rest(a, b, k + 1);
    }
}

/// The limits that singles hit exactly.
proof fn lemma_round_numbers()
    ensures
        ({
            let one = pow2(149) as int;
            &&& one > 0
            &&& (Single { bits: 0x3f80_0000 }).finite()
            &&& (Single { bits: 0x3f80_0000 }).rank() == one
            &&& (Single { bits: 0x3fc0_0000 }).finite()
            &&& 2 * (Single { bits: 0x3fc0_0000 }).rank() == 3 * one
            &&& (Single { bits: 0x3f00_0000 }).finite()
            &&& 2 * (Single { bits: 0x3f00_0000 }).rank() == one
            &&& (Single { bits: 0x4000_0000 }).finite()
            &&& (Single { bits: 0x4000_0000 }).rank() == 2 * one
            &&& (Single { bits: 0x4270_0000 }).finite()
            &&& (Single { bits: 0x4270_0000 }).rank() == 60 * one
            &&& (Single { bits: 0xc270_0000 }).finite()
            &&& (Single { bits: 0xc270_0000 }).rank() == -60 * one
            &&& (Single { bits: 0x4a74_2400 }).finite()
            &&& (Single { bits: 0x4a74_2400 }).rank() == 4_000_000 * one
            &&& (Single { bits: 0x3f73_3333 }).finite()
            &&& (Single { bits: 0x3f0c_cccd }).finite()
            &&& (Single { bits: 0x3d4c_cccd }).finite()
            &&& (Single { bits: 0x3df5_c28f }).finite()
            &&& (Single { bits: 0x3dcc_cccd }).finite()
            &&& (Single { bits: 0x3ecc_cccd }).finite()
        }),
{
    lemma2_to64();
    lemma_pow2_pos(149);
    lemma_pow2_adds(125, 24);
    lemma_pow2_adds(126, 23);
    lemma_pow2_adds(127, 22);
    lemma_pow2_adds(131, 18);
    lemma_pow2_adds(147, 2);
    lemma_normal(0x3f80_0000, 127, 0);
    lemma_normal(0x3fc0_0000, 127, 0x40_0000);
    lemma_normal(0x3f00_0000, 126, 0);
    lemma_normal(0x4000_0000, 128, 0);
    lemma_normal(0x4270_0000, 132, 0x70_0000);
    lemma_bits(Single { bits: 0xc270_0000 });
    lemma_normal(0x4a74_2400, 148, 0x74_2400);
    lemma_normal(0x3f73_3333, 126, 0x73_3333);
    lemma_normal(0x3f0c_cccd, 126, 0x0c_cccd);
    lemma_normal(0x3d4c_cccd, 122, 0x4c_cccd);
    lemma_normal(0x3df5_c28f, 123, 0x75_c28f);
    lemma_normal(0x3dcc_cccd, 123, 0x4c_cccd);
    lemma_normal(0x3ecc_cccd, 125, 0x4c_cccd);
}

/// The size of a number decides what its sign does not.
proof fn lemma_magnitude(v: Single)
    ensures
        crate::wave::magnitude(v).rank() == if v.rank() >= 0 {
            v.rank()
        } else {
            -v.rank()
        },
        crate::wave::magnitude(v).nan() == v.nan(),
{
    reveal(crate::single::quanta);
    let m = v.magnitude();
    if m == 0 {
    } else {
        crate::single::lemma_quanta_increases(0, m);
    }
}

/// The same of the list of checks.
#[verifier::spinoff_prover]
#[verifier::rlimit(60)]
proof fn lemma_tank_chain(w: &Wave, swell: &Swell, gravity: &Point, m: &WaveMeasures)
    ensures
        ({
            let one = pow2(149) as int;
            let found = verdict(tank_checks(w, swell, gravity, m), 0);
            found == if !(w.water_depth.finite()
                && w.water_depth.rank() >= 0) {
                Err(Invalid::WaterDepth)
            } else if !(w.reef_height.finite() && w.reef_height.rank() >= 0) {
                Err(Invalid::ReefHeight)
            } else if !(w.reef_start.finite() && w.reef_start.rank() >= 0) {
                Err(Invalid::ReefStart)
            } else if !(w.reef_width.finite() && w.reef_width.rank() >= 0) {
                Err(Invalid::ReefWidth)
            } else if !(w.beach_width.finite() && w.beach_width.rank() >= 0) {
                Err(Invalid::BeachWidth)
            } else if !(w.reef_skew.finite() && -one <= w.reef_skew.rank() <= one) {
                Err(Invalid::ReefSkew)
            } else if gravity.x.nan() || gravity.x.rank() != 0 || gravity.z.nan()
                || gravity.z.rank() != 0 || !gravity.y.finite() || gravity.y.rank() >= 0 {
                Err(Invalid::Upward)
            } else if !(swell.direction.finite()
                && -60 * one <= swell.direction.rank() <= 60 * one) {
                Err(Invalid::Direction)
            } else if swell.waves != 1 && !(swell.period.finite() && swell.period.rank() > 0) {
                Err(Invalid::Period)
            } else if !(swell.height.finite() && swell.height.rank() >= 0) {
                Err(Invalid::SwellHeight)
            } else if swell.height.rank() > 0 && less(swell.height, m.three_spacings) {
                Err(Invalid::SwellUnresolved)
            } else if less(w.water_depth, m.two_layers) {
                Err(Invalid::ReefTooHigh)
            } else if less(m.size_y, m.crest) {
                Err(Invalid::CrestTooHigh)
            } else if swell.waves != 1
                && (!m.wavelength.finite() || less(m.wavelength, m.twelve_spacings)) {
                Err(Invalid::WavelengthUnresolved)
            } else if swell.waves != 1 && less(w.water_depth, m.half_wavelength) {
                Err(Invalid::TooShallow(m.half_wavelength))
            } else if swell.waves != 1 && !m.steepness.nan()
                && m.steepness.rank() > (Single { bits: 0x3df5_c28f }).rank() {
                Err(Invalid::TooSteep)
            } else if swell.waves != 1 && less(m.offshore, m.generation) {
                Err(Invalid::ReefTooNear)
            } else if less(m.rise, m.two_spacings) {
                Err(Invalid::RiseUnresolved)
            } else if w.beach_width.rank() < (Single { bits: 0x3dcc_cccd }).rank()
                || w.beach_width.rank() > (Single { bits: 0x3ecc_cccd }).rank()
                || !m.size_x.nan() && !m.beach_end.nan() && m.size_x.rank() <= m.beach_end.rank() {
                Err(Invalid::Beach)
            } else if less(m.size_z, m.eight_spacings) {
                Err(Invalid::TankTooNarrow)
            } else {
                Ok(())
            }
        }),
{
    let list = tank_checks(w, swell, gravity, m);
    let (a, b) = (wave_checks(w, swell, gravity), swell_checks(w, swell, m));
    lemma_zero();
    lemma_round_numbers();
    lemma_magnitude(w.reef_skew);
    assert((Single { bits: 0x4270_0000 }).negated() == (Single { bits: 0xc270_0000 }));
    assert(list[0] == a[0]);
    assert(list[1] == a[1]);
    assert(list[2] == a[2]);
    assert(list[3] == a[3]);
    assert(list[4] == a[4]);
    assert(list[5] == a[5]);
    assert(list[6] == a[6]);
    assert(list[7] == a[7]);
    assert(list[8] == a[8]);
    assert(list[9] == a[9]);
    assert(list[10] == b[0]);
    assert(list[11] == b[1]);
    assert(list[12] == b[2]);
    assert(list[13] == b[3]);
    assert(list[14] == b[4]);
    assert(list[15] == b[5]);
    assert(list[16] == b[6]);
    assert(list[17] == b[7]);
    assert(list[18] == b[8]);
    assert(list[19] == b[9]);
    reveal_with_fuel(verdict, 22);
}

/// A tank is refused for the first of these that holds of it, and accepted exactly
/// if none does. In particular a swell's direction is refused if and only if it is
/// not finite or lies outside -60 to 60 degrees, the ends among what is accepted.
pub proof fn lemma_tank_verdict(
    w: &Wave,
    swell: &Swell,
    gravity: &Point,
    m: &WaveMeasures,
    r: Result<(), Invalid>,
)
    requires
        judged(tank_checks(w, swell, gravity, m), r),
    ensures
        ({
            let one = pow2(149) as int;
            r == if !(w.water_depth.finite()
                && w.water_depth.rank() >= 0) {
                Err(Invalid::WaterDepth)
            } else if !(w.reef_height.finite() && w.reef_height.rank() >= 0) {
                Err(Invalid::ReefHeight)
            } else if !(w.reef_start.finite() && w.reef_start.rank() >= 0) {
                Err(Invalid::ReefStart)
            } else if !(w.reef_width.finite() && w.reef_width.rank() >= 0) {
                Err(Invalid::ReefWidth)
            } else if !(w.beach_width.finite() && w.beach_width.rank() >= 0) {
                Err(Invalid::BeachWidth)
            } else if !(w.reef_skew.finite() && -one <= w.reef_skew.rank() <= one) {
                Err(Invalid::ReefSkew)
            } else if gravity.x.nan() || gravity.x.rank() != 0 || gravity.z.nan()
                || gravity.z.rank() != 0 || !gravity.y.finite() || gravity.y.rank() >= 0 {
                Err(Invalid::Upward)
            } else if !(swell.direction.finite()
                && -60 * one <= swell.direction.rank() <= 60 * one) {
                Err(Invalid::Direction)
            } else if swell.waves != 1 && !(swell.period.finite() && swell.period.rank() > 0) {
                Err(Invalid::Period)
            } else if !(swell.height.finite() && swell.height.rank() >= 0) {
                Err(Invalid::SwellHeight)
            } else if swell.height.rank() > 0 && less(swell.height, m.three_spacings) {
                Err(Invalid::SwellUnresolved)
            } else if less(w.water_depth, m.two_layers) {
                Err(Invalid::ReefTooHigh)
            } else if less(m.size_y, m.crest) {
                Err(Invalid::CrestTooHigh)
            } else if swell.waves != 1
                && (!m.wavelength.finite() || less(m.wavelength, m.twelve_spacings)) {
                Err(Invalid::WavelengthUnresolved)
            } else if swell.waves != 1 && less(w.water_depth, m.half_wavelength) {
                Err(Invalid::TooShallow(m.half_wavelength))
            } else if swell.waves != 1 && !m.steepness.nan()
                && m.steepness.rank() > (Single { bits: 0x3df5_c28f }).rank() {
                Err(Invalid::TooSteep)
            } else if swell.waves != 1 && less(m.offshore, m.generation) {
                Err(Invalid::ReefTooNear)
            } else if less(m.rise, m.two_spacings) {
                Err(Invalid::RiseUnresolved)
            } else if w.beach_width.rank() < (Single { bits: 0x3dcc_cccd }).rank()
                || w.beach_width.rank() > (Single { bits: 0x3ecc_cccd }).rank()
                || !m.size_x.nan() && !m.beach_end.nan() && m.size_x.rank() <= m.beach_end.rank() {
                Err(Invalid::Beach)
            } else if less(m.size_z, m.eight_spacings) {
                Err(Invalid::TankTooNarrow)
            } else {
                Ok(())
            }
        }),
{
    lemma_verdict(tank_checks(w, swell, gravity, m), r);
    lemma_tank_chain(w, swell, gravity, m);
}

/// The part of the verdict that the block and the box decide.
#[verifier::spinoff_prover]
#[verifier::rlimit(60)]
proof fn lemma_fluid_chain(c: &Config, m: &Measures)
    ensures
        ({
            let one = pow2(149) as int;
            let found = verdict(fluid_checks(c, m), 0);
            found == if c.fluid.block[0] == 0
                || c.fluid.block[1] == 0 || c.fluid.block[2] == 0 {
                Err(Invalid::EmptyBlock)
            } else if !(c.fluid.spacing.finite() && c.fluid.spacing.rank() > 0) {
                Err(Invalid::Spacing(c.fluid.spacing))
            } else if !(c.world.width.finite() && c.world.width.rank() > 0) {
                Err(Invalid::Width(c.world.width))
            } else if !(c.world.height.finite() && c.world.height.rank() > 0) {
                Err(Invalid::Height(c.world.height))
            } else if !(c.world.depth.finite() && c.world.depth.rank() > 0) {
                Err(Invalid::Depth(c.world.depth))
            } else if !(m.ratio.finite() && 2 * m.ratio.rank() >= 3 * one) {
                Err(Invalid::Ratio(m.ratio))
            } else if c.scene.scenario is DamBreak
                && (c.fluid.block[0] > m.room_x.floor_as_usize()
                    || c.fluid.block[1] > m.room_y.floor_as_usize()
                    || c.fluid.block[2] > m.room_z.floor_as_usize()) {
                Err(
                    Invalid::BlockTooBig(
                        BlockReport {
                            block_x: c.fluid.block[0],
                            block_y: c.fluid.block[1],
                            block_z: c.fluid.block[2],
                            spacing: c.fluid.spacing,
                            needs_x: m.needs_x,
                            needs_y: m.needs_y,
                            needs_z: m.needs_z,
                            width: c.world.width,
                            height: c.world.height,
                            depth: c.world.depth,
                            max_x: m.room_x.floor_as_usize() as usize,
                            max_y: m.room_y.floor_as_usize() as usize,
                            max_z: m.room_z.floor_as_usize() as usize,
                        },
                    ),
                )
            } else if !c.world.gravity.x.finite() || !c.world.gravity.y.finite()
                || !c.world.gravity.z.finite() {
                Err(Invalid::Gravity)
            } else {
                Ok(())
            }
        }),
{
    lemma_zero();
    lemma_round_numbers();
    reveal_with_fuel(verdict, 10);
}

/// The part of the verdict that the solver and what is drawn decide.
#[verifier::spinoff_prover]
#[verifier::rlimit(60)]
proof fn lemma_solver_chain(c: &Config, m: &Measures)
    ensures
        ({
            let one = pow2(149) as int;
            let found = verdict(solver_checks(c, m), 0);
            found == if c.solver.iterations == 0 {
                Err(Invalid::Iterations)
            } else if c.solver.substeps == 0 {
                Err(Invalid::Substeps)
            } else if m.courant.nan()
                || m.courant.rank() > (Single { bits: 0x3f73_3333 }).rank() {
                Err(
                    Invalid::TooFast(
                        SpeedReport {
                            courant: m.courant,
                            spacing: c.fluid.spacing,
                            smoothing_radius: c.fluid.smoothing_radius,
                            peak: m.peak,
                            required: (if m.needed_substeps.ceil_as_u32() >= 1 {
                                m.needed_substeps.ceil_as_u32()
                            } else {
                                1
                            }) as u32,
                            substeps: c.solver.substeps,
                        },
                    ),
                )
            } else if !(c.solver.jacobi_relax.finite()
                && 0 < c.solver.jacobi_relax.rank() <= (Single { bits: 0x3f0c_cccd }).rank()) {
                Err(Invalid::JacobiRelax(c.solver.jacobi_relax))
            } else if !(c.solver.relaxation.finite() && c.solver.relaxation.rank() > 0) {
                Err(Invalid::Relaxation)
            } else if !(c.solver.wall_friction.finite()
                && 0 <= c.solver.wall_friction.rank() <= one) {
                Err(Invalid::WallFriction(c.solver.wall_friction))
            } else if !(c.render.particle_scale.finite() && c.render.particle_scale.rank() > 0) {
                Err(Invalid::ParticleScale)
            } else if !(c.render.foam_speed.finite() && c.render.foam_speed.rank() > 0) {
                Err(Invalid::FoamSpeed)
            } else if !(c.scene.time_scale.finite()
                && (Single { bits: 0x3d4c_cccd }).rank() <= c.scene.time_scale.rank() <= one) {
                Err(Invalid::TimeScale)
            } else if !(c.scene.replay_after.finite() && c.scene.replay_after.rank() >= 0) {
                Err(Invalid::ReplayAfter)
            } else if !(c.render.surface_resolution.finite()
                && one <= 2 * c.render.surface_resolution.rank() <= 4 * one) {
                Err(Invalid::SurfaceResolution)
            } else if !(c.render.background.r.finite() && 0 <= c.render.background.r.rank() <= one)
                || !(c.render.background.g.finite() && 0 <= c.render.background.g.rank() <= one)
                || !(c.render.background.b.finite() && 0 <= c.render.background.b.rank() <= one) {
                Err(Invalid::Background)
            } else if !(c.render.deep_color.r.finite() && 0 <= c.render.deep_color.r.rank() <= one)
                || !(c.render.deep_color.g.finite() && 0 <= c.render.deep_color.g.rank() <= one)
                || !(c.render.deep_color.b.finite() && 0 <= c.render.deep_color.b.rank() <= one) {
                Err(Invalid::DeepColor)
            } else if !(c.render.mid_color.r.finite() && 0 <= c.render.mid_color.r.rank() <= one)
                || !(c.render.mid_color.g.finite() && 0 <= c.render.mid_color.g.rank() <= one)
                || !(c.render.mid_color.b.finite() && 0 <= c.render.mid_color.b.rank() <= one) {
                Err(Invalid::MidColor)
            } else if !(c.render.foam_color.r.finite() && 0 <= c.render.foam_color.r.rank() <= one)
                || !(c.render.foam_color.g.finite() && 0 <= c.render.foam_color.g.rank() <= one)
                || !(c.render.foam_color.b.finite() && 0 <= c.render.foam_color.b.rank() <= one) {
                Err(Invalid::FoamColor)
            } else if !m.voxels.nan() && m.voxels.rank() > 4_000_000 * one {
                Err(Invalid::TooManySamples)
            } else {
                Ok(())
            }
        }),
{
    lemma_zero();
    lemma_round_numbers();
    reveal_with_fuel(verdict, 18);
}

/// A config is refused for the first of these that holds of it, and accepted
/// exactly if none does.
#[verifier::spinoff_prover]
#[verifier::rlimit(60)]
pub proof fn lemma_config_verdict(c: &Config, m: &Measures, r: Result<(), Invalid>)
    requires
        judged(checks(c, m), r),
    ensures
        ({
            let one = pow2(149) as int;
            let tank = c.scene.scenario is Wave;
            let (w, swell, g, t) = (c.wave, c.swell, c.world.gravity, m.wave);
            r == if c.fluid.block[0] == 0
                || c.fluid.block[1] == 0 || c.fluid.block[2] == 0 {
                Err(Invalid::EmptyBlock)
            } else if !(c.fluid.spacing.finite() && c.fluid.spacing.rank() > 0) {
                Err(Invalid::Spacing(c.fluid.spacing))
            } else if !(c.world.width.finite() && c.world.width.rank() > 0) {
                Err(Invalid::Width(c.world.width))
            } else if !(c.world.height.finite() && c.world.height.rank() > 0) {
                Err(Invalid::Height(c.world.height))
            } else if !(c.world.depth.finite() && c.world.depth.rank() > 0) {
                Err(Invalid::Depth(c.world.depth))
            } else if !(m.ratio.finite() && 2 * m.ratio.rank() >= 3 * one) {
                Err(Invalid::Ratio(m.ratio))
            } else if c.scene.scenario is DamBreak
                && (c.fluid.block[0] > m.room_x.floor_as_usize()
                    || c.fluid.block[1] > m.room_y.floor_as_usize()
                    || c.fluid.block[2] > m.room_z.floor_as_usize()) {
                Err(
                    Invalid::BlockTooBig(
                        BlockReport {
                            block_x: c.fluid.block[0],
                            block_y: c.fluid.block[1],
                            block_z: c.fluid.block[2],
                            spacing: c.fluid.spacing,
                            needs_x: m.needs_x,
                            needs_y: m.needs_y,
                            needs_z: m.needs_z,
                            width: c.world.width,
                            height: c.world.height,
                            depth: c.world.depth,
                            max_x: m.room_x.floor_as_usize() as usize,
                            max_y: m.room_y.floor_as_usize() as usize,
                            max_z: m.room_z.floor_as_usize() as usize,
                        },
                    ),
                )
            } else if !c.world.gravity.x.finite() || !c.world.gravity.y.finite()
                || !c.world.gravity.z.finite() {
                Err(Invalid::Gravity)
            } else if tank && !(w.water_depth.finite() && w.water_depth.rank() >= 0) {
                Err(Invalid::WaterDepth)
            } else if tank && !(w.reef_height.finite() && w.reef_height.rank() >= 0) {
                Err(Invalid::ReefHeight)
            } else if tank && !(w.reef_start.finite() && w.reef_start.rank() >= 0) {
                Err(Invalid::ReefStart)
            } else if tank && !(w.reef_width.finite() && w.reef_width.rank() >= 0) {
                Err(Invalid::ReefWidth)
            } else if tank && !(w.beach_width.finite() && w.beach_width.rank() >= 0) {
                Err(Invalid::BeachWidth)
            } else if tank && !(w.reef_skew.finite() && -one <= w.reef_skew.rank() <= one) {
                Err(Invalid::ReefSkew)
            } else if tank
                && (g.x.nan() || g.x.rank() != 0 || g.z.nan() || g.z.rank() != 0
                    || !g.y.finite() || g.y.rank() >= 0) {
                Err(Invalid::Upward)
            } else if tank
                && !(swell.direction.finite() && -60 * one <= swell.direction.rank() <= 60 * one) {
                Err(Invalid::Direction)
            } else if tank
                && (swell.waves != 1 && !(swell.period.finite() && swell.period.rank() > 0)) {
                Err(Invalid::Period)
            } else if tank && !(swell.height.finite() && swell.height.rank() >= 0) {
                Err(Invalid::SwellHeight)
            } else if tank && (swell.height.rank() > 0 && less(swell.height, t.three_spacings)) {
                Err(Invalid::SwellUnresolved)
            } else if tank && less(w.water_depth, t.two_layers) {
                Err(Invalid::ReefTooHigh)
            } else if tank && less(t.size_y, t.crest) {
                Err(Invalid::CrestTooHigh)
            } else if tank
                && (swell.waves != 1
                    && (!t.wavelength.finite() || less(t.wavelength, t.twelve_spacings))) {
                Err(Invalid::WavelengthUnresolved)
            } else if tank && (swell.waves != 1 && less(w.water_depth, t.half_wavelength)) {
                Err(Invalid::TooShallow(t.half_wavelength))
            } else if tank
                && (swell.waves != 1 && !t.steepness.nan()
                    && t.steepness.rank() > (Single { bits: 0x3df5_c28f }).rank()) {
                Err(Invalid::TooSteep)
            } else if tank && (swell.waves != 1 && less(t.offshore, t.generation)) {
                Err(Invalid::ReefTooNear)
            } else if tank && less(t.rise, t.two_spacings) {
                Err(Invalid::RiseUnresolved)
            } else if tank
                && (w.beach_width.rank() < (Single { bits: 0x3dcc_cccd }).rank()
                    || w.beach_width.rank() > (Single { bits: 0x3ecc_cccd }).rank()
                    || !t.size_x.nan() && !t.beach_end.nan() && t.size_x.rank() <= t.beach_end.rank()) {
                Err(Invalid::Beach)
            } else if tank && less(t.size_z, t.eight_spacings) {
                Err(Invalid::TankTooNarrow)
            } else if c.solver.iterations == 0 {
                Err(Invalid::Iterations)
            } else if c.solver.substeps == 0 {
                Err(Invalid::Substeps)
            } else if m.courant.nan()
                || m.courant.rank() > (Single { bits: 0x3f73_3333 }).rank() {
                Err(
                    Invalid::TooFast(
                        SpeedReport {
                            courant: m.courant,
                            spacing: c.fluid.spacing,
                            smoothing_radius: c.fluid.smoothing_radius,
                            peak: m.peak,
                            required: (if m.needed_substeps.ceil_as_u32() >= 1 {
                                m.needed_substeps.ceil_as_u32()
                            } else {
                                1
                            }) as u32,
                            substeps: c.solver.substeps,
                        },
                    ),
                )
            } else if !(c.solver.jacobi_relax.finite()
                && 0 < c.solver.jacobi_relax.rank() <= (Single { bits: 0x3f0c_cccd }).rank()) {
                Err(Invalid::JacobiRelax(c.solver.jacobi_relax))
            } else if !(c.solver.relaxation.finite() && c.solver.relaxation.rank() > 0) {
                Err(Invalid::Relaxation)
            } else if !(c.solver.wall_friction.finite()
                && 0 <= c.solver.wall_friction.rank() <= one) {
                Err(Invalid::WallFriction(c.solver.wall_friction))
            } else if !(c.render.particle_scale.finite() && c.render.particle_scale.rank() > 0) {
                Err(Invalid::ParticleScale)
            } else if !(c.render.foam_speed.finite() && c.render.foam_speed.rank() > 0) {
                Err(Invalid::FoamSpeed)
            } else if !(c.scene.time_scale.finite()
                && (Single { bits: 0x3d4c_cccd }).rank() <= c.scene.time_scale.rank() <= one) {
                Err(Invalid::TimeScale)
            } else if !(c.scene.replay_after.finite() && c.scene.replay_after.rank() >= 0) {
                Err(Invalid::ReplayAfter)
            } else if !(c.render.surface_resolution.finite()
                && one <= 2 * c.render.surface_resolution.rank() <= 4 * one) {
                Err(Invalid::SurfaceResolution)
            } else if !(c.render.background.r.finite() && 0 <= c.render.background.r.rank() <= one)
                || !(c.render.background.g.finite() && 0 <= c.render.background.g.rank() <= one)
                || !(c.render.background.b.finite() && 0 <= c.render.background.b.rank() <= one) {
                Err(Invalid::Background)
            } else if !(c.render.deep_color.r.finite() && 0 <= c.render.deep_color.r.rank() <= one)
                || !(c.render.deep_color.g.finite() && 0 <= c.render.deep_color.g.rank() <= one)
                || !(c.render.deep_color.b.finite() && 0 <= c.render.deep_color.b.rank() <= one) {
                Err(Invalid::DeepColor)
            } else if !(c.render.mid_color.r.finite() && 0 <= c.render.mid_color.r.rank() <= one)
                || !(c.render.mid_color.g.finite() && 0 <= c.render.mid_color.g.rank() <= one)
                || !(c.render.mid_color.b.finite() && 0 <= c.render.mid_color.b.rank() <= one) {
                Err(Invalid::MidColor)
            } else if !(c.render.foam_color.r.finite() && 0 <= c.render.foam_color.r.rank() <= one)
                || !(c.render.foam_color.g.finite() && 0 <= c.render.foam_color.g.rank() <= one)
                || !(c.render.foam_color.b.finite() && 0 <= c.render.foam_color.b.rank() <= one) {
                Err(Invalid::FoamColor)
            } else if !m.voxels.nan() && m.voxels.rank() > 4_000_000 * one {
                Err(Invalid::TooManySamples)
            } else {
                Ok(())
            }
        }),
{
    let (first, last) = (fluid_checks(c, m), solver_checks(c, m));
    let tank = tank_checks(&c.wave, &c.swell, &c.world.gravity, &m.wave);
    lemma_verdict(checks(c, m), r);
    lemma_fluid_chain(c, m);
    lemma_tank_chain(&c.wave, &c.swell, &c.world.gravity, &m.wave);
    lemma_solver_chain(c, m);
    lemma_verdict_joins(first, last, 0);
    lemma_verdict_joins(first, tank, 0);
    lemma_verdict_joins(first + tank, last, 0);
}

/// The settings that a config starts from: a dam break in a box 400 by 300 by 400
/// under a gravity of 1400, eight iterations of one substep on the device; and, for
/// a wave tank, water 190 deep over a reef 174 high, with an endless swell 40 high.
pub proof fn lemma_defaults()
    ensures
        default_scene().scenario == Scenario::DamBreak,
        default_scene().time_scale.bits == 0x3f80_0000,
        default_scene().replay_after.bits == 0,
        default_world().width.bits == 0x43c8_0000,
        default_world().height.bits == 0x4396_0000,
        default_world().depth.bits == 0x43c8_0000,
        default_world().gravity.x.bits == 0,
        default_world().gravity.y.bits == 0xc4af_0000,
        default_world().gravity.z.bits == 0,
        default_solver().backend == Backend::Gpu,
        default_solver().iterations == 8,
        default_solver().substeps == 1,
        default_solver().jacobi_relax.bits == 0x3f00_0000,
        default_solver().relaxation.bits == 0x3d4c_cccd,
        default_solver().viscosity.bits == 0x3da3_d70a,
        default_solver().tensile_k.bits == 0x3d23_d70a,
        default_solver().tensile_q.bits == 0x3e4c_cccd,
        default_solver().tensile_n == 4,
        !default_solver().clamp_constraint,
        default_solver().wall_friction.bits == 0x3f7a_e148,
        default_render().surface_resolution.bits == 0x3f59_999a,
        !default_render().show_bounds,
        default_render().particle_scale.bits == 0x4019_999a,
        default_render().foam_speed.bits == 0x4461_0000,
        default_render().background.r.bits == 0x3f2b_851f,
        default_render().background.g.bits == 0x3f4c_cccd,
        default_render().background.b.bits == 0x3f5e_b852,
        default_render().deep_color.r.bits == 0x3c75_c28f,
        default_render().deep_color.g.bits == 0x3e23_d70a,
        default_render().deep_color.b.bits == 0x3e4c_cccd,
        default_render().mid_color.r.bits == 0x3da3_d70a,
        default_render().mid_color.g.bits == 0x3f14_7ae1,
        default_render().mid_color.b.bits == 0x3f07_ae14,
        default_render().foam_color.r.bits == 0x3f6b_851f,
        default_render().foam_color.g.bits == 0x3f7a_e148,
        default_render().foam_color.b.bits == 0x3f80_0000,
        default_render().vsync,
        default_input().mouse_radius.bits == 0x42dc_0000,
        default_input().mouse_strength.bits == 0x461c_4000,
        default_wave().water_depth.bits == 0x433e_0000,
        default_wave().reef_height.bits == 0x432e_0000,
        default_wave().reef_start.bits == 0x3e99_999a,
        default_wave().reef_width.bits == 0x3e75_c28f,
        default_wave().reef_skew.bits == 0x3df5_c28f,
        default_wave().beach_width.bits == 0x3e61_47ae,
        default_swell().direction.bits == 0,
        default_swell().height.bits == 0x4220_0000,
        default_swell().period.bits == 0x3fe6_6666,
        default_swell().waves == 0,
{
}

/// A swell's direction stands between a tank and its acceptance exactly if it is
/// not finite, or lies outside -60 to 60 degrees: any other is as good as straight
/// on, whatever else is said of the tank.
pub proof fn lemma_direction(
    w: &Wave,
    swell: &Swell,
    gravity: &Point,
    m: &WaveMeasures,
    r: Result<(), Invalid>,
    straight: Result<(), Invalid>,
)
    requires
        judged(tank_checks(w, swell, gravity, m), r),
        judged(tank_checks(w, &(Swell { direction: zero(), ..*swell }), gravity, m), straight),
    ensures
        swell.direction.finite() && -60 * pow2(149) <= swell.direction.rank() <= 60 * pow2(149)
            ==> r == straight && r != Err::<(), Invalid>(Invalid::Direction),
        !(swell.direction.finite() && -60 * pow2(149) <= swell.direction.rank() <= 60 * pow2(149))
            ==> r is Err && straight != Err::<(), Invalid>(Invalid::Direction),
{
    lemma_zero();
    lemma_pow2_pos(149);
    lemma_tank_verdict(w, swell, gravity, m, r);
    lemma_tank_verdict(w, &(Swell { direction: zero(), ..*swell }), gravity, m, straight);
}

} // verus!
