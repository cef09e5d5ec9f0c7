use fluids::gpu_params::{
    extend, flags, grid_params, scene, Derived, Impulse, Maker, Sizes, CLAMP, MAKER, SINGLE, WAVE,
};
use fluids::sim::{Bounds, FluidParams};
use fluids::single::{Point, Single};
use fluids::wave::Wave;

fn s(v: f32) -> Single {
    Single { bits: v.to_bits() }
}

fn p(x: f32, y: f32, z: f32) -> Point {
    Point { x: s(x), y: s(y), z: s(z) }
}

fn maker(single: bool) -> Maker {
    Maker {
        origin_x: s(51.0),
        amplitude: s(52.0),
        omega: s(53.0),
        wavenumber: s(54.0),
        direction: p(0.6, 0.0, 0.8),
        depth: s(55.0),
        level: s(56.0),
        generation_width: s(57.0),
        period: s(58.0),
        beach_start: s(59.0),
        beach_width: s(60.0),
        single,
    }
}

#[test]
fn flags_switch_parts_on() {
    assert_eq!(flags(false, None, false), 0);
    assert_eq!(flags(true, None, true), WAVE + CLAMP);
    assert_eq!(flags(true, Some(maker(false)), false), WAVE + MAKER);
    assert_eq!(flags(true, Some(maker(true)), true), WAVE + SINGLE + CLAMP + MAKER);
    assert_eq!((WAVE, SINGLE, CLAMP, MAKER), (1, 2, 4, 8));
}

fn params() -> FluidParams {
    FluidParams {
        smoothing_radius: s(20.0),
        spacing: s(10.0),
        iterations: 8,
        substeps: 2,
        relaxation: s(0.05),
        viscosity: s(0.08),
        tensile_k: s(0.04),
        tensile_q: s(0.2),
        tensile_n: -4,
        clamp_constraint: true,
        gravity: p(0.0, -1400.0, 0.0),
        jacobi_relax: s(0.5),
        wall_friction: s(0.98),
        bounds: Bounds { min: p(-200.0, -150.0, -200.0), max: p(200.0, 150.0, 200.0) },
    }
}

fn derived() -> Derived {
    Derived {
        bounds_size: p(400.0, 300.0, 400.0),
        wall_min: p(-195.0, -145.0, -195.0),
        wall_max: p(195.0, 145.0, 195.0),
        h2: s(400.0),
        poly6: s(31.0),
        spiky: s(32.0),
        inv_rho0: s(33.0),
        epsilon: s(34.0),
        tensile_scale: s(35.0),
        tensile_w: s(36.0),
        margin: s(5.0),
        touch: s(37.0),
        speed_scale: s(38.0),
        interior_scale: s(39.0),
    }
}

fn sizes() -> Sizes {
    Sizes {
        n: 216,
        capacity: 72,
        dims_x: 21,
        dims_y: 16,
        dims_z: 21,
        cells: 7056,
        reduce_size: 256,
    }
}

#[test]
fn a_scene_is_written_as_the_shader_reads_it() {
    let wave = Wave {
        water_depth: s(190.0),
        reef_height: s(61.0),
        reef_start: s(62.0),
        reef_width: s(63.0),
        reef_skew: s(64.0),
        beach_width: s(65.0),
    };
    let push = Impulse { center: p(1.0, 2.0, 3.0), radius: s(110.0), strength: s(166.0) };
    let scene = scene(
        &params(),
        &derived(),
        &sizes(),
        Some(wave),
        Some(maker(false)),
        s(0.125),
        s(7.5),
        Some(push),
        p(0.0, 0.0, -1.0),
    );
    assert_eq!(scene.impulse, extend(push.center, push.radius));
    assert_eq!(scene.strength, push.strength);
    assert_eq!(scene.grid_origin, extend(p(-200.0, -150.0, -200.0), s(20.0)));
    assert_eq!(scene.reef_start, s(62.0));
    assert_eq!(scene.omega, s(53.0));
    let words = scene.words();
    assert_eq!(words.len() * 4, 336);
    let at = |k: usize| f32::from_bits(words[k]);
    // Ten quads, then the counts, then the numbers.
    assert_eq!([at(0), at(1), at(2), at(3)], [-200.0, -150.0, -200.0, 0.0]);
    assert_eq!([at(20), at(21), at(22)], [0.0, -1400.0, 0.0]);
    assert_eq!([at(32), at(33), at(34), at(35)], [1.0, 2.0, 3.0, 110.0]);
    assert_eq!([at(36), at(37), at(38)], [0.0, 0.0, -1.0]);
    assert_eq!(&words[40..49], &[216, 72, 21, 16, 21, 7056, 13, (-4i32) as u32, 256]);
    assert_eq!([at(49), at(50), at(51), at(52)], [0.125, 7.5, 20.0, 400.0]);
    assert!(words[81..].iter().all(|&w| w == 0));
}

#[test]
fn a_still_scene_switches_the_rest_off() {
    let scene = scene(
        &params(),
        &derived(),
        &sizes(),
        None,
        None,
        s(0.125),
        s(0.0),
        None,
        p(0.0, 0.0, 0.0),
    );
    assert_eq!(scene.flags, CLAMP);
    assert_eq!(scene.amplitude, s(0.0));
    // Nothing that the shader divides by is zero.
    assert_eq!((scene.generation_width, scene.period, scene.beach_width), (s(1.0), s(1.0), s(1.0)));
    assert_eq!(scene.reef_width, s(0.24));
    assert_eq!(scene.strength, s(0.0));
}

#[test]
fn a_grid_needs_only_its_shape() {
    let grid = grid_params(p(-1.0, -2.0, -3.0), s(24.0), 99, 5, 6, 7, 210);
    assert_eq!(grid.grid_origin, extend(p(-1.0, -2.0, -3.0), s(24.0)));
    assert_eq!((grid.n, grid.cells, grid.capacity), (99, 210, 0));
    assert_eq!((grid.dims_x, grid.dims_y, grid.dims_z), (5, 6, 7));
    assert_eq!(grid.h, s(0.0));
}
