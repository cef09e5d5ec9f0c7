use fluids::gpu_fluid::GpuFluid;
use fluids::render::{
    box_edges, diagnostic_stride, drawn_at, droplets_in, first_capacity, frozen, grow_spray_mesh,
    grow_water_mesh, particle_looks, plan_rebuild, quad_mesh, spray_style, sync_surface,
    toggle_diagnostics, Look, Rebuild, RebuildKey, Shown, SurfaceSync, MAX_DROPLETS,
};
use fluids::sim::{Bounds, Fluid, FluidParams};
use fluids::single::{Point, Single};
use fluids::spray_gpu::GpuSpray;
use fluids::surface_gpu::{GpuSurface, SurfaceLayout};

fn s(v: f32) -> Single {
    Single { bits: v.to_bits() }
}

fn p(v: f32) -> Point {
    Point { x: s(v), y: s(v), z: s(v) }
}

fn fluid() -> Fluid {
    let params = FluidParams {
        smoothing_radius: s(20.0),
        spacing: s(10.0),
        iterations: 8,
        substeps: 1,
        relaxation: s(0.05),
        viscosity: s(0.08),
        tensile_k: s(0.04),
        tensile_q: s(0.2),
        tensile_n: 4,
        clamp_constraint: false,
        gravity: p(0.0),
        jacobi_relax: s(0.5),
        wall_friction: s(0.98),
        bounds: Bounds { min: p(-20.0), max: p(20.0) },
    };
    let mut fluid = Fluid::new(params, 3, 3, 3);
    fluid.fill_block([6, 5, 10]);
    fluid
}

#[test]
fn meshes_grow_when_they_are_outgrown() {
    assert_eq!(first_capacity(10), 16384);
    assert_eq!(first_capacity(100_000), 125_000);
    assert_eq!(grow_water_mesh(100, 100), None);
    assert_eq!(grow_water_mesh(101, 100), Some(151));
    assert_eq!(grow_spray_mesh(4096, 4096), None);
    assert_eq!(grow_spray_mesh(5000, 4096), Some(7500));
    assert_eq!(grow_spray_mesh(100_000, 4096), Some(MAX_DROPLETS));
    assert_eq!(grow_spray_mesh(1_000_000, 4096), Some(MAX_DROPLETS));
    assert_eq!(grow_spray_mesh(1_000_000, MAX_DROPLETS), None);
    assert_eq!(droplets_in(24, 24 + 24 * 5 + 23), 5);
}

#[test]
fn the_diagnostic_shows_an_even_sample_past_the_limit() {
    assert_eq!(diagnostic_stride(0), 1);
    assert_eq!(diagnostic_stride(131_072), 1);
    assert_eq!(diagnostic_stride(131_073), 2);
    assert_eq!(diagnostic_stride(1_306_995), 10);
    for n in [1u32, 131_072, 131_073, 1_306_995, u32::MAX] {
        let stride = diagnostic_stride(n);
        assert!(n.div_ceil(stride) <= MAX_DROPLETS);
    }
}

#[test]
fn a_rebuild_is_skipped_where_nothing_changed() {
    let mut fluid = fluid();
    let (mut solver, _) = GpuFluid::new(&fluid, 72, 16);
    let layout = SurfaceLayout {
        origin: p(-44.0),
        cell: s(8.5),
        voxels_x: 12,
        voxels_y: 11,
        voxels_z: 10,
        radius: s(24.0),
        radius2: s(576.0),
        reference: s(9.0),
        bounds_min: p(-20.0),
        dims_x: 3,
        dims_y: 3,
        dims_z: 3,
    };
    let key = RebuildKey {
        generation: 1,
        elapsed: 0,
        alpha: 0,
        water: 16384,
        droplets: 4096,
        diagnostic: false,
    };
    assert_eq!(plan_rebuild(None, key, &None, &solver), Rebuild::Built { fresh: true });
    let builders = Some((GpuSurface::new(&solver, &layout), GpuSpray::new(&solver)));
    assert_eq!(plan_rebuild(Some(key), key, &builders, &solver), Rebuild::Kept);
    let later = RebuildKey { elapsed: 1, ..key };
    assert_eq!(
        plan_rebuild(Some(key), later, &builders, &solver),
        Rebuild::Built { fresh: false }
    );
    fluid.fill_block([5, 6, 10]);
    solver.sync(&fluid, &mut vec![]);
    assert_eq!(
        plan_rebuild(Some(key), later, &builders, &solver),
        Rebuild::Built { fresh: false }
    );
    fluid.fill_block([6, 5, 9]);
    solver.sync(&fluid, &mut vec![]);
    assert_eq!(
        plan_rebuild(Some(key), later, &builders, &solver),
        Rebuild::Built { fresh: true }
    );
    assert_eq!(spray_style(s(2.0), s(1.0), false, &solver).diagnostic, None);
    assert_eq!(spray_style(s(2.0), s(1.0), true, &solver).diagnostic, Some(1));
}

#[test]
fn a_frozen_picture_is_drawn_at_the_end_of_its_step() {
    assert!(frozen(true, false) && frozen(false, true) && !frozen(false, false));
    assert_eq!(drawn_at(true, s(0.3)), s(1.0));
    assert_eq!(drawn_at(false, s(0.3)), s(0.3));
    assert_eq!(sync_surface(false, true, true, 4, 3), SurfaceSync::Still);
    assert_eq!(sync_surface(true, true, false, 4, 3), SurfaceSync::Here);
    assert_eq!(sync_surface(false, false, true, 4, 3), SurfaceSync::OnDevice { timed: true });
    assert_eq!(sync_surface(false, false, true, 4, 4), SurfaceSync::OnDevice { timed: false });
}

#[test]
fn spray_is_drawn_as_droplets() {
    let spray = vec![s(0.0), s(0.1), s(0.11), s(f32::NAN), s(1.0)];
    assert_eq!(
        particle_looks(false, &spray),
        vec![Look::Hidden, Look::Hidden, Look::Droplet, Look::Hidden, Look::Droplet]
    );
    assert_eq!(particle_looks(true, &spray), vec![Look::Ball; 5]);
}

#[test]
fn views_toggle_back() {
    let first = Shown { diagnostic: false, water: true, bounds: false };
    let mut shown = first;
    toggle_diagnostics(&mut shown, true, true);
    assert_eq!(shown, Shown { diagnostic: true, water: false, bounds: true });
    toggle_diagnostics(&mut shown, true, true);
    assert_eq!(shown, first);
    toggle_diagnostics(&mut shown, false, false);
    assert_eq!(shown, first);
}

#[test]
fn a_box_has_twelve_edges() {
    let mut wanted = vec![];
    for a in 0..8usize {
        for b in a + 1..8 {
            if (a ^ b).count_ones() == 1 {
                wanted.push((a, b));
            }
        }
    }
    // Corner by corner, and along x, y and z from each.
    assert_eq!(box_edges(), wanted);
}

#[test]
fn quads_are_two_triangles_each() {
    assert!(quad_mesh(0).is_empty());
    let points = quad_mesh(2);
    assert_eq!(points.len(), 24);
    assert_eq!(&points[6..12], &[(1, 0), (1, 1), (2, 0), (2, 0), (1, 1), (2, 1)]);
    assert_eq!(&points[12..15], &[(0, 1), (0, 2), (1, 1)]);
}
