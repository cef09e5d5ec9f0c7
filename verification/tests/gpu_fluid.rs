use fluids::gpu::{Buffer, Command, Extra, GridOf, Group, Kernel, ScanOf, Span};
use fluids::gpu_fluid::{
    neighbor_capacity, ray_hit, readout_of, rebuild_grid, storage_size, sweep, GpuFluid, GpuGrid,
    Readout,
};
use fluids::gpu_params::Quad;
use fluids::sim::{Bounds, Fluid, FluidParams};
use fluids::sim_gpu::Pass;
use fluids::single::{Point, Single};
use fluids::spray_gpu::{GpuSpray, SprayPass, SpraySlot, SprayStyle};
use fluids::surface_gpu::{GpuSurface, SurfaceLayout, SurfacePass, SurfaceSlot};

fn s(v: f32) -> Single {
    Single { bits: v.to_bits() }
}

fn f(v: Single) -> f32 {
    f32::from_bits(v.bits)
}

fn p(x: f32, y: f32, z: f32) -> Point {
    Point { x: s(x), y: s(y), z: s(z) }
}

fn fluid() -> Fluid {
    let params = FluidParams {
        smoothing_radius: s(20.0),
        spacing: s(10.0),
        iterations: 2,
        substeps: 1,
        relaxation: s(0.05),
        viscosity: s(0.08),
        tensile_k: s(0.04),
        tensile_q: s(0.2),
        tensile_n: 4,
        clamp_constraint: false,
        gravity: p(0.0, -1400.0, 0.0),
        jacobi_relax: s(0.5),
        wall_friction: s(0.98),
        bounds: Bounds { min: p(-20.0, -20.0, -20.0), max: p(20.0, 20.0, 20.0) },
    };
    let mut fluid = Fluid::new(params, 3, 3, 3);
    fluid.fill_block([6, 5, 10]);
    fluid
}

fn solved(program: &mut Vec<Command>, pass: Pass) {
    program.push(Command::Pipeline(Kernel::Solver(pass)));
    program.push(Command::Bind(Group::Solver(pass), None));
    program.push(Command::Dispatch(2, 1));
}

/// Passes are opened and closed in turn, work is done inside them and copies
/// outside, and nothing is left unsubmitted.
fn sound(program: &[Command]) {
    let mut inside = false;
    for command in program {
        match command {
            Command::BeginPass => {
                assert!(!inside);
                inside = true;
            }
            Command::EndPass => {
                assert!(inside);
                inside = false;
            }
            Command::Pipeline(_) | Command::Bind(_, _) | Command::Dispatch(_, _) => {
                assert!(inside, "{command:?} outside a pass")
            }
            _ => assert!(!inside, "{command:?} inside a pass"),
        }
    }
    assert!(!inside);
    assert!(matches!(program.last(), None | Some(Command::Submit)));
}

#[test]
fn buffers_are_sized_for_the_fluid() {
    let (solver, program) = GpuFluid::new(&fluid(), 72, 256);
    assert_eq!(program[0], Command::Allocate);
    sound(&program);
    assert_eq!(solver.len(), 300);
    assert_eq!((solver.capacity(), solver.revision(), solver.max_neighbors()), (72, 0, 0));
    let b = &solver.buffers;
    assert_eq!(b.size(Buffer::Params), 336);
    assert_eq!(b.size(Buffer::Positions), 4800);
    assert_eq!(b.size(Buffer::Foam), 1200);
    assert_eq!(b.size(Buffer::Neighbors), 300 * 72 * 4);
    assert_eq!(b.size(Buffer::Readback), 300 * 60);
    // 27 cells and a total take a scan of 32; 300 particles a reduction of 512.
    assert_eq!(b.size(Buffer::Starts(GridOf::Solver)), 32 * 4);
    assert_eq!(b.reduce_size, 512);
    assert_eq!(b.size(Buffer::Stats), 512 * 16);
    assert_eq!(b.reduce_levels.runs.len(), 9);
    assert_eq!(b.reduce_levels.bytes.len(), 9 * 256);
    let sizes = b.sizes();
    assert_eq!((sizes.n, sizes.cells, sizes.reduce_size), (300, 27, 512));
    assert_eq!((storage_size(0), storage_size(5), storage_size(8)), (4, 8, 8));
}

#[test]
fn an_empty_fluid_still_has_a_slot() {
    let mut empty = fluid();
    empty.fill_block([0, 5, 10]);
    let (mut solver, _) = GpuFluid::new(&empty, 32, 16);
    assert_eq!(solver.len(), 1);
    assert_eq!(solver.buffers.reduce_size, 2);
    let (program, pushes) = solver.step(&empty, s(1.0 / 60.0));
    assert!(program.is_empty() && pushes.is_empty());
}

#[test]
fn neighbour_slots_are_twice_the_kernel_ball() {
    // A ball of two spacings' radius holds 33.5 of them.
    let ball = 4.0 / 3.0 * std::f32::consts::PI * 8.0;
    assert_eq!(neighbor_capacity(s(2.0 * ball)), 72);
    assert_eq!(neighbor_capacity(s(0.0)), 32);
    assert_eq!(neighbor_capacity(s(96.0)), 96);
}

#[test]
fn a_grid_is_rebuilt_by_counting_sort() {
    let grid = GpuGrid::new(300, 3, 16);
    assert_eq!(grid.size, 4);
    let mut program = vec![];
    rebuild_grid(&mut program, GridOf::Surface, &grid);
    let of = |pass, run: Vec<(Option<u32>, u32)>| {
        let mut list = vec![Command::Pipeline(Kernel::Solver(pass))];
        for (offset, groups) in run {
            list.push(Command::Bind(Group::Grid(GridOf::Surface, pass), offset));
            list.push(Command::Dispatch(groups, 1));
        }
        list
    };
    let mut wanted = vec![Command::Clear(Buffer::Starts(GridOf::Surface)), Command::BeginPass];
    wanted.extend(of(Pass::Bin, vec![(None, 2)]));
    wanted.extend(of(Pass::Count, vec![(None, 2)]));
    wanted.extend(of(
        Pass::Prefix,
        vec![(Some(0), 1), (Some(16), 1), (Some(32), 1), (Some(48), 1)],
    ));
    wanted.push(Command::EndPass);
    wanted.push(Command::Copy {
        from: Buffer::Starts(GridOf::Surface),
        at: 0,
        to: Buffer::Cursor(GridOf::Surface),
        to_at: 0,
        bytes: None,
    });
    wanted.push(Command::BeginPass);
    wanted.extend(of(Pass::Scatter, vec![(None, 2)]));
    wanted.extend(of(Pass::SortCells, vec![(None, 1)]));
    wanted.push(Command::EndPass);
    assert_eq!(program, wanted);
    assert_eq!(sweep(8, false, 32).runs, vec![(0, 4), (32, 2), (64, 1)]);
}

#[test]
fn a_step_predicts_searches_and_iterates() {
    let fluid = fluid();
    let (mut solver, _) = GpuFluid::new(&fluid, 72, 16);
    let (first, pushes) = solver.step(&fluid, s(1.0 / 60.0));
    sound(&first);
    assert!(pushes.is_empty());
    let mut wanted = vec![
        Command::Copy {
            from: Buffer::Positions,
            at: 0,
            to: Buffer::Previous,
            to_at: 0,
            bytes: None,
        },
        Command::AdvanceClock,
        Command::WriteParams(Span::Substep, Extra::Nothing),
        Command::BeginPass,
    ];
    solved(&mut wanted, Pass::Predict);
    wanted.push(Command::EndPass);
    rebuild_grid(&mut wanted, GridOf::Solver, &solver.buffers.grid);
    wanted.push(Command::BeginPass);
    solved(&mut wanted, Pass::Neighbors);
    for _ in 0..2 {
        solved(&mut wanted, Pass::Lambda);
        solved(&mut wanted, Pass::Delta);
        solved(&mut wanted, Pass::ApplyDelta);
    }
    solved(&mut wanted, Pass::Velocity);
    solved(&mut wanted, Pass::Viscosity);
    wanted.push(Command::EndPass);
    wanted.push(Command::Copy {
        from: Buffer::Scratch,
        at: 0,
        to: Buffer::Velocities,
        to_at: 0,
        bytes: None,
    });
    wanted.push(Command::Submit);
    wanted.push(Command::WriteParams(Span::Frame, Extra::Nothing));
    wanted.push(Command::BeginPass);
    solved(&mut wanted, Pass::Foam);
    wanted.push(Command::EndPass);
    wanted.push(Command::Copy {
        from: Buffer::MaxNeighbors,
        at: 0,
        to: Buffer::Probe,
        to_at: 0,
        bytes: Some(4),
    });
    wanted.push(Command::Submit);
    assert_eq!(first, wanted);

    // From the second step on the particles are renumbered first.
    let (second, _) = solver.step(&fluid, s(1.0 / 60.0));
    sound(&second);
    let gathers: Vec<&Command> = second
        .iter()
        .filter(|c| matches!(c, Command::Bind(Group::Gather(_), _)))
        .collect();
    assert_eq!(gathers.len(), 6);
    assert_eq!(solver.since_renumber, 0);
    assert_eq!(&second[second.len() - wanted.len()..], &wanted[..]);
}

#[test]
fn pushes_are_played_in_order_and_once() {
    let mut fluid = fluid();
    let (mut solver, _) = GpuFluid::new(&fluid, 72, 16);
    solver.apply_radial_impulse(&fluid, p(0.0, 0.0, 0.0), s(110.0), s(400.0));
    solver.apply_radial_impulse(&fluid, p(1.0, 0.0, 0.0), s(110.0), s(-400.0));
    let (nothing, none) = solver.step(&fluid, s(0.0));
    assert!(nothing.is_empty() && none.is_empty());
    let (program, pushes) = solver.step(&fluid, s(1.0 / 60.0));
    sound(&program);
    assert_eq!(pushes.iter().map(|i| f(i.strength)).collect::<Vec<_>>(), vec![400.0, -400.0]);
    let written: Vec<&Command> = program
        .iter()
        .filter(|c| matches!(c, Command::WriteParams(_, Extra::Impulse(_))))
        .collect();
    assert_eq!(
        written,
        vec![
            &Command::WriteParams(Span::Substep, Extra::Impulse(0)),
            &Command::WriteParams(Span::Substep, Extra::Impulse(1)),
        ]
    );
    let (_, pushes) = solver.step(&fluid, s(1.0 / 60.0));
    assert!(pushes.is_empty());

    // A refill drops what was queued for the old water.
    solver.apply_radial_impulse(&fluid, p(0.0, 0.0, 0.0), s(110.0), s(400.0));
    fluid.fill_block([6, 5, 10]);
    let (program, pushes) = solver.step(&fluid, s(1.0 / 60.0));
    sound(&program);
    assert!(pushes.is_empty());
    assert_eq!(program[0], Command::Write(Buffer::Positions));
    assert_eq!(solver.revision(), 0);
    fluid.fill_block([6, 5, 9]);
    let mut program = vec![];
    solver.sync(&fluid, &mut program);
    sound(&program);
    assert_eq!(program[0], Command::Allocate);
    assert_eq!((solver.revision(), solver.len()), (1, 270));
    let mut program = vec![];
    solver.sync(&fluid, &mut program);
    assert!(program.is_empty());
}

#[test]
fn a_push_after_a_refill_is_played() {
    let mut fluid = fluid();
    let (mut solver, _) = GpuFluid::new(&fluid, 72, 16);
    solver.step(&fluid, s(1.0 / 60.0));
    // One for the old water, and two for the new.
    solver.apply_radial_impulse(&fluid, p(0.0, 0.0, 0.0), s(110.0), s(100.0));
    fluid.fill_block([6, 5, 10]);
    solver.apply_radial_impulse(&fluid, p(0.0, 0.0, 0.0), s(110.0), s(200.0));
    solver.apply_radial_impulse(&fluid, p(0.0, 0.0, 0.0), s(110.0), s(300.0));
    let (program, pushes) = solver.step(&fluid, s(1.0 / 60.0));
    sound(&program);
    assert_eq!(pushes.iter().map(|i| f(i.strength)).collect::<Vec<_>>(), vec![200.0, 300.0]);
    assert_eq!(program[0], Command::Write(Buffer::Positions));
    assert!(program.contains(&Command::WriteParams(Span::Substep, Extra::Impulse(1))));
    assert!(solver.impulses.is_empty());

    // A synchronisation between the push and the step takes nothing from it.
    solver.apply_radial_impulse(&fluid, p(0.0, 0.0, 0.0), s(110.0), s(400.0));
    fluid.fill_block([6, 5, 9]);
    solver.apply_radial_impulse(&fluid, p(0.0, 0.0, 0.0), s(110.0), s(500.0));
    solver.sync(&fluid, &mut vec![]);
    assert_eq!(solver.impulses.len(), 1);
    let (_, pushes) = solver.step(&fluid, s(1.0 / 60.0));
    assert_eq!(pushes.iter().map(|i| f(i.strength)).collect::<Vec<_>>(), vec![500.0]);
}

#[test]
fn an_upload_forgets_the_neighbourhoods_seen() {
    let fluid = fluid();
    let (mut solver, _) = GpuFluid::new(&fluid, 72, 16);
    solver.step(&fluid, s(1.0 / 60.0));
    assert!(solver.note_neighbors(40).is_empty());
    solver.step(&fluid, s(1.0 / 60.0));
    assert_eq!(solver.max_neighbors(), 40);
    // The same water again, with no reset in between.
    solver.upload(&fluid, &mut vec![]);
    assert_eq!(solver.max_neighbors(), 0);
}

#[test]
fn replaced_buffers_have_the_grid_of_the_fluid() {
    let mut fluid = fluid();
    let sides = (fluid.grid.cols as i32, fluid.grid.rows as i32, fluid.grid.layers as i32);
    let (mut solver, _) = GpuFluid::new(&fluid, 32, 16);
    let b = &solver.buffers;
    assert_eq!((b.dims_x, b.dims_y, b.dims_z, b.reduce_size), (sides.0, sides.1, sides.2, 512));
    fluid.fill_block([6, 5, 20]);
    solver.upload(&fluid, &mut vec![]);
    let b = &solver.buffers;
    assert_eq!((b.dims_x, b.dims_y, b.dims_z, b.reduce_size), (sides.0, sides.1, sides.2, 1024));
    let cells = b.cells;
    solver.note_neighbors(50);
    let b = &solver.buffers;
    assert_eq!((b.dims_x, b.dims_y, b.dims_z, b.cells), (sides.0, sides.1, sides.2, cells));
}

#[test]
fn overfull_lists_grow() {
    let fluid = fluid();
    let (mut solver, _) = GpuFluid::new(&fluid, 32, 16);
    assert!(solver.note_neighbors(32).is_empty());
    assert_eq!(solver.max_neighbors(), 32);
    assert_eq!(solver.note_neighbors(50), vec![Command::AllocateNeighbors]);
    // A quarter more, rounded up to eight.
    assert_eq!((solver.capacity(), solver.max_neighbors()), (64, 50));
    assert_eq!(solver.buffers.size(Buffer::Neighbors), 300 * 64 * 4);
    assert!(solver.note_neighbors(10).is_empty());
    assert_eq!(solver.max_neighbors(), 50);
}

#[test]
fn a_readout_is_refused_until_there_is_one() {
    let mut fluid = fluid();
    let (mut solver, _) = GpuFluid::new(&fluid, 72, 16);
    assert_eq!(solver.readout(&fluid), None);
    solver.step(&fluid, s(1.0 / 60.0));
    let program = solver.readout(&fluid).expect("nothing was measured");
    sound(&program);
    let copies: Vec<&Command> =
        program.iter().filter(|c| matches!(c, Command::Copy { .. })).collect();
    assert_eq!(
        copies,
        vec![
            &Command::Copy {
                from: Buffer::Stats,
                at: 511 * 16,
                to: Buffer::Top,
                to_at: 0,
                bytes: Some(16)
            },
            &Command::Copy {
                from: Buffer::Stats,
                at: 511 * 16,
                to: Buffer::Probe,
                to_at: 0,
                bytes: Some(16)
            },
        ]
    );
    fluid.fill_block([6, 5, 10]);
    assert_eq!(solver.readout(&fluid), None);
}

#[test]
fn a_ray_needs_a_direction() {
    let (solver, _) = GpuFluid::new(&fluid(), 72, 16);
    assert_eq!(solver.nearest_along_ray(p(0.0, -0.0, 0.0)), None);
    let program = solver.nearest_along_ray(p(0.0, 0.0, -1.0)).expect("the ray was not traced");
    sound(&program);
    assert!(program.contains(&Command::WriteParams(Span::Instant, Extra::Ray)));
    assert!(program.contains(&Command::Pipeline(Kernel::Solver(Pass::RayHits))));
    assert_eq!(ray_hit(p(1.0, 2.0, 3.0), s(-50.0)), Some(p(1.0, 2.0, 3.0)));
    assert_eq!(ray_hit(p(1.0, 2.0, 3.0), s(-3.0e38)), None);
    assert_eq!(ray_hit(p(1.0, 2.0, 3.0), s(f32::NAN)), None);
}

#[test]
fn water_without_bulk_reports_none() {
    let mut stats = Quad { x: s(30.0), y: s(9.7), z: s(10.0), w: s(351.0) };
    let readout = readout_of(stats, s(0.1), s(0.97));
    assert_eq!(readout, Readout { compression: s(0.1), bulk: s(0.97), peak_speed: s(351.0) });
    stats.z = s(0.0);
    assert!(f(readout_of(stats, s(0.1), s(f32::INFINITY)).bulk).is_nan());
}

#[test]
fn a_download_reads_every_buffer() {
    let (solver, _) = GpuFluid::new(&fluid(), 72, 16);
    let program = solver.download();
    sound(&program);
    let mut at = 0;
    for (command, (buffer, size)) in program.iter().zip([
        (Buffer::Positions, 16),
        (Buffer::Previous, 16),
        (Buffer::Velocities, 16),
        (Buffer::Foam, 4),
        (Buffer::Spray, 4),
        (Buffer::Ids, 4),
    ]) {
        let bytes = 300 * size;
        assert_eq!(
            *command,
            Command::Copy {
                from: buffer,
                at: 0,
                to: Buffer::Readback,
                to_at: at,
                bytes: Some(bytes)
            }
        );
        at += bytes;
    }
    assert_eq!(at, solver.buffers.size(Buffer::Readback));
}

fn layout() -> SurfaceLayout {
    SurfaceLayout {
        origin: p(-44.0, -44.0, -44.0),
        cell: s(8.5),
        voxels_x: 12,
        voxels_y: 11,
        voxels_z: 10,
        radius: s(24.0),
        radius2: s(576.0),
        reference: s(9.0),
        bounds_min: p(-20.0, -20.0, -20.0),
        dims_x: 3,
        dims_y: 3,
        dims_z: 3,
    }
}

#[test]
fn the_surface_is_rebuilt_on_the_device() {
    let mut fluid = fluid();
    let (mut solver, _) = GpuFluid::new(&fluid, 72, 16);
    let surface = GpuSurface::new(&solver, &layout());
    assert!(surface.matches(&solver));
    assert_eq!((surface.base.voxel_count, surface.base.cube_count), (1320, 990));
    assert_eq!(surface.offsets_size, 1024);
    let (params, program) = surface.rebuild(s(0.25), 7, 3000);
    sound(&program);
    let words = params.words();
    assert_eq!(words.len() * 4, 96);
    assert_eq!(f32::from_bits(words[3]), 8.5);
    assert_eq!(f32::from_bits(words[7]), 24.0);
    assert_eq!((words[8], f32::from_bits(words[9])), (300, 0.25));
    assert_eq!(&words[12..22], &[12, 11, 10, 1320, 3, 3, 3, 990, 7, 3000]);
    let kernels: Vec<Kernel> = program
        .iter()
        .filter_map(|c| match c {
            Command::Pipeline(Kernel::Surface(pass)) => Some(Kernel::Surface(*pass)),
            _ => None,
        })
        .collect();
    assert_eq!(
        kernels,
        vec![
            Kernel::Surface(SurfacePass::Interpolate),
            Kernel::Surface(SurfacePass::SampleDensity),
            Kernel::Surface(SurfacePass::Classify),
            Kernel::Surface(SurfacePass::Emit),
            Kernel::Surface(SurfacePass::ClearTail),
        ]
    );
    // The total is the offset past the last cube.
    assert!(program.contains(&Command::Copy {
        from: Buffer::Offsets(ScanOf::Surface),
        at: 4 * 990,
        to: Buffer::Total(ScanOf::Surface),
        to_at: 0,
        bytes: Some(4),
    }));
    fluid.fill_block([6, 5, 9]);
    solver.sync(&fluid, &mut vec![]);
    assert!(!surface.matches(&solver));
    assert_eq!(SurfacePass::Emit.entry(), "emit");
    assert_eq!(SurfacePass::Classify.bindings().len(), 3);
    assert_eq!(SurfaceSlot::Drawn.bound().0, 12);
}

#[test]
fn the_spray_is_rebuilt_on_the_device() {
    let mut fluid = fluid();
    let (mut solver, _) = GpuFluid::new(&fluid, 72, 16);
    let spray = GpuSpray::new(&solver);
    assert!(spray.matches(&solver));
    assert_eq!((spray.n, spray.offsets_size), (300, 512));
    let style = SprayStyle { radius: s(3.0), scale: s(1.5), diagnostic: None };
    let (params, program) = spray.rebuild(s(1.0), style, 24, 100);
    sound(&program);
    let words = params.words();
    assert_eq!(
        words,
        vec![300, 1.0f32.to_bits(), 3.0f32.to_bits(), 1.5f32.to_bits(), 0, 1, 100, 24]
    );
    let sampled = SprayStyle { diagnostic: Some(3), ..style };
    assert_eq!(&spray.rebuild(s(1.0), sampled, 24, 100).0.words()[4..6], &[1, 3]);
    let sampled = SprayStyle { diagnostic: Some(0), ..style };
    assert_eq!(&spray.rebuild(s(1.0), sampled, 24, 100).0.words()[4..6], &[1, 1]);
    assert!(program.contains(&Command::Copy {
        from: Buffer::Offsets(ScanOf::Spray),
        at: 4 * 300,
        to: Buffer::Drawn(ScanOf::Spray),
        to_at: 0,
        bytes: Some(4),
    }));
    fluid.fill_block([6, 5, 9]);
    solver.sync(&fluid, &mut vec![]);
    assert!(!spray.matches(&solver));
    assert_eq!(SprayPass::Place.entry(), "place_droplets");
    assert_eq!(SprayPass::Select.bindings()[2].0, SpraySlot::Offsets.bound().0);
}

#[test]
fn the_surface_and_the_spray_size_their_buffers() {
    let (solver, _) = GpuFluid::new(&fluid(), 72, 16);
    let surface = GpuSurface::new(&solver, &layout());
    let (grid, scan) = (GridOf::Surface, ScanOf::Surface);
    for (buffer, bytes) in [
        (Buffer::SurfaceParams, 96),
        (Buffer::Interp, 16 * 300),
        (Buffer::Samples, 16 * 1320),
        (Buffer::SampleFoam, 4 * 1320),
        (Buffer::CellsOf(grid), 4 * 300),
        (Buffer::Sorted(grid), 4 * 300),
        // Twenty-seven cells and a total, in a power of two.
        (Buffer::Starts(grid), 4 * 32),
        (Buffer::Cursor(grid), 4 * 32),
        (Buffer::GridLevels(grid), 10 * 16),
        (Buffer::Offsets(scan), 4 * 1024),
        (Buffer::ScanLevels(scan), 20 * 16),
        (Buffer::Drawn(scan), 4),
        (Buffer::Total(scan), 4),
        (Buffer::Positions, 0),
    ] {
        assert_eq!(surface.size(buffer), bytes, "{buffer:?}");
    }
    let spray = GpuSpray::new(&solver);
    for (buffer, bytes) in [
        (Buffer::SprayParams, 32),
        (Buffer::Offsets(ScanOf::Spray), 4 * 512),
        (Buffer::ScanLevels(ScanOf::Spray), 18 * 16),
        (Buffer::Drawn(ScanOf::Spray), 4),
        (Buffer::Total(ScanOf::Spray), 4),
        (Buffer::Offsets(scan), 0),
    ] {
        assert_eq!(spray.size(buffer), bytes, "{buffer:?}");
    }
    let style = SprayStyle { radius: s(3.0), scale: s(1.5), diagnostic: None };
    let in_bounds = |program: Vec<Command>, size: &dyn Fn(Buffer) -> u64| {
        for command in program {
            if let Command::Copy { from, at, to, to_at, bytes } = command {
                let length = bytes.unwrap_or(size(from));
                assert!(at + length <= size(from) && to_at + length <= size(to), "{command:?}");
            }
        }
    };
    in_bounds(surface.rebuild(s(1.0), 0, 3000).1, &|buffer| surface.size(buffer));
    in_bounds(spray.rebuild(s(1.0), style, 0, 100).1, &|buffer| spray.size(buffer));
}

#[test]
fn the_total_is_read_the_same_whatever_the_target() {
    let (solver, _) = GpuFluid::new(&fluid(), 72, 16);
    let surface = GpuSurface::new(&solver, &layout());
    let emit = Command::Pipeline(Kernel::Surface(SurfacePass::Emit));
    let split = |program: Vec<Command>| {
        let at = program.iter().position(|c| *c == emit).unwrap();
        (program[..at].to_vec(), program[program.len() - 3..].to_vec())
    };
    let first = split(surface.rebuild(s(1.0), 0, 0).1);
    assert!(matches!(first.1[0], Command::Copy { at: 3960, .. }));
    for (start, capacity) in [(0, 300), (24, 100_000)] {
        assert_eq!(split(surface.rebuild(s(1.0), start, capacity).1), first);
    }
}

#[test]
fn a_reset_solver_runs_what_a_new_one_runs() {
    let dt = s(1.0 / 60.0);
    let mut fluid = fluid();
    let (mut used, _) = GpuFluid::new(&fluid, 72, 16);
    for _ in 0..5 {
        used.step(&fluid, dt);
    }
    fluid.fill_block([6, 5, 9]);
    used.step(&fluid, dt);
    fluid.fill_block([6, 5, 10]);
    used.sync(&fluid, &mut vec![]);
    let (mut fresh, _) = GpuFluid::new(&fluid, 72, 16);
    for step in 0..4 {
        if step == 2 {
            used.apply_radial_impulse(&fluid, p(0.0, 0.0, 0.0), s(110.0), s(400.0));
            fresh.apply_radial_impulse(&fluid, p(0.0, 0.0, 0.0), s(110.0), s(400.0));
        }
        assert_eq!(used.step(&fluid, dt), fresh.step(&fluid, dt), "step {step}");
    }
}
