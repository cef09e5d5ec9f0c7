use fluids::config::{
    Config, Invalid, Measures, Piece, Rgb, Scenario, COURANT_LIMIT, RATIO_LIMIT, RELAX_LIMIT,
    SAMPLE_LIMIT, SLOWEST,
};
use fluids::sim::{Bounds, Fluid, Site};
use fluids::single::{Point, Single};
use fluids::wave::{LONGEST_BEACH, SHORTEST_BEACH, STEEPEST, WIDEST_ANGLE, WaveMeasures};

fn s(v: f32) -> Single {
    Single { bits: v.to_bits() }
}

fn f(v: Single) -> f32 {
    f32::from_bits(v.bits)
}

fn wavenumber(period: f32, gravity: f32, depth: f32) -> f32 {
    let omega2 = (std::f32::consts::TAU / period).powi(2);
    let mut lo = 0.0;
    let mut hi = (omega2 / gravity).max((omega2 / (gravity * depth)).sqrt()) * 2.0;
    for _ in 0..40 {
        let k = (lo + hi) * 0.5;
        if gravity * k * (k * depth).tanh() > omega2 {
            hi = k;
        } else {
            lo = k;
        }
    }
    (lo + hi) * 0.5
}

fn expected_peak_speed(c: &Config) -> f32 {
    let [gx, gy, gz] = [f(c.world.gravity.x), f(c.world.gravity.y), f(c.world.gravity.z)];
    let g = (gx * gx + gy * gy + gz * gz).sqrt();
    let fall = (c.fluid.block[1] as f32 * f(c.fluid.spacing)).min(f(c.world.height));
    if c.scene.scenario == Scenario::Wave {
        let depth = f(c.wave.water_depth);
        let k = wavenumber(f(c.swell.period), g, depth);
        let omega = std::f32::consts::TAU / f(c.swell.period);
        f(c.swell.height) * 0.5 * omega / (k * depth).tanh()
            + (2.0 * g * depth + 4.0 * g * f(c.swell.height)).sqrt()
    } else {
        (2.0 * g * fall).sqrt()
    }
}

fn courant_number(c: &Config, substeps: u32) -> f32 {
    let sub_dt = 1.0 / (60.0 * substeps as f32);
    expected_peak_speed(c) * sub_dt / f(c.fluid.smoothing_radius)
}

fn wave_measures(c: &Config) -> WaveMeasures {
    let (size, d) = ([f(c.world.width), f(c.world.height), f(c.world.depth)], f(c.fluid.spacing));
    let (depth, height) = (f(c.wave.water_depth), f(c.swell.height));
    let k = wavenumber(f(c.swell.period), -f(c.world.gravity.y), depth);
    let wavelength = std::f32::consts::TAU / k;
    let skew = f(c.wave.reef_skew).abs() * size[2] * 0.5;
    let fractions = f(c.wave.reef_start) + f(c.wave.reef_width) + f(c.wave.beach_width);
    WaveMeasures {
        size_x: s(size[0]),
        size_y: s(size[1]),
        size_z: s(size[2]),
        two_spacings: s(2.0 * d),
        three_spacings: s(3.0 * d),
        eight_spacings: s(8.0 * d),
        twelve_spacings: s(12.0 * d),
        two_layers: s(f(c.wave.reef_height) + 2.0 * d),
        crest: s(depth + 2.0 * height + d),
        wavelength: s(wavelength),
        half_wavelength: s(wavelength * 0.5),
        steepness: s(height / wavelength),
        offshore: s(f(c.wave.reef_start) * size[0] - skew),
        generation: s(0.7 * std::f32::consts::TAU / k + 4.0 * d),
        rise: s(f(c.wave.reef_width) * size[0]),
        beach_end: s(fractions * size[0] + skew + 4.0 * d),
    }
}

fn measures(c: &Config) -> Measures {
    let d = f(c.fluid.spacing);
    let size = [f(c.world.width), f(c.world.height), f(c.world.depth)];
    let voxels = size.map(|v| ((v + 4.8 * d) / (d * f(c.render.surface_resolution))).ceil() + 1.0);
    Measures {
        ratio: s(f(c.fluid.smoothing_radius) / d),
        room_x: s(size[0] / d - 1.0),
        room_y: s(size[1] / d - 0.5),
        room_z: s(size[2] / d - 1.0),
        needs_x: s((c.fluid.block[0] as f32 + 1.0) * d),
        needs_y: s((c.fluid.block[1] as f32 + 0.5) * d),
        needs_z: s((c.fluid.block[2] as f32 + 1.0) * d),
        peak: s(expected_peak_speed(c)),
        courant: s(courant_number(c, c.solver.substeps)),
        needed_substeps: s(courant_number(c, 1) / f32::from_bits(COURANT_LIMIT)),
        voxels: s(voxels[0] * voxels[1] * voxels[2]),
        wave: wave_measures(c),
    }
}

fn worded(pieces: &[Piece]) -> String {
    let mut text = String::new();
    for piece in pieces {
        text.push_str(&match *piece {
            Piece::Text(words) => words.to_string(),
            Piece::Number(v) => format!("{}", f(v)),
            Piece::Fixed(v, decimals) => format!("{:.*}", decimals as usize, f(v)),
            Piece::Count(n) => format!("{n}"),
            Piece::Product(a, b, c) => format!("{}", a * b * c),
        });
    }
    text
}

fn validate(c: &Config) -> Result<(), String> {
    c.validate(&measures(c)).map_err(|invalid| worded(&invalid.message()))
}

/// The defaults, with the settings that a config file names in their place.
fn parse(text: &str) -> Result<Config, String> {
    let table: toml::Table = text.parse().map_err(|e| format!("{e}"))?;
    let mut c = Config::default();
    for (section, fields) in &table {
        for (name, value) in fields.as_table().expect("a section") {
            let number = s(value.as_float().unwrap_or_default() as f32);
            match (section.as_str(), name.as_str()) {
                ("fluid", "block") => {
                    for (k, side) in value.as_array().unwrap().iter().enumerate() {
                        c.fluid.block[k] = side.as_integer().unwrap() as usize;
                    }
                }
                ("fluid", "spacing") => c.fluid.spacing = number,
                ("fluid", "smoothing_radius") => c.fluid.smoothing_radius = number,
                ("solver", "jacobi_relax") => c.solver.jacobi_relax = number,
                ("world", "width") => c.world.width = number,
                ("swell", "direction") => c.swell.direction = number,
                ("swell", "height") => c.swell.height = number,
                ("swell", "period") => c.swell.period = number,
                other => return Err(format!("unknown field {other:?}")),
            }
        }
    }
    validate(&c)?;
    Ok(c)
}

/// A tank deep and wide enough for a 914-unit wavelength.
fn tank() -> Config {
    let mut c = Config::default();
    c.scene.scenario = Scenario::Wave;
    c.world.width = s(1400.0);
    c.world.height = s(720.0);
    c.world.depth = s(140.0);
    c.world.gravity.y = s(-90.0);
    c.fluid.spacing = s(14.0);
    c.fluid.smoothing_radius = s(28.0);
    c.solver.iterations = 12;
    c.swell.height = s(105.0);
    c.swell.period = s(8.0);
    c.wave.water_depth = s(480.0);
    c.wave.reef_height = s(452.0);
    c.wave.reef_start = s(0.52);
    c.wave.reef_width = s(0.12);
    c
}

#[test]
fn defaults_are_valid() {
    validate(&Config::default()).expect("shipped defaults are invalid");
}

#[test]
fn the_defaults_are_the_tuned_ones() {
    let c = Config::default();
    assert_eq!(f(c.world.width), 400.0);
    assert_eq!(f(c.world.height), 300.0);
    assert_eq!(f(c.world.depth), 400.0);
    assert_eq!(f(c.world.gravity.y), -1400.0);
    assert_eq!(c.fluid.block, [24, 26, 24]);
    assert_eq!(f(c.fluid.spacing), 10.0);
    assert_eq!(f(c.fluid.smoothing_radius), 20.0);
    assert_eq!((c.solver.iterations, c.solver.substeps), (8, 1));
    assert_eq!(f(c.solver.jacobi_relax), 0.5);
    assert_eq!(f(c.solver.relaxation), 0.05);
    assert_eq!(f(c.solver.viscosity), 0.08);
    assert_eq!(f(c.solver.tensile_k), 0.04);
    assert_eq!(f(c.solver.tensile_q), 0.2);
    assert_eq!(c.solver.tensile_n, 4);
    assert!(!c.solver.clamp_constraint);
    assert_eq!(f(c.solver.wall_friction), 0.98);
    assert_eq!(f(c.render.surface_resolution), 0.85);
    assert_eq!(f(c.render.particle_scale), 2.4);
    assert_eq!(f(c.render.foam_speed), 900.0);
    let color = |c: Rgb| [f(c.r), f(c.g), f(c.b)];
    assert_eq!(color(c.render.background), [0.67, 0.80, 0.87]);
    assert_eq!(color(c.render.deep_color), [0.015, 0.16, 0.20]);
    assert_eq!(color(c.render.mid_color), [0.08, 0.58, 0.53]);
    assert_eq!(color(c.render.foam_color), [0.92, 0.98, 1.00]);
    assert!(c.render.vsync && !c.render.show_bounds);
    assert_eq!((f(c.input.mouse_radius), f(c.input.mouse_strength)), (110.0, 10000.0));
    assert_eq!((f(c.scene.time_scale), f(c.scene.replay_after)), (1.0, 0.0));
    assert_eq!((f(c.swell.direction), f(c.swell.height), f(c.swell.period)), (0.0, 40.0, 1.8));
    assert_eq!((f(c.wave.water_depth), f(c.wave.reef_height)), (190.0, 174.0));
    assert_eq!((f(c.wave.reef_start), f(c.wave.reef_width)), (0.30, 0.24));
    assert_eq!((f(c.wave.reef_skew), f(c.wave.beach_width)), (0.12, 0.22));
    for (limit, value) in [
        (COURANT_LIMIT, 0.95),
        (RATIO_LIMIT, 1.5),
        (RELAX_LIMIT, 0.55),
        (SLOWEST, 0.05),
        (SAMPLE_LIMIT, 4_000_000.0),
        (STEEPEST, 0.12),
        (WIDEST_ANGLE, 60.0),
        (SHORTEST_BEACH, 0.1),
        (LONGEST_BEACH, 0.4),
    ] {
        assert_eq!(f32::from_bits(limit), value);
    }
}

#[test]
fn a_block_too_big_for_the_world_is_rejected() {
    let err = parse("[fluid]\nblock = [500, 30, 22]\n").unwrap_err();
    assert!(
        err.contains("does not fit") && err.contains("at most"),
        "error should say what fits: {err}"
    );
    assert_eq!(
        err,
        "the starting block does not fit in the world: 500x30x22 particles at spacing 10 needs a \
         5010x305x230 box, but world is 400x300x400. At this spacing the box holds at most \
         39x29x39 (44109 particles); either lower fluid.block, lower fluid.spacing, or raise \
         world.width/world.height/world.depth"
    );
}

#[test]
fn the_largest_reported_block_actually_fits() {
    // `max_block` is quoted to the user in the error above, so it had
    // better be accurate at a range of spacings.
    for spacing in [4.0f32, 7.5, 10.0, 20.0] {
        let mut config = Config::default();
        config.fluid.spacing = s(spacing);
        config.fluid.smoothing_radius = s(spacing * 2.4);
        config.fluid.block = config.max_block(&measures(&config));
        // Isolate the geometry question from the stability one: a fine
        // spacing needs substeps, and that is a different test.
        config.solver.substeps = config.required_substeps(&measures(&config));
        validate(&config)
            .unwrap_or_else(|e| panic!("max_block does not fit at spacing {spacing}: {e}"));

        for axis in 0..3 {
            let mut over = config.clone();
            over.fluid.block[axis] += 1;
            assert!(
                validate(&over).is_err(),
                "one more than max_block on axis {axis} should not fit at spacing {spacing}"
            );
        }
    }
}

#[test]
fn non_finite_numbers_are_rejected() {
    // TOML can express these, and a NaN that reaches the solver poisons
    // every particle it touches within a step or two.
    for text in [
        "[fluid]\nspacing = nan\n",
        "[fluid]\nspacing = inf\n",
        "[solver]\njacobi_relax = nan\n",
        "[world]\nwidth = nan\n",
    ] {
        assert!(parse(text).is_err(), "accepted a non-finite value: {text:?}");
    }
}

#[test]
fn a_diverging_relaxation_is_rejected() {
    let err = parse("[solver]\njacobi_relax = 0.9\n").unwrap_err();
    assert!(err.contains("diverge"), "unhelpful error: {err}");
}

#[test]
fn too_few_neighbours_is_rejected() {
    let err = parse("[fluid]\nsmoothing_radius = 11.0\n").unwrap_err();
    assert!(err.contains("smoothing_radius"), "unhelpful error: {err}");
}

#[test]
fn the_shipped_config_is_inside_the_stability_limit() {
    let courant = f(measures(&Config::default()).courant);
    assert!(
        courant <= f32::from_bits(COURANT_LIMIT),
        "shipped config sits at Courant {courant:.2}"
    );
}

#[test]
fn a_finer_spacing_without_substeps_is_rejected() {
    // The exact trap someone falls into when asking for more particles:
    // resolve the same body of water more finely and keep everything else.
    // The block is scaled up to hold the drop height fixed, which is what
    // makes it bite -- shrinking the kernel while the fluid still falls
    // just as far is what pushes the Courant number past 1.
    let err = parse("[fluid]\nspacing = 4.0\nsmoothing_radius = 8.0\nblock = [55, 74, 55]\n")
        .unwrap_err();
    assert!(err.contains("solver.substeps"), "the error should name the fix: {err}");
    assert_eq!(
        err,
        "the fluid would move too far per solver step to stay stable (Courant number 1.90, limit \
         0.95): at spacing 4 the kernel radius is 8.0 units, but the fluid is expected to peak \
         near 910 units/s. Set solver.substeps = 2 (currently 1), or raise fluid.spacing, or \
         lower world.gravity"
    );
}

#[test]
fn required_substeps_is_enough_to_pass() {
    // Whatever the error message tells the user to set must actually work,
    // at every spacing, or the advice is worse than useless.
    for spacing in [12.0f32, 10.0, 8.0, 6.5, 5.0, 4.0, 3.0] {
        let mut config = Config::default();
        config.fluid.spacing = s(spacing);
        config.fluid.smoothing_radius = s(spacing * 2.0);
        let max = config.max_block(&measures(&config));
        for (target, limit) in config.fluid.block.iter_mut().zip(max) {
            *target = (*target).min(limit);
        }
        config.solver.substeps = config.required_substeps(&measures(&config));
        validate(&config).unwrap_or_else(|e| {
            panic!("required_substeps is not sufficient at spacing {spacing}: {e}")
        });
    }
    for (need, substeps) in [(0.0, 1), (f32::NAN, 1), (2.0, 2), (2.001, 3)] {
        let mut m = measures(&Config::default());
        m.needed_substeps = s(need);
        assert_eq!(Config::default().required_substeps(&m), substeps);
    }
}

#[test]
fn invalid_swell_and_tank_settings_are_rejected() {
    validate(&tank()).expect("the tank is invalid");
    for edit in [
        "direction = nan",
        "direction = 90.0",
        "direction = -61.0",
        "height = -1.0",
        "height = inf",
        "height = 1.0",
        "height = 500.0",
        "period = 0.0",
        "period = -1.0",
        "period = nan",
        "period = 0.1",
        "period = 10.0",
    ] {
        let field = edit.split(' ').next().unwrap();
        let mut c = tank();
        let text = format!("[swell]\n{edit}\n");
        c.swell = parse(&text).unwrap().swell;
        assert!(validate(&c).is_err(), "accepted swell.{field}: {edit}");
    }
    let mut c = tank();
    c.swell.height = s(0.0);
    validate(&c).unwrap();
    c.world.gravity = Point { x: s(0.0), y: s(0.0), z: s(0.0) };
    assert!(validate(&c).unwrap_err().contains("gravity"));
    let mut c = tank();
    c.wave.reef_height = c.wave.water_depth;
    assert!(validate(&c).is_err());
    let mut c = tank();
    c.wave.reef_start = s(0.1);
    assert!(validate(&c).is_err());
    let mut c = tank();
    c.wave.beach_width = s(0.5);
    assert!(validate(&c).is_err());
    assert!(
        parse("[wave]\ncurl = 2.5").is_err(),
        "obsolete crest controls must not silently do nothing"
    );
}

#[test]
fn a_single_wave_is_validated_on_its_own_terms() {
    // No period, no wavelength and no generation zone.
    let mut c = tank();
    c.swell.waves = 1;
    let m = measures(&c);
    for (field, value) in [(0, f32::NAN), (1, 1.0), (2, 1.0e6), (3, 1.0), (4, -1.0)] {
        let (mut c, mut m) = (c, m);
        match field {
            0 => c.swell.period = s(value),
            1 => m.wave.wavelength = s(value),
            2 => m.wave.half_wavelength = s(value),
            3 => m.wave.steepness = s(value),
            _ => m.wave.offshore = s(value),
        }
        assert_eq!(c.validate(&m), Ok(()), "a single wave has no limit {field}");
        c.swell.waves = 0;
        assert!(c.validate(&m).is_err(), "an endless swell has limit {field}");
    }
    c.wave.reef_height = c.wave.water_depth;
    assert_eq!(c.validate(&measures(&c)), Err(Invalid::ReefTooHigh));
}

#[test]
fn every_refusal_is_reached() {
    let nan = s(f32::NAN);
    let refused = |edit: &dyn Fn(&mut Config, &mut Measures)| {
        let mut c = tank();
        let mut m = measures(&c);
        edit(&mut c, &mut m);
        c.validate(&m).unwrap_err()
    };
    assert_eq!(refused(&|c, _| c.fluid.block[1] = 0), Invalid::EmptyBlock);
    assert_eq!(refused(&|c, _| c.fluid.spacing = s(-2.0)), Invalid::Spacing(s(-2.0)));
    assert_eq!(refused(&|c, _| c.world.width = s(0.0)), Invalid::Width(s(0.0)));
    assert_eq!(refused(&|c, _| c.world.height = nan), Invalid::Height(nan));
    assert_eq!(refused(&|c, _| c.world.depth = s(-0.0)), Invalid::Depth(s(-0.0)));
    assert_eq!(refused(&|_, m| m.ratio = s(1.4)), Invalid::Ratio(s(1.4)));
    assert_eq!(refused(&|c, _| c.world.gravity.x = nan), Invalid::Gravity);
    assert_eq!(refused(&|c, _| c.wave.water_depth = s(-1.0)), Invalid::WaterDepth);
    assert_eq!(refused(&|c, _| c.wave.reef_height = nan), Invalid::ReefHeight);
    assert_eq!(refused(&|c, _| c.wave.reef_start = s(-0.5)), Invalid::ReefStart);
    assert_eq!(refused(&|c, _| c.wave.reef_width = s(-0.5)), Invalid::ReefWidth);
    assert_eq!(refused(&|c, _| c.wave.beach_width = nan), Invalid::BeachWidth);
    assert_eq!(refused(&|c, _| c.wave.reef_skew = s(-1.01)), Invalid::ReefSkew);
    assert_eq!(refused(&|c, _| c.world.gravity.z = s(1.0)), Invalid::Upward);
    assert_eq!(refused(&|c, _| c.world.gravity.y = s(90.0)), Invalid::Upward);
    assert_eq!(refused(&|c, _| c.swell.direction = s(60.5)), Invalid::Direction);
    assert_eq!(refused(&|c, _| c.swell.period = s(0.0)), Invalid::Period);
    assert_eq!(refused(&|c, _| c.swell.height = s(-1.0)), Invalid::SwellHeight);
    assert_eq!(refused(&|c, _| c.swell.height = s(41.0)), Invalid::SwellUnresolved);
    assert_eq!(refused(&|_, m| m.wave.two_layers = s(481.0)), Invalid::ReefTooHigh);
    assert_eq!(refused(&|_, m| m.wave.crest = s(721.0)), Invalid::CrestTooHigh);
    assert_eq!(refused(&|_, m| m.wave.wavelength = s(167.0)), Invalid::WavelengthUnresolved);
    assert_eq!(refused(&|_, m| m.wave.wavelength = nan), Invalid::WavelengthUnresolved);
    assert_eq!(
        refused(&|_, m| m.wave.half_wavelength = s(480.5)),
        Invalid::TooShallow(s(480.5))
    );
    assert_eq!(refused(&|_, m| m.wave.steepness = s(0.121)), Invalid::TooSteep);
    assert_eq!(refused(&|_, m| m.wave.offshore = s(0.0)), Invalid::ReefTooNear);
    assert_eq!(refused(&|_, m| m.wave.rise = s(27.0)), Invalid::RiseUnresolved);
    assert_eq!(refused(&|c, _| c.wave.beach_width = s(0.09)), Invalid::Beach);
    assert_eq!(refused(&|_, m| m.wave.beach_end = s(1400.0)), Invalid::Beach);
    assert_eq!(refused(&|_, m| m.wave.size_z = s(111.0)), Invalid::TankTooNarrow);
    assert_eq!(refused(&|c, _| c.solver.iterations = 0), Invalid::Iterations);
    assert_eq!(refused(&|c, _| c.solver.substeps = 0), Invalid::Substeps);
    let fast = refused(&|_, m| m.courant = s(0.96));
    assert!(matches!(fast, Invalid::TooFast(report) if report.courant == s(0.96)), "{fast:?}");
    assert_eq!(refused(&|c, _| c.solver.jacobi_relax = s(0.56)), Invalid::JacobiRelax(s(0.56)));
    assert_eq!(refused(&|c, _| c.solver.relaxation = s(0.0)), Invalid::Relaxation);
    assert_eq!(refused(&|c, _| c.solver.wall_friction = s(1.5)), Invalid::WallFriction(s(1.5)));
    assert_eq!(refused(&|c, _| c.render.particle_scale = s(0.0)), Invalid::ParticleScale);
    assert_eq!(refused(&|c, _| c.render.foam_speed = nan), Invalid::FoamSpeed);
    assert_eq!(refused(&|c, _| c.scene.time_scale = s(0.04)), Invalid::TimeScale);
    assert_eq!(refused(&|c, _| c.scene.replay_after = s(-1.0)), Invalid::ReplayAfter);
    assert_eq!(refused(&|c, _| c.render.surface_resolution = s(2.1)), Invalid::SurfaceResolution);
    assert_eq!(refused(&|c, _| c.render.background.g = s(1.1)), Invalid::Background);
    assert_eq!(refused(&|c, _| c.render.deep_color.b = nan), Invalid::DeepColor);
    assert_eq!(refused(&|c, _| c.render.mid_color.r = s(-0.1)), Invalid::MidColor);
    assert_eq!(refused(&|c, _| c.render.foam_color.r = s(2.0)), Invalid::FoamColor);
    assert_eq!(refused(&|_, m| m.voxels = s(4_000_001.0)), Invalid::TooManySamples);
    // The first of several failures is the one that is reported.
    assert_eq!(
        refused(&|c, m| {
            m.voxels = s(4_000_001.0);
            c.swell.height = s(-1.0);
            c.solver.iterations = 0;
        }),
        Invalid::SwellHeight
    );
}

#[test]
fn what_is_accepted_keeps_within_the_courant_limit() {
    let c = Config::default();
    let mut m = measures(&c);
    m.courant = Single { bits: COURANT_LIMIT };
    assert_eq!(c.validate(&m), Ok(()));
    for courant in [s(f32::NAN), s(f32::INFINITY), Single { bits: COURANT_LIMIT + 1 }] {
        m.courant = courant;
        assert!(matches!(c.validate(&m), Err(Invalid::TooFast(_))));
    }
}

#[test]
fn the_largest_block_passes_and_one_more_is_refused() {
    let mut c = Config::default();
    let mut m = measures(&c);
    (m.room_x, m.room_y, m.room_z) = (s(4.75), s(3.0), s(7.5));
    c.fluid.block = c.max_block(&m);
    assert_eq!(c.fluid.block, [4, 3, 7]);
    assert_eq!(c.validate(&m), Ok(()));
    for axis in 0..3 {
        let mut over = c;
        over.fluid.block[axis] += 1;
        assert!(matches!(over.validate(&m), Err(Invalid::BlockTooBig(_))), "axis {axis}");
    }
    (m.room_x, m.room_y) = (s(-0.5), s(f32::NAN));
    assert_eq!(c.max_block(&m), [0, 0, 7]);
}

#[test]
fn fewer_substeps_than_required_are_too_few() {
    for spacing in [6.5f32, 5.0, 4.0, 3.0, 2.0] {
        let mut c = Config::default();
        c.fluid.spacing = s(spacing);
        c.fluid.smoothing_radius = s(spacing * 2.0);
        let needed = c.required_substeps(&measures(&c));
        assert!(courant_number(&c, needed) <= f32::from_bits(COURANT_LIMIT));
        if needed > 1 {
            assert!(courant_number(&c, needed - 1) > f32::from_bits(COURANT_LIMIT));
        }
        c.solver.substeps = 9;
        assert_eq!(c.required_substeps(&measures(&c)), needed);
    }
}

#[test]
fn a_reset_repeats_itself() {
    let bounds = Bounds {
        min: Point { x: s(-200.0), y: s(-150.0), z: s(-200.0) },
        max: Point { x: s(200.0), y: s(150.0), z: s(200.0) },
    };
    for scenario in [Scenario::DamBreak, Scenario::Wave] {
        let mut c = Config::default();
        c.scene.scenario = scenario;
        let (m, mut fluid) = (measures(&c), Fluid::new(c.fluid_params(bounds), 21, 16, 21));
        let wet = |site: Site| site.row < 4 && (site.col + site.layer) % 3 != 1;
        let first = c.reset_fluid(&mut fluid, &m, wet);
        fluid.fill_block([3, 2, 1]);
        fluid.set_gravity(Point { x: s(1.0), y: s(2.0), z: s(3.0) });
        assert_eq!(c.reset_fluid(&mut fluid, &m, wet), first);
        assert_eq!((fluid.len(), fluid.params.gravity), (first.sites.len(), c.world.gravity));
        assert_eq!(fluid.generation, 3);
    }
}

#[test]
fn the_solver_gets_what_the_config_says() {
    let mut c = tank();
    c.solver.clamp_constraint = true;
    let bounds = Bounds {
        min: Point { x: s(-700.0), y: s(-360.0), z: s(-70.0) },
        max: Point { x: s(700.0), y: s(360.0), z: s(70.0) },
    };
    let p = c.fluid_params(bounds);
    assert_eq!(p.bounds, bounds);
    assert_eq!(p.gravity, c.world.gravity);
    assert_eq!((p.smoothing_radius, p.spacing), (s(28.0), s(14.0)));
    assert_eq!((p.iterations, p.substeps, p.tensile_n), (12, 1, 4));
    assert_eq!((p.relaxation, p.viscosity), (s(0.05), s(0.08)));
    assert_eq!((p.tensile_k, p.tensile_q), (s(0.04), s(0.2)));
    assert_eq!((p.jacobi_relax, p.wall_friction), (s(0.5), s(0.98)));
    assert!(p.clamp_constraint);
    assert_eq!(c.particle_count(), 24 * 26 * 24);
}

#[test]
fn a_reset_fills_the_scene_and_restores_gravity() {
    let c = Config::default();
    let bounds = Bounds {
        min: Point { x: s(-200.0), y: s(-150.0), z: s(-200.0) },
        max: Point { x: s(200.0), y: s(150.0), z: s(200.0) },
    };
    let mut params = c.fluid_params(bounds);
    params.gravity.y = s(1400.0);
    let mut fluid = Fluid::new(params, 21, 16, 21);
    let sites = c.reset_fluid(&mut fluid, &measures(&c), |_| false).sites;
    assert_eq!(sites.len(), 14976);
    assert_eq!(fluid.len(), 14976);
    assert_eq!(f(fluid.params.gravity.y), -1400.0);

    let mut wave = c;
    wave.scene.scenario = Scenario::Wave;
    let sites = wave.reset_fluid(&mut fluid, &measures(&wave), |site| site.row == 0).sites;
    assert_eq!(sites.len(), 39 * 39);
    assert!(sites.iter().all(|site| site.row == 0));
    assert_eq!(fluid.generation, 2);
}
