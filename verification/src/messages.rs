//! What a refusal tells: which setting it is about, and the numbers it was refused
//! for.
use vstd::prelude::*;
use crate::config::{message_of, Invalid, Piece};
use crate::single::Single;

verus! {

/// The numbers in a message, in order.
pub open spec fn numbers_in(message: Seq<Piece>) -> Seq<Piece> {
    message.filter(|piece: Piece| !(piece is Text))
}

/// A message begins with these words.
pub open spec fn begins(message: Seq<Piece>, words: Seq<char>) -> bool {
    message.len() > 0 && (message[0] matches Piece::Text(text) && words.len() <= text@.len()
        && text@.take(words.len() as int) == words)
}

/// A message has the numbers it reports, each of them where it belongs, and no
/// others.
#[verifier::spinoff_prover]
#[verifier::rlimit(60)]
pub proof fn lemma_messages_report(invalid: Invalid)
    ensures
        numbers_in(message_of(invalid)) == match invalid {
            Invalid::Spacing(v) => seq![
                Piece::Number(v),
            ],
            Invalid::Width(v) => seq![
                Piece::Number(v),
            ],
            Invalid::Height(v) => seq![
                Piece::Number(v),
            ],
            Invalid::Depth(v) => seq![
                Piece::Number(v),
            ],
            Invalid::Ratio(v) => seq![
                Piece::Fixed(v, 2),
            ],
            Invalid::BlockTooBig(r) => seq![
                Piece::Count(r.block_x),
                Piece::Count(r.block_y),
                Piece::Count(r.block_z),
                Piece::Number(r.spacing),
                Piece::Fixed(r.needs_x, 0),
                Piece::Fixed(r.needs_y, 0),
                Piece::Fixed(r.needs_z, 0),
                Piece::Fixed(r.width, 0),
                Piece::Fixed(r.height, 0),
                Piece::Fixed(r.depth, 0),
                Piece::Count(r.max_x),
                Piece::Count(r.max_y),
                Piece::Count(r.max_z),
                Piece::Product(r.max_x, r.max_y, r.max_z),
            ],
            Invalid::TooShallow(v) => seq![
                Piece::Fixed(v, 1),
            ],
            Invalid::TooFast(r) => seq![
                Piece::Fixed(r.courant, 2),
                Piece::Number(Single { bits: 0x3f73_3333 }),
                Piece::Number(r.spacing),
                Piece::Fixed(r.smoothing_radius, 1),
                Piece::Fixed(r.peak, 0),
                Piece::Count(r.required as usize),
                Piece::Count(r.substeps as usize),
            ],
            Invalid::JacobiRelax(v) => seq![
                Piece::Number(v),
            ],
            Invalid::WallFriction(v) => seq![
                Piece::Number(v),
            ],
            _ => Seq::<Piece>::empty(),
        },
{
    let message = message_of(invalid);
    lemma_numbers(message, message.len() as int);
    assert(message.take(message.len() as int) =~= message);
    reveal_with_fuel(numbers_up_to, 32);
    assert(numbers_up_to(message, message.len() as int) =~= match invalid {
            Invalid::Spacing(v) => seq![
                Piece::Number(v),
            ],
            Invalid::Width(v) => seq![
                Piece::Number(v),
            ],
            Invalid::Height(v) => seq![
                Piece::Number(v),
            ],
            Invalid::Depth(v) => seq![
                Piece::Number(v),
            ],
            Invalid::Ratio(v) => seq![
                Piece::Fixed(v, 2),
            ],
            Invalid::BlockTooBig(r) => seq![
                Piece::Count(r.block_x),
                Piece::Count(r.block_y),
                Piece::Count(r.block_z),
                Piece::Number(r.spacing),
                Piece::Fixed(r.needs_x, 0),
                Piece::Fixed(r.needs_y, 0),
                Piece::Fixed(r.needs_z, 0),
                Piece::Fixed(r.width, 0),
                Piece::Fixed(r.height, 0),
                Piece::Fixed(r.depth, 0),
                Piece::Count(r.max_x),
                Piece::Count(r.max_y),
                Piece::Count(r.max_z),
                Piece::Product(r.max_x, r.max_y, r.max_z),
            ],
            Invalid::TooShallow(v) => seq![
                Piece::Fixed(v, 1),
            ],
            Invalid::TooFast(r) => seq![
                Piece::Fixed(r.courant, 2),
                Piece::Number(Single { bits: 0x3f73_3333 }),
                Piece::Number(r.spacing),
                Piece::Fixed(r.smoothing_radius, 1),
                Piece::Fixed(r.peak, 0),
                Piece::Count(r.required as usize),
                Piece::Count(r.substeps as usize),
            ],
            Invalid::JacobiRelax(v) => seq![
                Piece::Number(v),
            ],
            Invalid::WallFriction(v) => seq![
                Piece::Number(v),
            ],
            _ => Seq::<Piece>::empty(),
    });
}

/// The numbers among the first pieces of a message.
spec fn numbers_up_to(message: Seq<Piece>, n: int) -> Seq<Piece>
    decreases n,
{
    if n <= 0 {
        Seq::empty()
    } else if message[n - 1] is Text {
        numbers_up_to(message, n - 1)
    } else {
        numbers_up_to(message, n - 1).push(message[n - 1])
    }
}

proof fn lemma_numbers(message: Seq<Piece>, n: int)
    requires
        0 <= n <= message.len(),
    ensures
        numbers_in(message.take(n)) == numbers_up_to(message, n),
    decreases n,
{
    reveal(Seq::filter);
    if n > 0 {
        lemma_numbers(message, n - 1);
        assert(message.take(n).drop_last() =~= message.take(n - 1));
    }
}

/// A message begins with the setting, or the matter, that it is about.
#[verifier::spinoff_prover]
#[verifier::rlimit(100)]
pub proof fn lemma_messages_name(invalid: Invalid)
    ensures
        begins(
            message_of(invalid),
            match invalid {
                Invalid::EmptyBlock => "every axis of fluid.block"@,
                Invalid::Spacing(_) => "fluid.spacing"@,
                Invalid::Width(_) => "world.width"@,
                Invalid::Height(_) => "world.height must be"@,
                Invalid::Depth(_) => "world.depth must be"@,
                Invalid::Ratio(_) => "fluid.smoothing_radius"@,
                Invalid::BlockTooBig(_) => "the starting block"@,
                Invalid::Gravity => "world.gravity"@,
                Invalid::WaterDepth => "wave.water_depth must be"@,
                Invalid::ReefHeight => "wave.reef_height"@,
                Invalid::ReefStart => "wave.reef_start must be"@,
                Invalid::ReefWidth => "wave.reef_width must be"@,
                Invalid::BeachWidth => "wave.beach_width must be finite"@,
                Invalid::ReefSkew => "wave.reef_skew"@,
                Invalid::Upward => "the wave tank"@,
                Invalid::Direction => "swell.direction"@,
                Invalid::Period => "swell.period must"@,
                Invalid::SwellHeight => "swell.height must be"@,
                Invalid::SwellUnresolved => "swell.height must resolve"@,
                Invalid::ReefTooHigh => "wave.water_depth must leave"@,
                Invalid::CrestTooHigh => "world.height must fit"@,
                Invalid::WavelengthUnresolved => "swell.period is too short"@,
                Invalid::TooShallow(_) => "deep-water swell"@,
                Invalid::TooSteep => "swell.height / wavelength"@,
                Invalid::ReefTooNear => "wave.reef_start must leave"@,
                Invalid::RiseUnresolved => "wave.reef_width must resolve"@,
                Invalid::Beach => "wave.beach_width must be in"@,
                Invalid::TankTooNarrow => "world.depth must resolve"@,
                Invalid::Iterations => "solver.iterations"@,
                Invalid::Substeps => "solver.substeps"@,
                Invalid::TooFast(_) => "the fluid would move too far"@,
                Invalid::JacobiRelax(_) => "solver.jacobi_relax"@,
                Invalid::Relaxation => "solver.relaxation"@,
                Invalid::WallFriction(_) => "solver.wall_friction"@,
                Invalid::ParticleScale => "render.particle_scale"@,
                Invalid::FoamSpeed => "render.foam_speed"@,
                Invalid::TimeScale => "scene.time_scale"@,
                Invalid::ReplayAfter => "scene.replay_after"@,
                Invalid::SurfaceResolution => "render.surface_resolution"@,
                Invalid::Background => "render.background"@,
                Invalid::DeepColor => "render.deep_color"@,
                Invalid::MidColor => "render.mid_color"@,
                Invalid::FoamColor => "render.foam_color"@,
                Invalid::TooManySamples => "surface grid exceeds"@,
            },
        ),
{
    match invalid {
        Invalid::EmptyBlock => {
            reveal_strlit("every axis of fluid.block must be at least 1");
            reveal_strlit("every axis of fluid.block");
            assert("every axis of fluid.block must be at least 1"@.take(25) =~= "every axis of fluid.block"@);
        },
        Invalid::Spacing(_) => {
            reveal_strlit("fluid.spacing must be positive, got ");
            reveal_strlit("fluid.spacing");
            assert("fluid.spacing must be positive, got "@.take(13) =~= "fluid.spacing"@);
        },
        Invalid::Width(_) => {
            reveal_strlit("world.width must be positive, got ");
            reveal_strlit("world.width");
            assert("world.width must be positive, got "@.take(11) =~= "world.width"@);
        },
        Invalid::Height(_) => {
            reveal_strlit("world.height must be positive, got ");
            reveal_strlit("world.height must be");
            assert("world.height must be positive, got "@.take(20) =~= "world.height must be"@);
        },
        Invalid::Depth(_) => {
            reveal_strlit("world.depth must be positive, got ");
            reveal_strlit("world.depth must be");
            assert("world.depth must be positive, got "@.take(19) =~= "world.depth must be"@);
        },
        Invalid::Ratio(_) => {
            reveal_strlit("fluid.smoothing_radius must be at least 1.5x fluid.spacing (got ");
            reveal_strlit("fluid.smoothing_radius");
            assert("fluid.smoothing_radius must be at least 1.5x fluid.spacing (got "@.take(22) =~= "fluid.smoothing_radius"@);
        },
        Invalid::BlockTooBig(_) => {
            reveal_strlit("the starting block does not fit in the world: ");
            reveal_strlit("the starting block");
            assert("the starting block does not fit in the world: "@.take(18) =~= "the starting block"@);
        },
        Invalid::Gravity => {
            reveal_strlit("world.gravity must be finite");
            reveal_strlit("world.gravity");
            assert("world.gravity must be finite"@.take(13) =~= "world.gravity"@);
        },
        Invalid::WaterDepth => {
            reveal_strlit("wave.water_depth must be finite and nonnegative");
            reveal_strlit("wave.water_depth must be");
            assert("wave.water_depth must be finite and nonnegative"@.take(24) =~= "wave.water_depth must be"@);
        },
        Invalid::ReefHeight => {
            reveal_strlit("wave.reef_height must be finite and nonnegative");
            reveal_strlit("wave.reef_height");
            assert("wave.reef_height must be finite and nonnegative"@.take(16) =~= "wave.reef_height"@);
        },
        Invalid::ReefStart => {
            reveal_strlit("wave.reef_start must be finite and nonnegative");
            reveal_strlit("wave.reef_start must be");
            assert("wave.reef_start must be finite and nonnegative"@.take(23) =~= "wave.reef_start must be"@);
        },
        Invalid::ReefWidth => {
            reveal_strlit("wave.reef_width must be finite and nonnegative");
            reveal_strlit("wave.reef_width must be");
            assert("wave.reef_width must be finite and nonnegative"@.take(23) =~= "wave.reef_width must be"@);
        },
        Invalid::BeachWidth => {
            reveal_strlit("wave.beach_width must be finite and nonnegative");
            reveal_strlit("wave.beach_width must be finite");
            assert("wave.beach_width must be finite and nonnegative"@.take(31) =~= "wave.beach_width must be finite"@);
        },
        Invalid::ReefSkew => {
            reveal_strlit("wave.reef_skew must be finite and in [-1, 1]");
            reveal_strlit("wave.reef_skew");
            assert("wave.reef_skew must be finite and in [-1, 1]"@.take(14) =~= "wave.reef_skew"@);
        },
        Invalid::Upward => {
            reveal_strlit("the wave tank requires downward world.gravity = [0, -g, 0]");
            reveal_strlit("the wave tank");
            assert("the wave tank requires downward world.gravity = [0, -g, 0]"@.take(13) =~= "the wave tank"@);
        },
        Invalid::Direction => {
            reveal_strlit("swell.direction must be in [-60, 60] degrees: 0 travels along +X toward the reef, positive toward +Z");
            reveal_strlit("swell.direction");
            assert("swell.direction must be in [-60, 60] degrees: 0 travels along +X toward the reef, positive toward +Z"@.take(15) =~= "swell.direction"@);
        },
        Invalid::Period => {
            reveal_strlit("swell.period must be finite and positive (simulation seconds)");
            reveal_strlit("swell.period must");
            assert("swell.period must be finite and positive (simulation seconds)"@.take(17) =~= "swell.period must"@);
        },
        Invalid::SwellHeight => {
            reveal_strlit("swell.height must be finite and nonnegative (crest-to-trough world units)");
            reveal_strlit("swell.height must be");
            assert("swell.height must be finite and nonnegative (crest-to-trough world units)"@.take(20) =~= "swell.height must be"@);
        },
        Invalid::SwellUnresolved => {
            reveal_strlit("swell.height must resolve at least three particle spacings; lower fluid.spacing and smoothing_radius together (or set height = 0 for still water)");
            reveal_strlit("swell.height must resolve");
            assert("swell.height must resolve at least three particle spacings; lower fluid.spacing and smoothing_radius together (or set height = 0 for still water)"@.take(25) =~= "swell.height must resolve"@);
        },
        Invalid::ReefTooHigh => {
            reveal_strlit("wave.water_depth must leave at least two particle layers above the reef");
            reveal_strlit("wave.water_depth must leave");
            assert("wave.water_depth must leave at least two particle layers above the reef"@.take(27) =~= "wave.water_depth must leave"@);
        },
        Invalid::CrestTooHigh => {
            reveal_strlit("world.height must fit wave.water_depth + 2 * swell.height + fluid.spacing to leave room for breaking crests");
            reveal_strlit("world.height must fit");
            assert("world.height must fit wave.water_depth + 2 * swell.height + fluid.spacing to leave room for breaking crests"@.take(21) =~= "world.height must fit"@);
        },
        Invalid::WavelengthUnresolved => {
            reveal_strlit("swell.period is too short to resolve its wavelength; increase it or lower fluid.spacing");
            reveal_strlit("swell.period is too short");
            assert("swell.period is too short to resolve its wavelength; increase it or lower fluid.spacing"@.take(25) =~= "swell.period is too short"@);
        },
        Invalid::TooShallow(_) => {
            reveal_strlit("deep-water swell needs wave.water_depth >= half its wavelength (");
            reveal_strlit("deep-water swell");
            assert("deep-water swell needs wave.water_depth >= half its wavelength ("@.take(16) =~= "deep-water swell"@);
        },
        Invalid::TooSteep => {
            reveal_strlit("swell.height / wavelength must be <= 0.12 so the incoming swell does not already break offshore; lower height or increase period and depth");
            reveal_strlit("swell.height / wavelength");
            assert("swell.height / wavelength must be <= 0.12 so the incoming swell does not already break offshore; lower height or increase period and depth"@.take(25) =~= "swell.height / wavelength"@);
        },
        Invalid::ReefTooNear => {
            reveal_strlit("wave.reef_start must leave at least four particle spacings of deep water beyond the generation zone; increase world.width or reef_start, or shorten swell.period");
            reveal_strlit("wave.reef_start must leave");
            assert("wave.reef_start must leave at least four particle spacings of deep water beyond the generation zone; increase world.width or reef_start, or shorten swell.period"@.take(26) =~= "wave.reef_start must leave"@);
        },
        Invalid::RiseUnresolved => {
            reveal_strlit("wave.reef_width must resolve at least two particle spacings");
            reveal_strlit("wave.reef_width must resolve");
            assert("wave.reef_width must resolve at least two particle spacings"@.take(28) =~= "wave.reef_width must resolve"@);
        },
        Invalid::Beach => {
            reveal_strlit("wave.beach_width must be in [0.1, 0.4] and start at least four spacings beyond the whole reef rise");
            reveal_strlit("wave.beach_width must be in");
            assert("wave.beach_width must be in [0.1, 0.4] and start at least four spacings beyond the whole reef rise"@.take(27) =~= "wave.beach_width must be in"@);
        },
        Invalid::TankTooNarrow => {
            reveal_strlit("world.depth must resolve at least eight particle spacings");
            reveal_strlit("world.depth must resolve");
            assert("world.depth must resolve at least eight particle spacings"@.take(24) =~= "world.depth must resolve"@);
        },
        Invalid::Iterations => {
            reveal_strlit("solver.iterations must be at least 1");
            reveal_strlit("solver.iterations");
            assert("solver.iterations must be at least 1"@.take(17) =~= "solver.iterations"@);
        },
        Invalid::Substeps => {
            reveal_strlit("solver.substeps must be at least 1");
            reveal_strlit("solver.substeps");
            assert("solver.substeps must be at least 1"@.take(15) =~= "solver.substeps"@);
        },
        Invalid::TooFast(_) => {
            reveal_strlit("the fluid would move too far per solver step to stay stable (Courant number ");
            reveal_strlit("the fluid would move too far");
            assert("the fluid would move too far per solver step to stay stable (Courant number "@.take(28) =~= "the fluid would move too far"@);
        },
        Invalid::JacobiRelax(_) => {
            reveal_strlit("solver.jacobi_relax must be in (0, 0.55]; got ");
            reveal_strlit("solver.jacobi_relax");
            assert("solver.jacobi_relax must be in (0, 0.55]; got "@.take(19) =~= "solver.jacobi_relax"@);
        },
        Invalid::Relaxation => {
            reveal_strlit("solver.relaxation must be positive");
            reveal_strlit("solver.relaxation");
            assert("solver.relaxation must be positive"@.take(17) =~= "solver.relaxation"@);
        },
        Invalid::WallFriction(_) => {
            reveal_strlit("solver.wall_friction must be in [0, 1]; got ");
            reveal_strlit("solver.wall_friction");
            assert("solver.wall_friction must be in [0, 1]; got "@.take(20) =~= "solver.wall_friction"@);
        },
        Invalid::ParticleScale => {
            reveal_strlit("render.particle_scale must be positive");
            reveal_strlit("render.particle_scale");
            assert("render.particle_scale must be positive"@.take(21) =~= "render.particle_scale"@);
        },
        Invalid::FoamSpeed => {
            reveal_strlit("render.foam_speed must be positive");
            reveal_strlit("render.foam_speed");
            assert("render.foam_speed must be positive"@.take(17) =~= "render.foam_speed"@);
        },
        Invalid::TimeScale => {
            reveal_strlit("scene.time_scale must be in [0.05, 1]");
            reveal_strlit("scene.time_scale");
            assert("scene.time_scale must be in [0.05, 1]"@.take(16) =~= "scene.time_scale"@);
        },
        Invalid::ReplayAfter => {
            reveal_strlit("scene.replay_after must be finite and nonnegative");
            reveal_strlit("scene.replay_after");
            assert("scene.replay_after must be finite and nonnegative"@.take(18) =~= "scene.replay_after"@);
        },
        Invalid::SurfaceResolution => {
            reveal_strlit("render.surface_resolution must be in [0.5, 2]");
            reveal_strlit("render.surface_resolution");
            assert("render.surface_resolution must be in [0.5, 2]"@.take(25) =~= "render.surface_resolution"@);
        },
        Invalid::Background => {
            reveal_strlit("render.background must contain finite colors in [0, 1]");
            reveal_strlit("render.background");
            assert("render.background must contain finite colors in [0, 1]"@.take(17) =~= "render.background"@);
        },
        Invalid::DeepColor => {
            reveal_strlit("render.deep_color must contain finite colors in [0, 1]");
            reveal_strlit("render.deep_color");
            assert("render.deep_color must contain finite colors in [0, 1]"@.take(17) =~= "render.deep_color"@);
        },
        Invalid::MidColor => {
            reveal_strlit("render.mid_color must contain finite colors in [0, 1]");
            reveal_strlit("render.mid_color");
            assert("render.mid_color must contain finite colors in [0, 1]"@.take(16) =~= "render.mid_color"@);
        },
        Invalid::FoamColor => {
            reveal_strlit("render.foam_color must contain finite colors in [0, 1]");
            reveal_strlit("render.foam_color");
            assert("render.foam_color must contain finite colors in [0, 1]"@.take(17) =~= "render.foam_color"@);
        },
        Invalid::TooManySamples => {
            reveal_strlit("surface grid exceeds four million samples; raise render.surface_resolution or fluid.spacing");
            reveal_strlit("surface grid exceeds");
            assert("surface grid exceeds four million samples; raise render.surface_resolution or fluid.spacing"@.take(20) =~= "surface grid exceeds"@);
        },
    }
}

} // verus!
