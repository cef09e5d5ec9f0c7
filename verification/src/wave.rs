//! A directional swell generation zone and a steep reef in a particle wave tank.
use vstd::prelude::*;
use crate::config::{
    fails_nonnegative, fails_positive, fails_range, judge, judged, not_in, not_nonnegative,
    not_positive, Invalid, UNITY,
};
use crate::single::{zero, Point, Single};

verus! {

/// The steepest swell that does not already break offshore.
pub const STEEPEST: u32 = 0x3df5_c28f;

/// The widest angle a swell travels at, in degrees.
pub const WIDEST_ANGLE: u32 = 0x4270_0000;

/// The shortest beach, as a fraction of the width.
pub const SHORTEST_BEACH: u32 = 0x3dcc_cccd;

/// The longest beach, as a fraction of the width.
pub const LONGEST_BEACH: u32 = 0x3ecc_cccd;

/// An offshore swell.
#[derive(Clone, Copy, PartialEq, Eq, Structural, Debug)]
pub struct Swell {
    /// Direction of travel in degrees: 0 = +X, positive turns toward +Z.
    pub direction: Single,
    /// Target offshore crest-to-trough height, in world units.
    pub height: Single,
    /// Period in simulation seconds, independent of playback speed.
    pub period: Single,
    /// How many waves to make; zero for an endless train.
    pub waves: u32,
}

/// A swell 40 units high, every 1.8 seconds, straight onto the reef.
pub open spec fn default_swell() -> Swell {
    Swell {
        direction: Single { bits: 0x0000_0000 },
        height: Single { bits: 0x4220_0000 },
        period: Single { bits: 0x3fe6_6666 },
        waves: 0,
    }
}

impl Default for Swell {
    fn default() -> (swell: Swell)
        ensures
            swell == default_swell(),
    {
        Swell {
            direction: Single { bits: 0x0000_0000 },
            height: Single { bits: 0x4220_0000 },
            period: Single { bits: 0x3fe6_6666 },
            waves: 0,
        }
    }
}

/// The tank's floor: deep water, a steep rise, and a shelf with a beach behind.
#[derive(Clone, Copy, PartialEq, Eq, Structural, Debug)]
pub struct Wave {
    pub water_depth: Single,
    pub reef_height: Single,
    /// Start and width of the steep rise, as fractions of the world's width.
    pub reef_start: Single,
    pub reef_width: Single,
    /// Change in reef X per unit Z.
    pub reef_skew: Single,
    /// Fraction of the world's width reserved for the shoreward damping beach.
    pub beach_width: Single,
}

/// Water 190 deep over a reef 174 high, which rises over 0.24 of the width from
/// 0.30 on, skewed by 0.12, with a beach over the last 0.22.
pub open spec fn default_wave() -> Wave {
    Wave {
        water_depth: Single { bits: 0x433e_0000 },
        reef_height: Single { bits: 0x432e_0000 },
        reef_start: Single { bits: 0x3e99_999a },
        reef_width: Single { bits: 0x3e75_c28f },
        reef_skew: Single { bits: 0x3df5_c28f },
        beach_width: Single { bits: 0x3e61_47ae },
    }
}

impl Default for Wave {
    fn default() -> (wave: Wave)
        ensures
            wave == default_wave(),
    {
        Wave {
            water_depth: Single { bits: 0x433e_0000 },
            reef_height: Single { bits: 0x432e_0000 },
            reef_start: Single { bits: 0x3e99_999a },
            reef_width: Single { bits: 0x3e75_c28f },
            reef_skew: Single { bits: 0x3df5_c28f },
            beach_width: Single { bits: 0x3e61_47ae },
        }
    }
}

/// What the wave tank's limits are checked against, worked out from the
/// settings.
#[derive(Clone, Copy, PartialEq, Eq, Structural, Debug)]
pub struct WaveMeasures {
    pub size_x: Single,
    pub size_y: Single,
    pub size_z: Single,
    pub two_spacings: Single,
    pub three_spacings: Single,
    pub eight_spacings: Single,
    pub twelve_spacings: Single,
    /// The reef's height and two spacings above it.
    pub two_layers: Single,
    /// The water's depth, twice the swell's height, and a spacing.
    pub crest: Single,
    pub wavelength: Single,
    pub half_wavelength: Single,
    /// The swell's height over its wavelength.
    pub steepness: Single,
    /// Deep water before the nearest of the reef.
    pub offshore: Single,
    /// The generation zone's width and four spacings.
    pub generation: Single,
    /// The width of the reef's rise.
    pub rise: Single,
    /// Where the beach would have to start at the latest, and its width.
    pub beach_end: Single,
}

/// The size of a number.
pub open spec fn magnitude(v: Single) -> Single {
    Single { bits: v.magnitude() as u32 }
}

/// An endless swell, as against a single wave, which has no period, no
/// wavelength and no generation zone.
pub open spec fn endless(swell: Swell) -> bool {
    swell.waves != 1
}

/// The checks on the wave tank's settings one by one, in order.
pub open spec fn wave_checks(
    w: &Wave,
    swell: &Swell,
    gravity: &Point,
) -> Seq<(bool, Invalid)> {
    seq![
        (not_nonnegative(w.water_depth), Invalid::WaterDepth),
        (not_nonnegative(w.reef_height), Invalid::ReefHeight),
        (not_nonnegative(w.reef_start), Invalid::ReefStart),
        (not_nonnegative(w.reef_width), Invalid::ReefWidth),
        (not_nonnegative(w.beach_width), Invalid::BeachWidth),
        (
            !w.reef_skew.finite() || (Single { bits: UNITY }).below(magnitude(w.reef_skew)),
            Invalid::ReefSkew,
        ),
        (
            !gravity.x.same(zero())
                || !gravity.z.same(zero())
                || !gravity.y.finite()
                || zero().at_most(gravity.y),
            Invalid::Upward,
        ),
        (
            not_in(
                swell.direction,
                (Single { bits: WIDEST_ANGLE }).negated(),
                Single { bits: WIDEST_ANGLE },
            ),
            Invalid::Direction,
        ),
        (endless(*swell) && (not_positive(swell.period)), Invalid::Period),
        (not_nonnegative(swell.height), Invalid::SwellHeight),
    ]
}

/// The checks on how they fit together, in order.
pub open spec fn swell_checks(
    w: &Wave,
    swell: &Swell,
    m: &WaveMeasures,
) -> Seq<(bool, Invalid)> {
    seq![
        (
            zero().below(swell.height) && swell.height.below(m.three_spacings),
            Invalid::SwellUnresolved,
        ),
        (w.water_depth.below(m.two_layers), Invalid::ReefTooHigh),
        (m.size_y.below(m.crest), Invalid::CrestTooHigh),
        (
            endless(*swell) && (!m.wavelength.finite() || m.wavelength.below(m.twelve_spacings)),
            Invalid::WavelengthUnresolved,
        ),
        (
            endless(*swell) && (w.water_depth.below(m.half_wavelength)),
            Invalid::TooShallow(m.half_wavelength),
        ),
        (endless(*swell) && ((Single { bits: STEEPEST }).below(m.steepness)), Invalid::TooSteep),
        (endless(*swell) && (m.offshore.below(m.generation)), Invalid::ReefTooNear),
        (m.rise.below(m.two_spacings), Invalid::RiseUnresolved),
        (
            !w.beach_width.within(Single { bits: SHORTEST_BEACH }, Single { bits: LONGEST_BEACH })
                || m.size_x.at_most(m.beach_end),
            Invalid::Beach,
        ),
        (m.size_z.below(m.eight_spacings), Invalid::TankTooNarrow),
    ]
}

/// All the checks of a tank, in order.
pub open spec fn tank_checks(
    w: &Wave,
    swell: &Swell,
    gravity: &Point,
    m: &WaveMeasures,
) -> Seq<(bool, Invalid)> {
    wave_checks(w, swell, gravity) + swell_checks(w, swell, m)
}

fn check_wave(w: &Wave, swell: &Swell, gravity: &Point) -> (list: Vec<(bool, Invalid)>)
    ensures
        list@ == wave_checks(w, swell, gravity),
{
    let endless: bool = swell.waves != 1;
    let list: Vec<(bool, Invalid)> = vec![
        (fails_nonnegative(w.water_depth), Invalid::WaterDepth),
        (fails_nonnegative(w.reef_height), Invalid::ReefHeight),
        (fails_nonnegative(w.reef_start), Invalid::ReefStart),
        (fails_nonnegative(w.reef_width), Invalid::ReefWidth),
        (fails_nonnegative(w.beach_width), Invalid::BeachWidth),
        (
            !w.reef_skew.is_finite() || w.reef_skew.abs().gt(Single { bits: UNITY }),
            Invalid::ReefSkew,
        ),
        (
            !gravity.x.equals(Single { bits: 0 })
                || !gravity.z.equals(Single { bits: 0 })
                || !gravity.y.is_finite()
                || gravity.y.ge(Single { bits: 0 }),
            Invalid::Upward,
        ),
        (
            fails_range(
                swell.direction,
                (Single { bits: WIDEST_ANGLE }).neg(),
                Single { bits: WIDEST_ANGLE },
            ),
            Invalid::Direction,
        ),
        (endless && fails_positive(swell.period), Invalid::Period),
        (fails_nonnegative(swell.height), Invalid::SwellHeight),
    ];
    assert(list@ =~= wave_checks(w, swell, gravity));
    list
}

fn check_swell(w: &Wave, swell: &Swell, m: &WaveMeasures) -> (list: Vec<(bool, Invalid)>)
    ensures
        list@ == swell_checks(w, swell, m),
{
    let endless: bool = swell.waves != 1;
    let list: Vec<(bool, Invalid)> = vec![
        (
            swell.height.gt(Single { bits: 0 }) && swell.height.lt(m.three_spacings),
            Invalid::SwellUnresolved,
        ),
        (w.water_depth.lt(m.two_layers), Invalid::ReefTooHigh),
        (m.crest.gt(m.size_y), Invalid::CrestTooHigh),
        (
            endless && (!m.wavelength.is_finite() || m.wavelength.lt(m.twelve_spacings)),
            Invalid::WavelengthUnresolved,
        ),
        (endless && (w.water_depth.lt(m.half_wavelength)), Invalid::TooShallow(m.half_wavelength)),
        (endless && (m.steepness.gt(Single { bits: STEEPEST })), Invalid::TooSteep),
        (endless && (m.offshore.lt(m.generation)), Invalid::ReefTooNear),
        (m.rise.lt(m.two_spacings), Invalid::RiseUnresolved),
        (
            !w.beach_width.is_within(
                Single { bits: SHORTEST_BEACH },
                Single { bits: LONGEST_BEACH },
            )
                || m.beach_end.ge(m.size_x),
            Invalid::Beach,
        ),
        (m.size_z.lt(m.eight_spacings), Invalid::TankTooNarrow),
    ];
    assert(list@ =~= swell_checks(w, swell, m));
    list
}

impl Wave {
    /// Checks that the tank holds together under this swell and gravity: the first
    /// limit that is broken is what it is refused for.
    pub fn validate(
        &self,
        swell: Swell,
        gravity: Point,
        m: &WaveMeasures,
    ) -> (r: Result<(), Invalid>)
        ensures
            judged(tank_checks(self, &swell, &gravity, m), r),
    {
        let mut list: Vec<(bool, Invalid)> = check_wave(self, &swell, &gravity);
        let mut rest: Vec<(bool, Invalid)> = check_swell(self, &swell, m);
        list.append(&mut rest);
        assert(list@ =~= tank_checks(self, &swell, &gravity, m));
        judge(&list)
    }
}

} // verus!
