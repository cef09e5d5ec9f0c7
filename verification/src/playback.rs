//! Playing a scene: the keys, the clock's decisions, and captures.
use vstd::prelude::*;
use crate::config::Piece;
use crate::single::{zero, Point, Single};

verus! {

/// Playback counts as slowed below this speed.
pub const NEARLY_FULL: u32 = 0x3f7d_70a4;

/// Full speed.
pub const FULL: u32 = 0x3f80_0000;

/// The fastest that slow motion plays.
pub const SLOW: u32 = 0x3e80_0000;

/// Frames to let the renderer warm up before the first capture.
pub const FIRST_WARMUP: u32 = 30;

/// Frames for a frozen surface to reach the screen.
pub const NEXT_WARMUP: u32 = 2;

/// The keys that were just pressed.
#[derive(Clone, Copy, PartialEq, Eq, Structural, Debug)]
pub struct Pressed {
    pub space: bool,
    pub r: bool,
    pub g: bool,
    pub s: bool,
}

/// What the keys change.
#[derive(Clone, Copy, PartialEq, Eq, Structural, Debug)]
pub struct Playback {
    pub paused: bool,
    pub scale: Single,
    pub gravity: Point,
}

/// Gravity turned upside down.
pub open spec fn flipped(p: Point) -> Point {
    Point { x: p.x.negated(), y: p.y.negated(), z: p.z.negated() }
}

/// The lesser of two speeds.
pub open spec fn slower(a: Single, b: Single) -> Single {
    if a.nan() || b.below(a) {
        b
    } else {
        a
    }
}

/// The speed that the key turns to: full speed from slow motion, and slow motion
/// from full speed, at the scene's own pace if that is slower still.
pub open spec fn toggled(scale: Single, scene: Single) -> Single {
    if scale.below(Single { bits: NEARLY_FULL }) {
        Single { bits: FULL }
    } else {
        slower(scene, Single { bits: SLOW })
    }
}

/// Answers the keys, and says whether the scene is to be played from the start.
/// A replay restores gravity before the key that flips it is answered.
pub fn handle_keys(
    playback: &mut Playback,
    pressed: Pressed,
    scene_gravity: Point,
    scene_scale: Single,
) -> (replay: bool)
    ensures
        replay == pressed.r,
        final(playback).paused == (old(playback).paused != pressed.space),
        final(playback).gravity == ({
            let now = if pressed.r {
                scene_gravity
            } else {
                old(playback).gravity
            };
            if pressed.g {
                flipped(now)
            } else {
                now
            }
        }),
        final(playback).scale == (if pressed.s {
            toggled(old(playback).scale, scene_scale)
        } else {
            old(playback).scale
        }),
        !pressed.s ==> final(playback).scale == old(playback).scale,
        pressed.s && !old(playback).scale.nan() && old(playback).scale.rank() < (Single {
            bits: 0x3f7d_70a4,
        }).rank() ==> final(playback).scale == (Single { bits: 0x3f80_0000 }),
        pressed.s && (old(playback).scale.nan() || old(playback).scale.rank() >= (Single {
            bits: 0x3f7d_70a4,
        }).rank()) ==> final(playback).scale == if !scene_scale.nan() && scene_scale.rank()
            <= (Single { bits: 0x3e80_0000 }).rank() {
            scene_scale
        } else {
            Single { bits: 0x3e80_0000 }
        },
        pressed.g ==> ({
            let now = if pressed.r {
                scene_gravity
            } else {
                old(playback).gravity
            };
            let then = final(playback).gravity;
            &&& then.x.rank() == -now.x.rank() && then.x.is_negative() == !now.x.is_negative()
            &&& then.y.rank() == -now.y.rank() && then.y.is_negative() == !now.y.is_negative()
            &&& then.z.rank() == -now.z.rank() && then.z.is_negative() == !now.z.is_negative()
        }),
        !pressed.g && pressed.r ==> final(playback).gravity == scene_gravity,
        !pressed.g && !pressed.r ==> final(playback).gravity == old(playback).gravity,
{
    proof {
        crate::single::lemma_normal(0x3f7d_70a4, 126, 0x7d_70a4);
        crate::single::lemma_normal(0x3e80_0000, 125, 0);
    }
    if pressed.space {
        playback.paused = !playback.paused;
    }
    if pressed.r {
        playback.gravity = scene_gravity;
    }
    if pressed.g {
        let g = playback.gravity;
        playback.gravity = Point { x: g.x.neg(), y: g.y.neg(), z: g.z.neg() };
    }
    if pressed.s {
        let slow = Single { bits: SLOW };
        playback.scale = if playback.scale.lt(Single { bits: NEARLY_FULL }) {
            Single { bits: FULL }
        } else if scene_scale.is_nan() || slow.lt(scene_scale) {
            slow
        } else {
            scene_scale
        };
    }
    pressed.r
}

/// Flipping gravity twice leaves it as it was.
pub proof fn lemma_flips_undo(p: Point)
    ensures
        flipped(flipped(p)) == p,
{
}

/// Full speed, slowed and sped up again, is full speed.
pub proof fn lemma_speed_comes_back(scene: Single)
    ensures
        toggled(toggled(Single { bits: FULL }, scene), scene) == (Single { bits: FULL }),
{
    reveal(crate::single::quanta);
    let (near, full, slow) = (
        Single { bits: NEARLY_FULL },
        Single { bits: FULL },
        Single { bits: SLOW },
    );
    crate::single::lemma_quanta_increases(near.magnitude(), full.magnitude());
    crate::single::lemma_quanta_increases(slow.magnitude(), near.magnitude());
    assert(slow.below(near));
    assert(!full.below(near));
}

/// How long the next step is, if there is one: none where a capture has arrived
/// or no time is left to it, and no longer than what is left to it. The speed of
/// playback does not come into it.
pub open spec fn step_of(dt: Single, capture: Option<(bool, Single)>) -> Option<Single> {
    let (arrived, length) = match capture {
        Some((reached, left)) => (reached, slower(dt, left)),
        None => (false, dt),
    };
    if arrived || length.at_most(zero()) {
        None
    } else {
        Some(length)
    }
}

/// How long the next step is, if there is one.
pub fn step_length(dt: Single, capture: Option<(bool, Single)>) -> (step: Option<Single>)
    ensures
        step == step_of(dt, capture),
        capture is None ==> step == if !dt.nan() && dt.rank() <= 0 {
            None
        } else {
            Some(dt)
        },
        capture matches Some((true, _)) ==> step is None,
        capture matches Some((false, left)) ==> {
            &&& !dt.nan() && (left.nan() || dt.rank() <= left.rank()) ==> step == if dt.rank()
                <= 0 {
                None
            } else {
                Some(dt)
            }
            &&& dt.nan() || !left.nan() && left.rank() < dt.rank() ==> step == if !left.nan()
                && left.rank() <= 0 {
                None
            } else {
                Some(left)
            }
        },
{
    proof {
        crate::single::lemma_zero();
    }
    let mut length: Single = dt;
    if let Some((reached, left)) = capture {
        if reached {
            return None;
        }
        if dt.is_nan() || left.lt(dt) {
            length = left;
        }
    }
    if length.le(Single { bits: 0 }) {
        None
    } else {
        Some(length)
    }
}

/// A tick of the clock: what was playing, and the water that it left.
pub struct Tick<W> {
    pub playback: Playback,
    pub water: W,
}

/// A scene as it plays: each tick, the water takes the next step of `dt`, if there
/// is one. What a step of some length makes of the water is up to `moved`.
pub open spec fn plays<W>(run: Seq<Tick<W>>, dt: Single, moved: spec_fn(W, Single) -> W) -> bool {
    forall|k: int|
        1 <= k < run.len() ==> (#[trigger] run[k]).water == match step_of(dt, None) {
            Some(length) => moved(run[k - 1].water, length),
            None => run[k - 1].water,
        }
}

/// Slow motion preserves the physics: two runs from the same water agree tick for
/// tick, whatever speed each of them plays at, and whenever that is changed. The
/// speed is only how often the clock ticks.
pub proof fn lemma_speed_leaves_the_water<W>(
    a: Seq<Tick<W>>,
    b: Seq<Tick<W>>,
    dt: Single,
    moved: spec_fn(W, Single) -> W,
    k: int,
)
    requires
        plays(a, dt, moved),
        plays(b, dt, moved),
        0 <= k < a.len(),
        k < b.len(),
        a[0].water == b[0].water,
    ensures
        a[k].water == b[k].water,
    decreases k,
{
    if k > 0 {
        lemma_speed_leaves_the_water(a, b, dt, moved, k - 1);
    }
}

/// Whether a scene that has played this long starts over: not while it is
/// captured, and not where replay is off.
pub fn replays(captured: bool, elapsed: Single, replay_after: Single) -> (r: bool)
    ensures
        r == (!captured && zero().below(replay_after) && replay_after.at_most(elapsed)),
        r <==> !captured && !replay_after.nan() && !elapsed.nan() && 0 < replay_after.rank()
            <= elapsed.rank(),
{
    proof {
        crate::single::lemma_zero();
    }
    !captured && replay_after.gt(Single { bits: 0 }) && elapsed.ge(replay_after)
}

/// A push's strength, turned round to pull.
pub fn directed(strength: Single, pull: bool) -> (s: Single)
    ensures
        s == (if pull {
            strength.negated()
        } else {
            strength
        }),
        pull ==> s.rank() == -strength.rank() && s.is_negative() == !strength.is_negative(),
        !pull ==> s == strength,
{
    if pull {
        strength.neg()
    } else {
        strength
    }
}

/// A time that can be asked for: a number from zero on.
pub fn usable_time(t: Single) -> (r: bool)
    ensures
        r == (t.finite() && zero().at_most(t)),
        r <==> t.finite() && t.rank() >= 0,
{
    proof {
        crate::single::lemma_zero();
    }
    t.is_finite() && t.ge(Single { bits: 0 })
}

/// A deterministic capture, of one picture or of a numbered sequence.
#[derive(Clone, Copy, PartialEq, Eq, Structural, Debug)]
pub struct Capture {
    /// Simulation time of the next picture.
    pub at: Single,
    /// Simulation time of the last one, for a sequence.
    pub until: Option<Single>,
    /// Pictures taken so far.
    pub frame: u32,
    /// Frames shown since the simulation was held for the next picture.
    pub warmup: u32,
    /// The last picture has been asked for.
    pub requested: bool,
}

/// A picture to save.
#[derive(Clone, Copy, PartialEq, Eq, Structural, Debug)]
pub struct Shot {
    /// Its number in the sequence; none for a single picture.
    pub number: Option<u32>,
    /// Whether to stop after it.
    pub last: bool,
    /// Whether to report on it: the first and the last.
    pub reported: bool,
}

/// Frames that a picture waits for.
pub open spec fn warmup_for(frame: u32) -> u32 {
    if frame == 0 {
        FIRST_WARMUP
    } else {
        NEXT_WARMUP
    }
}

impl Capture {
    pub open spec fn wf(&self) -> bool {
        self.warmup < warmup_for(self.frame)
    }

    /// A capture from `at` on: a sequence to `until`, or one picture.
    pub fn new(at: Single, until: Option<Single>) -> (c: Capture)
        ensures
            c.wf(),
            c == (Capture { at, until, frame: 0, warmup: 0, requested: false }),
    {
        Capture { at, until, frame: 0, warmup: 0, requested: false }
    }

    /// Whether the simulation has arrived, `elapsed` being its time with a
    /// quarter step of slack.
    pub fn reached(&self, elapsed: Single) -> (r: bool)
        ensures
            r == self.at.at_most(elapsed),
    {
        elapsed.ge(self.at)
    }

    /// Counts a frame towards the next picture, and says whether it is due: once
    /// the simulation has been held for as many frames as it takes.
    pub fn due(&mut self, reached: bool) -> (due: bool)
        requires
            old(self).wf(),
        ensures
            due == (!old(self).requested && reached && old(self).warmup + 1 >= warmup_for(
                old(self).frame,
            )),
            due <==> !old(self).requested && reached && (old(self).frame == 0 && old(self).warmup
                >= 29 || old(self).frame > 0 && old(self).warmup >= 1),
            *final(self) == (Capture {
                warmup: if old(self).requested || !reached {
                    old(self).warmup
                } else if due {
                    0
                } else {
                    (old(self).warmup + 1) as u32
                },
                ..*old(self)
            }),
            final(self).wf(),
    {
        if self.requested || !reached {
            return false;
        }
        let wait: u32 = if self.frame == 0 {
            FIRST_WARMUP
        } else {
            NEXT_WARMUP
        };
        self.warmup = self.warmup + 1;
        if self.warmup < wait {
            return false;
        }
        self.warmup = 0;
        true
    }

    /// Takes a picture that is due. A sequence moves on to `next`, and ends where
    /// that lies past `limit`; a single picture is the last.
    pub fn take(&mut self, next: Single, limit: Single) -> (shot: Shot)
        requires
            old(self).wf(),
            old(self).warmup == 0,
            old(self).frame < u32::MAX,
        ensures
            final(self).wf(),
            old(self).until is None ==> {
                &&& shot == (Shot { number: None, last: true, reported: true })
                &&& *final(self) == (Capture { requested: true, ..*old(self) })
            },
            old(self).until is Some ==> {
                let last = limit.below(next);
                &&& shot == (Shot {
                    number: Some(old(self).frame),
                    last,
                    reported: old(self).frame == 0 || last,
                })
                &&& *final(self) == (Capture {
                    at: next,
                    frame: (old(self).frame + 1) as u32,
                    requested: old(self).requested || last,
                    ..*old(self)
                })
            },
    {
        match self.until {
            None => {
                self.requested = true;
                Shot { number: None, last: true, reported: true }
            },
            Some(_) => {
                let number: u32 = self.frame;
                self.frame = self.frame + 1;
                self.at = next;
                let last: bool = next.gt(limit);
                if last {
                    self.requested = true;
                }
                Shot { number: Some(number), last, reported: number == 0 || last }
            },
        }
    }
}

/// The state that the window title reports.
#[derive(Clone, Copy, PartialEq, Eq, Structural, Debug)]
pub struct Status {
    pub wave: bool,
    pub on_device: bool,
    pub paused: bool,
    pub particles: usize,
    pub elapsed: Single,
    pub scale: Single,
    pub frame_ms: Single,
    pub solver_ms: Single,
    pub surface_ms: Single,
    /// Compression and bulk density in percent. The bulk is not a number where
    /// the water has none.
    pub compression: Single,
    pub bulk: Single,
    pub peak: Single,
}

/// The title for a state.
pub open spec fn title_of(s: Status) -> Seq<Piece> {
    seq![
        Piece::Text(
            if s.wave {
                "Swell / reef break"
            } else {
                "Fluids / dam break"
            },
        ),
        Piece::Text(" | "),
        Piece::Fixed(s.elapsed, 2),
        Piece::Text("s / "),
        Piece::Fixed(s.scale, 2),
        Piece::Text("x | "),
        Piece::Count(s.particles),
        Piece::Text(" particles | "),
        Piece::Fixed(s.frame_ms, 1),
        Piece::Text(" ms ("),
        Piece::Fixed(s.solver_ms, 1),
        Piece::Text(
            if s.on_device {
                " GPU solve + "
            } else {
                " CPU solve + "
            },
        ),
        Piece::Fixed(s.surface_ms, 1),
        Piece::Text(" surface) | compression "),
        Piece::Fixed(s.compression, 1),
        Piece::Text("% | bulk "),
        if s.bulk.finite() {
            Piece::Fixed(s.bulk, 0)
        } else {
            Piece::Text("n/a")
        },
        Piece::Text(
            if s.bulk.finite() {
                "% | peak "
            } else {
                " | peak "
            },
        ),
        Piece::Fixed(s.peak, 0),
        Piece::Text(
            if s.paused {
                " - PAUSED"
            } else {
                ""
            },
        ),
        Piece::Text(
            " | SPACE pause \u{b7} R replay \u{b7} S speed \u{b7} P particles \u{b7} B bounds",
        ),
    ]
}

/// The title to show, piece by piece.
pub fn title(s: &Status) -> (pieces: Vec<Piece>)
    ensures
        pieces@ == title_of(*s),
        pieces@.len() == 21,
        pieces@[0] == Piece::Text(
            if s.wave {
                "Swell / reef break"
            } else {
                "Fluids / dam break"
            },
        ),
        pieces@[1] == Piece::Text(" | "),
        pieces@[2] == Piece::Fixed(s.elapsed, 2),
        pieces@[3] == Piece::Text("s / "),
        pieces@[4] == Piece::Fixed(s.scale, 2),
        pieces@[5] == Piece::Text("x | "),
        pieces@[6] == Piece::Count(s.particles),
        pieces@[7] == Piece::Text(" particles | "),
        pieces@[8] == Piece::Fixed(s.frame_ms, 1),
        pieces@[9] == Piece::Text(" ms ("),
        pieces@[10] == Piece::Fixed(s.solver_ms, 1),
        pieces@[11] == Piece::Text(
            if s.on_device {
                " GPU solve + "
            } else {
                " CPU solve + "
            },
        ),
        pieces@[12] == Piece::Fixed(s.surface_ms, 1),
        pieces@[13] == Piece::Text(" surface) | compression "),
        pieces@[14] == Piece::Fixed(s.compression, 1),
        pieces@[15] == Piece::Text("% | bulk "),
        s.bulk.finite() ==> pieces@[16] == Piece::Fixed(s.bulk, 0),
        !s.bulk.finite() ==> pieces@[16] == Piece::Text("n/a"),
        pieces@[17] == Piece::Text(
            if s.bulk.finite() {
                "% | peak "
            } else {
                " | peak "
            },
        ),
        pieces@[18] == Piece::Fixed(s.peak, 0),
        pieces@[19] == Piece::Text(
            if s.paused {
                " - PAUSED"
            } else {
                ""
            },
        ),
{
    let has_bulk: bool = s.bulk.is_finite();
    let pieces: Vec<Piece> = vec![
        Piece::Text(
            if s.wave {
                "Swell / reef break"
            } else {
                "Fluids / dam break"
            },
        ),
        Piece::Text(" | "),
        Piece::Fixed(s.elapsed, 2),
        Piece::Text("s / "),
        Piece::Fixed(s.scale, 2),
        Piece::Text("x | "),
        Piece::Count(s.particles),
        Piece::Text(" particles | "),
        Piece::Fixed(s.frame_ms, 1),
        Piece::Text(" ms ("),
        Piece::Fixed(s.solver_ms, 1),
        Piece::Text(
            if s.on_device {
                " GPU solve + "
            } else {
                " CPU solve + "
            },
        ),
        Piece::Fixed(s.surface_ms, 1),
        Piece::Text(" surface) | compression "),
        Piece::Fixed(s.compression, 1),
        Piece::Text("% | bulk "),
        if has_bulk {
            Piece::Fixed(s.bulk, 0)
        } else {
            Piece::Text("n/a")
        },
        Piece::Text(
            if has_bulk {
                "% | peak "
            } else {
                " | peak "
            },
        ),
        Piece::Fixed(s.peak, 0),
        Piece::Text(
            if s.paused {
                " - PAUSED"
            } else {
                ""
            },
        ),
        Piece::Text(
            " | SPACE pause \u{b7} R replay \u{b7} S speed \u{b7} P particles \u{b7} B bounds",
        ),
    ];
    assert(pieces@ =~= title_of(*s));
    pieces
}

} // verus!
