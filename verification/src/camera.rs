//! A free-flying camera: which way the keys ask it to fly, and when it moves.
use vstd::prelude::*;
use crate::single::{zero, Point, Single};

verus! {

/// The keys that are held. Arrows stand in for letters.
#[derive(Clone, Copy, PartialEq, Eq, Structural, Debug)]
pub struct Held {
    pub forward: bool,
    pub back: bool,
    pub right: bool,
    pub left: bool,
    pub up: bool,
    pub down: bool,
}

/// Which way to fly: along the view, across it, and straight up. Opposite keys
/// cancel.
#[derive(Clone, Copy, PartialEq, Eq, Structural, Debug)]
pub struct Heading {
    pub forward: i32,
    pub right: i32,
    pub up: i32,
}

/// One way, the other, or neither.
pub open spec fn balance(ahead: bool, behind: bool) -> int {
    (if ahead {
        1int
    } else {
        0
    }) - (if behind {
        1int
    } else {
        0
    })
}

fn balanced(ahead: bool, behind: bool) -> (b: i32)
    ensures
        b == balance(ahead, behind),
        -1 <= b <= 1,
{
    if ahead == behind {
        0
    } else if ahead {
        1
    } else {
        -1
    }
}

/// The heading that the keys ask for.
pub fn heading(held: Held) -> (h: Heading)
    ensures
        h.forward == balance(held.forward, held.back),
        h.right == balance(held.right, held.left),
        h.up == balance(held.up, held.down),
        h.forward == if held.forward && !held.back {
            1int
        } else if held.back && !held.forward {
            -1int
        } else {
            0int
        },
        h.right == if held.right && !held.left {
            1int
        } else if held.left && !held.right {
            -1int
        } else {
            0int
        },
        h.up == if held.up && !held.down {
            1int
        } else if held.down && !held.up {
            -1int
        } else {
            0int
        },
{
    Heading {
        forward: balanced(held.forward, held.back),
        right: balanced(held.right, held.left),
        up: balanced(held.up, held.down),
    }
}

/// A number held between two limits.
pub open spec fn clamped(v: Single, low: Single, high: Single) -> Single {
    if v.below(low) {
        low
    } else if high.below(v) {
        high
    } else {
        v
    }
}

/// Stops looking up and down short of vertical, where turning left and right
/// would start to roll the view.
pub fn clamp_pitch(pitch: Single, limit: Single) -> (p: Single)
    requires
        !limit.nan(),
        !limit.is_negative(),
    ensures
        p == clamped(pitch, limit.negated(), limit),
        !pitch.nan() ==> limit.negated().at_most(p) && p.at_most(limit),
        pitch.nan() ==> p == pitch,
        !pitch.nan() && pitch.rank() > limit.rank() ==> p == limit,
        !pitch.nan() && pitch.rank() < -limit.rank() ==> p.rank() == -limit.rank()
            && p.is_negative(),
        !pitch.nan() && -limit.rank() <= pitch.rank() <= limit.rank() ==> p == pitch,
{
    let low = limit.neg();
    proof {
        crate::single::lemma_quanta_increases(limit.magnitude(), limit.magnitude() + 1);
    }
    if pitch.lt(low) {
        low
    } else if pitch.gt(limit) {
        limit
    } else {
        pitch
    }
}

/// Whether the camera settles to a stop rather than creeping forever towards
/// one: nothing is asked of it, and it is as good as still.
pub fn settles(asked: bool, speed: Single, threshold: Single) -> (r: bool)
    ensures
        r == (!asked && speed.below(threshold)),
        r <==> !asked && !speed.nan() && !threshold.nan() && speed.rank() < threshold.rank(),
{
    !asked && speed.lt(threshold)
}

/// Whether the drag turned the view: a button is held and the mouse moved.
pub fn turned(held: bool, dx: Single, dy: Single) -> (r: bool)
    ensures
        r == (held && !(dx.same(zero()) && dy.same(zero()))),
        r <==> held && (dx.nan() || dx.rank() != 0 || dy.nan() || dy.rank() != 0),
{
    proof {
        crate::single::lemma_zero();
    }
    let none = Single { bits: 0 };
    held && !(dx.equals(none) && dy.equals(none))
}

/// Where the camera faces, and how it moves.
#[derive(Clone, Copy, PartialEq, Eq, Structural, Debug)]
pub struct Rig {
    /// Angle around the vertical axis.
    pub yaw: Single,
    /// Angle above the horizontal.
    pub pitch: Single,
    pub velocity: Point,
}

/// Whether a velocity is none at all.
pub open spec fn at_rest(v: Point) -> bool {
    v.x.same(zero()) && v.y.same(zero()) && v.z.same(zero())
}

/// A drag of the mouse: whether a button is held, how far the mouse moved, and the
/// angles that turning by as much would lead to.
#[derive(Clone, Copy, PartialEq, Eq, Structural, Debug)]
pub struct Drag {
    pub held: bool,
    pub dx: Single,
    pub dy: Single,
    pub yaw: Single,
    pub pitch: Single,
}

impl Drag {
    /// The view is turned: a button is held and the mouse moved.
    pub open spec fn turns(self) -> bool {
        self.held && !(self.dx.same(zero()) && self.dy.same(zero()))
    }
}

/// What the keys come to: whether they ask for anything, the velocity eased
/// towards what they ask for, how fast that is, and what is as good as still.
#[derive(Clone, Copy, PartialEq, Eq, Structural, Debug)]
pub struct Thrust {
    pub asked: bool,
    pub eased: Point,
    pub speed: Single,
    pub threshold: Single,
}

impl Thrust {
    /// Nothing is asked of the camera, and it is as good as still.
    pub open spec fn idles(self) -> bool {
        !self.asked && self.speed.below(self.threshold)
    }
}

/// The camera after a drag: turned to the new angles, short of vertical. Without
/// one it faces where it did.
pub open spec fn looked(rig: Rig, drag: Drag, limit: Single) -> Rig {
    if drag.turns() {
        Rig { yaw: drag.yaw, pitch: clamped(drag.pitch, limit.negated(), limit), ..rig }
    } else {
        rig
    }
}

/// The camera as it takes up the eased velocity, or stops.
pub open spec fn drifted(rig: Rig, thrust: Thrust) -> Rig {
    Rig {
        velocity: if thrust.idles() {
            Point { x: zero(), y: zero(), z: zero() }
        } else {
            thrust.eased
        },
        ..rig
    }
}

/// Turns the camera with the mouse, and says whether it did.
pub fn look(rig: &mut Rig, drag: Drag, limit: Single) -> (dragged: bool)
    requires
        !limit.nan(),
        !limit.is_negative(),
    ensures
        dragged == drag.turns(),
        *final(rig) == looked(*old(rig), drag, limit),
        dragged <==> drag.held && (drag.dx.nan() || drag.dx.rank() != 0 || drag.dy.nan()
            || drag.dy.rank() != 0),
        !dragged ==> *final(rig) == *old(rig),
        dragged ==> {
            &&& final(rig).yaw == drag.yaw
            &&& final(rig).velocity == old(rig).velocity
            &&& drag.pitch.nan() ==> final(rig).pitch == drag.pitch
            &&& !drag.pitch.nan() && -limit.rank() <= drag.pitch.rank() <= limit.rank() ==> final(rig).pitch == drag.pitch
            &&& !drag.pitch.nan() && drag.pitch.rank() > limit.rank() ==> final(rig).pitch == limit
            &&& !drag.pitch.nan() && drag.pitch.rank() < -limit.rank() ==> final(rig).pitch.rank()
                == -limit.rank()
        },
{
    let dragged: bool = turned(drag.held, drag.dx, drag.dy);
    if dragged {
        rig.yaw = drag.yaw;
        rig.pitch = clamp_pitch(drag.pitch, limit);
    }
    dragged
}

/// Takes up the eased velocity, or stops, and says whether the view changes: it
/// was dragged, or it moves.
pub fn drift(rig: &mut Rig, dragged: bool, thrust: Thrust) -> (changes: bool)
    ensures
        *final(rig) == drifted(*old(rig), thrust),
        changes == (dragged || !at_rest(drifted(*old(rig), thrust).velocity)),
        final(rig).yaw == old(rig).yaw,
        final(rig).pitch == old(rig).pitch,
        final(rig).velocity == if !thrust.asked && !thrust.speed.nan() && !thrust.threshold.nan()
            && thrust.speed.rank() < thrust.threshold.rank() {
            Point { x: zero(), y: zero(), z: zero() }
        } else {
            thrust.eased
        },
        changes <==> dragged || final(rig).velocity.x.nan() || final(rig).velocity.x.rank() != 0
            || final(rig).velocity.y.nan() || final(rig).velocity.y.rank() != 0 || final(rig).velocity.z.nan() || final(rig).velocity.z.rank() != 0,
{
    proof {
        crate::single::lemma_zero();
    }
    let none = Single { bits: 0 };
    if settles(thrust.asked, thrust.speed, thrust.threshold) {
        rig.velocity = Point { x: none, y: none, z: none };
    } else {
        rig.velocity = thrust.eased;
    }
    let v = rig.velocity;
    dragged || !(v.x.equals(none) && v.y.equals(none) && v.z.equals(none))
}

/// A frame: a drag, and then what the keys come to.
pub type Frame = (Drag, Thrust);

/// The camera after a frame.
pub open spec fn flown(rig: Rig, frame: Frame, limit: Single) -> Rig {
    drifted(looked(rig, frame.0, limit), frame.1)
}

/// Whether the view changes in a frame.
pub open spec fn view_changes(rig: Rig, frame: Frame, limit: Single) -> bool {
    frame.0.turns() || !at_rest(flown(rig, frame, limit).velocity)
}

/// The camera after some frames.
pub open spec fn flown_for(rig: Rig, frames: Seq<Frame>, limit: Single) -> Rig
    decreases frames.len(),
{
    if frames.len() == 0 {
        rig
    } else {
        flown(flown_for(rig, frames.drop_last(), limit), frames.last(), limit)
    }
}

/// Left alone the camera holds still: over frames that neither drag nor ask, one
/// that stands stays as it is, and the view never changes.
pub proof fn lemma_left_alone_it_holds_still(rig: Rig, frames: Seq<Frame>, limit: Single)
    requires
        rig.velocity == (Point { x: zero(), y: zero(), z: zero() }),
        forall|k: int|
            0 <= k < frames.len() ==> !(#[trigger] frames[k]).0.turns() && frames[k].1.idles(),
    ensures
        flown_for(rig, frames, limit) == rig,
        forall|k: int|
            0 <= k < frames.len() ==> !view_changes(
                flown_for(rig, frames.take(k), limit),
                #[trigger] frames[k],
                limit,
            ),
    decreases frames.len(),
{
    if frames.len() > 0 {
        let before = frames.drop_last();
        assert(forall|k: int| 0 <= k < before.len() ==> #[trigger] before[k] == frames[k]);
        lemma_left_alone_it_holds_still(rig, before, limit);
        assert(!frames[frames.len() - 1].0.turns() && frames[frames.len() - 1].1.idles());
    }
    assert forall|k: int| 0 <= k < frames.len() implies !view_changes(
        flown_for(rig, frames.take(k), limit),
        #[trigger] frames[k],
        limit,
    ) by {
        assert(frames[k].1.idles() && !frames[k].0.turns());
    }
}

/// Let go, the camera comes to stand still exactly: as soon as nothing is asked of
/// it and it is as good as still, it does not move at all, and stays so while
/// nothing else is asked.
pub proof fn lemma_released_it_stops(rig: Rig, frame: Frame, after: Seq<Frame>, limit: Single)
    requires
        frame.1.idles(),
        forall|k: int|
            0 <= k < after.len() ==> !(#[trigger] after[k]).0.turns() && after[k].1.idles(),
    ensures
        flown(rig, frame, limit).velocity == (Point { x: zero(), y: zero(), z: zero() }),
        flown_for(flown(rig, frame, limit), after, limit) == flown(rig, frame, limit),
{
    lemma_left_alone_it_holds_still(flown(rig, frame, limit), after, limit);
}

/// Keys alone do not turn the camera: over frames without a drag it faces the way
/// it did.
pub proof fn lemma_keys_do_not_turn(rig: Rig, frames: Seq<Frame>, limit: Single)
    requires
        forall|k: int| 0 <= k < frames.len() ==> !(#[trigger] frames[k]).0.turns(),
    ensures
        flown_for(rig, frames, limit).yaw == rig.yaw,
        flown_for(rig, frames, limit).pitch == rig.pitch,
    decreases frames.len(),
{
    if frames.len() > 0 {
        let before = frames.drop_last();
        assert(forall|k: int| 0 <= k < before.len() ==> #[trigger] before[k] == frames[k]);
        lemma_keys_do_not_turn(rig, before, limit);
        assert(!frames[frames.len() - 1].0.turns());
    }
}

/// The view stops short of vertical, over whatever frames: the pitch keeps within
/// its limits wherever it was within them and each drag leads to some number.
pub proof fn lemma_pitch_stays_short(rig: Rig, frames: Seq<Frame>, limit: Single)
    requires
        !limit.nan(),
        !limit.is_negative(),
        rig.pitch.within(limit.negated(), limit),
        forall|k: int| 0 <= k < frames.len() ==> !(#[trigger] frames[k]).0.pitch.nan(),
    ensures
        flown_for(rig, frames, limit).pitch.within(limit.negated(), limit),
    decreases frames.len(),
{
    if frames.len() > 0 {
        let before = frames.drop_last();
        assert(forall|k: int| 0 <= k < before.len() ==> #[trigger] before[k] == frames[k]);
        lemma_pitch_stays_short(rig, before, limit);
        assert(!frames[frames.len() - 1].0.pitch.nan());
        crate::single::lemma_quanta_increases(limit.magnitude(), limit.magnitude() + 1);
    }
}

} // verus!
