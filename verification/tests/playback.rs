use fluids::camera::{
    clamp_pitch, drift, heading, look, settles, turned, Drag, Heading, Held, Rig, Thrust,
};
use fluids::config::Piece;
use fluids::playback::{
    directed, handle_keys, replays, step_length, title, usable_time, Capture, Playback, Pressed,
    Shot, Status,
};
use fluids::single::{Point, Single};

fn s(v: f32) -> Single {
    Single { bits: v.to_bits() }
}

fn f(v: Single) -> f32 {
    f32::from_bits(v.bits)
}

fn down(g: f32) -> Point {
    Point { x: s(0.0), y: s(-g), z: s(0.0) }
}

const NONE: Pressed = Pressed { space: false, r: false, g: false, s: false };

fn playing() -> Playback {
    Playback { paused: false, scale: s(1.0), gravity: down(700.0) }
}

fn pressing(playback: &mut Playback, pressed: Pressed) -> bool {
    handle_keys(playback, pressed, down(700.0), s(1.0))
}

#[test]
fn keys_pause_flip_and_slow_down() {
    let mut p = playing();
    assert!(!pressing(&mut p, NONE));
    assert_eq!(p, playing());
    pressing(&mut p, Pressed { space: true, ..NONE });
    assert!(p.paused);
    pressing(&mut p, Pressed { g: true, ..NONE });
    assert_eq!(f(p.gravity.y), 700.0);
    pressing(&mut p, Pressed { g: true, ..NONE });
    assert_eq!(f(p.gravity.y), -700.0);
    pressing(&mut p, Pressed { s: true, ..NONE });
    assert_eq!(f(p.scale), 0.25);
    pressing(&mut p, Pressed { s: true, ..NONE });
    assert_eq!(f(p.scale), 1.0);
    let mut slow = playing();
    handle_keys(&mut slow, Pressed { s: true, ..NONE }, down(700.0), s(0.1));
    assert_eq!(f(slow.scale), 0.1);
}

#[test]
fn a_replay_restores_gravity_before_it_is_flipped() {
    let mut p = playing();
    p.gravity = down(-700.0);
    assert!(pressing(&mut p, Pressed { r: true, ..NONE }));
    assert_eq!(p.gravity, down(700.0));
    assert!(pressing(&mut p, Pressed { r: true, g: true, ..NONE }));
    assert_eq!(f(p.gravity.y), 700.0);
}

#[test]
fn a_step_stops_at_the_next_picture() {
    assert_eq!(step_length(s(0.1), None), Some(s(0.1)));
    assert_eq!(step_length(s(0.0), None), None);
    assert_eq!(step_length(s(0.1), Some((false, s(0.04)))), Some(s(0.04)));
    assert_eq!(step_length(s(0.1), Some((false, s(4.0)))), Some(s(0.1)));
    assert_eq!(step_length(s(0.1), Some((false, s(-1.0)))), None);
    assert_eq!(step_length(s(0.1), Some((true, s(4.0)))), None);
}

#[test]
fn a_scene_replays_after_its_time() {
    assert!(!replays(false, s(10.0), s(0.0)));
    assert!(!replays(false, s(9.9), s(10.0)));
    assert!(replays(false, s(10.0), s(10.0)));
    assert!(!replays(true, s(10.0), s(10.0)));
    assert_eq!(f(directed(s(5.0), true)), -5.0);
    assert_eq!(f(directed(s(5.0), false)), 5.0);
    assert!(usable_time(s(0.0)) && usable_time(s(12.0)));
    assert!(!usable_time(s(-1.0)) && !usable_time(s(f32::NAN)) && !usable_time(s(f32::INFINITY)));
}

#[test]
fn a_single_picture_waits_for_the_renderer_and_is_the_last() {
    let mut c = Capture::new(s(12.0), None);
    assert!(!c.reached(s(11.9)) && c.reached(s(12.0)));
    assert!(!c.due(false));
    for _ in 0..29 {
        assert!(!c.due(true));
    }
    assert!(c.due(true));
    let shot = c.take(s(12.0), s(12.0));
    assert_eq!(shot, Shot { number: None, last: true, reported: true });
    for _ in 0..50 {
        assert!(!c.due(true));
    }
}

#[test]
fn a_sequence_numbers_its_pictures_to_the_end() {
    let mut c = Capture::new(s(1.0), Some(s(1.2)));
    let mut numbers = vec![];
    for next in [1.1f32, 1.2, 1.3] {
        let mut frames = 0;
        while !c.due(true) {
            frames += 1;
        }
        assert_eq!(frames, if next == 1.1 { 29 } else { 1 });
        let shot = c.take(s(next), s(1.2));
        assert_eq!(shot.last, next > 1.2);
        assert_eq!(shot.reported, shot.last || shot.number == Some(0));
        numbers.push(shot.number);
        assert_eq!(c.at, s(next));
    }
    assert_eq!(numbers, vec![Some(0), Some(1), Some(2)]);
    assert!(!c.due(true));
}

#[test]
fn the_title_reports_the_state() {
    let mut status = Status {
        wave: true,
        on_device: true,
        paused: false,
        particles: 22078,
        elapsed: s(12.345),
        scale: s(1.0),
        frame_ms: s(16.66),
        solver_ms: s(3.0),
        surface_ms: s(2.9),
        compression: s(1.94),
        bulk: s(97.6),
        peak: s(351.8),
    };
    let worded = |status: &Status| {
        let mut text = String::new();
        for piece in title(status) {
            text.push_str(&match piece {
                Piece::Text(words) => words.to_string(),
                Piece::Fixed(v, decimals) => format!("{:.*}", decimals as usize, f(v)),
                Piece::Count(n) => format!("{n}"),
                other => panic!("unexpected {other:?}"),
            });
        }
        text
    };
    let keys = " | SPACE pause \u{b7} R replay \u{b7} S speed \u{b7} P particles \u{b7} B bounds";
    assert_eq!(
        worded(&status),
        format!(
            "Swell / reef break | 12.35s / 1.00x | 22078 particles | 16.7 ms (3.0 GPU solve + 2.9 \
             surface) | compression 1.9% | bulk 98% | peak 352{keys}"
        )
    );
    status.wave = false;
    status.on_device = false;
    status.paused = true;
    status.bulk = s(f32::NAN);
    assert_eq!(
        worded(&status),
        format!(
            "Fluids / dam break | 12.35s / 1.00x | 22078 particles | 16.7 ms (3.0 CPU solve + 2.9 \
             surface) | compression 1.9% | bulk n/a | peak 352 - PAUSED{keys}"
        )
    );
}

#[test]
fn opposite_keys_cancel() {
    let none =
        Held { forward: false, back: false, right: false, left: false, up: false, down: false };
    assert_eq!(heading(none), Heading { forward: 0, right: 0, up: 0 });
    assert_eq!(
        heading(Held { forward: true, left: true, down: true, ..none }),
        Heading { forward: 1, right: -1, up: -1 }
    );
    assert_eq!(
        heading(Held { forward: true, back: true, right: true, up: true, ..none }),
        Heading { forward: 0, right: 1, up: 1 }
    );
}

#[test]
fn the_view_stops_short_of_vertical() {
    assert_eq!(f(clamp_pitch(s(2.0), s(1.5))), 1.5);
    assert_eq!(f(clamp_pitch(s(-2.0), s(1.5))), -1.5);
    assert_eq!(f(clamp_pitch(s(0.3), s(1.5))), 0.3);
    assert!(settles(false, s(0.5), s(1.0)));
    assert!(!settles(true, s(0.5), s(1.0)));
    assert!(!settles(false, s(1.5), s(1.0)));
    assert!(turned(true, s(0.0), s(-2.0)));
    assert!(!turned(true, s(0.0), s(-0.0)));
    assert!(!turned(false, s(1.0), s(1.0)));
}

#[test]
fn speed_leaves_the_water_alone() {
    let run = |slow_from: usize| {
        let (mut p, mut water) = (playing(), vec![]);
        let mut elapsed = 0.0;
        for tick in 0..30 {
            let s_key = tick == slow_from;
            pressing(&mut p, Pressed { space: false, r: false, g: false, s: s_key });
            if let Some(length) = step_length(s(1.0 / 60.0), None) {
                elapsed += f(length);
                water.push(elapsed);
            }
        }
        (p.scale, water)
    };
    let (full, first) = run(99);
    for slow_from in [0, 7, 29] {
        let (slow, water) = run(slow_from);
        assert_ne!(slow, full);
        assert_eq!(water, first);
    }
    assert!((first[29] - 0.5f32).abs() < 1e-5);
}

fn standing() -> Rig {
    let still = Point { x: s(0.0), y: s(0.0), z: s(0.0) };
    Rig { yaw: s(0.7), pitch: s(-0.3), velocity: still }
}

fn drag(dx: f32, dy: f32, rig: &Rig) -> Drag {
    Drag {
        held: true,
        dx: s(dx),
        dy: s(dy),
        yaw: s(f(rig.yaw) - dx * 0.004),
        pitch: s(f(rig.pitch) - dy * 0.004),
    }
}

/// The velocity eased along one axis.
fn thrust(wanted: f32, rig: &Rig) -> Thrust {
    let eased = f(rig.velocity.x) + (wanted - f(rig.velocity.x)) * 0.15;
    Thrust {
        asked: wanted != 0.0,
        eased: Point { x: s(eased), ..standing().velocity },
        speed: s(eased.abs()),
        threshold: s(0.1),
    }
}

#[test]
fn the_camera_holds_still_and_comes_to_stand_still() {
    let mut rig = standing();
    for _ in 0..10 {
        let idle = Drag { held: false, ..drag(3.0, 0.0, &rig) };
        let dragged = look(&mut rig, idle, s(1.55));
        let still = thrust(0.0, &rig);
        assert!(!drift(&mut rig, dragged, still));
        assert_eq!(rig, standing());
    }
    for _ in 0..30 {
        let asked = thrust(100.0, &rig);
        assert!(drift(&mut rig, false, asked));
    }
    assert_eq!((rig.yaw, rig.pitch), (s(0.7), s(-0.3)));
    assert!(f(rig.velocity.x) > 90.0);
    let mut frames = 0;
    while rig.velocity != standing().velocity {
        let let_go = thrust(0.0, &rig);
        drift(&mut rig, false, let_go);
        frames += 1;
        assert!(frames < 120);
    }
    assert_eq!(rig, standing());
}

#[test]
fn a_drag_turns_and_stops_short_of_vertical() {
    let mut rig = standing();
    let right = drag(50.0, 0.0, &rig);
    assert!(look(&mut rig, right, s(1.55)));
    assert_eq!((f(rig.yaw), f(rig.pitch)), (0.7 - 50.0 * 0.004, -0.3));
    assert_eq!(rig.velocity, standing().velocity);
    let still = thrust(0.0, &rig);
    assert!(drift(&mut rig, true, still));
    for dy in [-300.0, -300.0, 5000.0, 9.0] {
        let up = drag(0.0, dy, &rig);
        look(&mut rig, up, s(1.55));
        assert!(f(rig.pitch).abs() <= 1.55);
    }
    assert_eq!(f(rig.pitch), -1.55);
}
