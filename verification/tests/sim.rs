use fluids::sim::{confine, feels_impulse, max_speed, Bounds, Fluid, FluidParams, Site};
use fluids::single::{Point, Single};

fn s(v: f32) -> Single {
    Single { bits: v.to_bits() }
}

fn f(v: Single) -> f32 {
    f32::from_bits(v.bits)
}

fn point(p: [f32; 3]) -> Point {
    Point { x: s(p[0]), y: s(p[1]), z: s(p[2]) }
}

/// The default tunables, in a box 400 by 300 by 400.
fn params() -> FluidParams {
    FluidParams {
        smoothing_radius: s(20.0),
        spacing: s(10.0),
        iterations: 8,
        substeps: 1,
        relaxation: s(0.05),
        viscosity: s(0.08),
        tensile_k: s(0.04),
        tensile_q: s(0.2),
        tensile_n: 4,
        clamp_constraint: false,
        gravity: point([0.0, -1400.0, 0.0]),
        jacobi_relax: s(0.5),
        wall_friction: s(0.98),
        bounds: Bounds {
            min: point([-200.0, -150.0, -200.0]),
            max: point([200.0, 150.0, 200.0]),
        },
    }
}

fn placed(site: &Site) -> [f32; 3] {
    let stagger = if site.staggered { 5.0 } else { 0.0 };
    [
        -190.0 + site.col as f32 * 10.0 + stagger,
        -140.0 + site.row as f32 * 10.0,
        -190.0 + site.layer as f32 * 10.0 + stagger,
    ]
}

fn distance2(a: [f32; 3], b: [f32; 3]) -> f32 {
    let d = [a[0] - b[0], a[1] - b[1], a[2] - b[2]];
    d[0] * d[0] + d[1] * d[1] + d[2] * d[2]
}

fn locals(positions: &[[f32; 3]]) -> Vec<Point> {
    positions
        .iter()
        .map(|p| point([(p[0] + 200.0) / 20.0, (p[1] + 150.0) / 20.0, (p[2] + 200.0) / 20.0]))
        .collect()
}

#[test]
fn a_block_fills_x_then_z_then_y() {
    let mut fluid = Fluid::new(params(), 21, 16, 21);
    assert_eq!(fluid.len(), 0);
    let sites = fluid.fill_block([2, 2, 3]).sites;
    assert_eq!(fluid.len(), 12);
    let site = |col, row, layer| Site { col, row, layer, staggered: row % 2 == 1 };
    assert_eq!(sites[0], site(0, 0, 0));
    assert_eq!(sites[1], site(1, 0, 0));
    assert_eq!(sites[2], site(0, 0, 1));
    assert_eq!(sites[5], site(1, 0, 2));
    assert_eq!(sites[6], site(0, 1, 0));
    assert_eq!(sites[11], site(1, 1, 2));
    assert!(fluid.fill_block([4, 0, 3]).sites.is_empty());
    assert_eq!(fluid.len(), 0);
}

#[test]
fn filling_bumps_the_generation_and_drops_the_lists() {
    let mut fluid = Fluid::new(params(), 21, 16, 21);
    let sites = fluid.fill_block([6, 6, 6]).sites;
    assert_eq!(fluid.generation, 1);
    assert!(!fluid.measurable());
    let positions: Vec<[f32; 3]> = sites.iter().map(placed).collect();
    fluid.build_neighbors(&locals(&positions), s(400.0), |i, j| {
        s(distance2(positions[i], positions[j]))
    });
    assert!(fluid.measurable());
    fluid.fill_block([6, 6, 6]);
    assert_eq!(fluid.generation, 2);
    assert!(!fluid.measurable());
}

#[test]
fn a_wave_tank_keeps_the_wet_sites() {
    let mut fluid = Fluid::new(params(), 21, 16, 21);
    let sites = fluid.fill_wave([3, 4, 2], |site| site.row < 2 && site.col > 0).sites;
    assert_eq!(sites.len(), 8);
    assert_eq!(fluid.len(), 8);
    assert!(sites.iter().all(|site| site.row < 2 && site.col > 0));
    assert_eq!(sites[0].col, 1);
}

#[test]
fn every_wet_site_is_filled_once() {
    let mut fluid = Fluid::new(params(), 21, 16, 21);
    let under = |site: Site| (site.col * site.layer + site.row) % 3 == 0;
    let sites = fluid.fill_wave([6, 5, 4], under).sites;
    let mut wanted = 0;
    for row in 0..5 {
        for layer in 0..4 {
            for col in 0..6 {
                let here = sites
                    .iter()
                    .filter(|site| (site.col, site.row, site.layer) == (col, row, layer))
                    .count();
                let wet = (col * layer + row) % 3 == 0;
                assert_eq!(here, wet as usize, "{col} {row} {layer}");
                wanted += here;
            }
        }
    }
    assert_eq!(sites.len(), wanted);
}

#[test]
fn the_largest_block_keeps_half_a_spacing_from_the_walls() {
    // 400 / 10 - 1 along the staggered axes, 300 / 10 - 0.5 up.
    let block = [39, 29, 39];
    let mut fluid = Fluid::new(params(), 21, 16, 21);
    for site in fluid.fill_block(block).sites {
        let p = placed(&site);
        assert!(p[0] <= 195.0 && p[1] <= 145.0 && p[2] <= 195.0, "{p:?}");
        assert!(p[0] >= -195.0 && p[1] >= -145.0 && p[2] >= -195.0, "{p:?}");
    }
    let over: Vec<Site> = fluid.fill_block([40, 29, 39]).sites;
    assert!(over.iter().any(|site| placed(site)[0] > 195.0));
}

#[test]
fn neighbours_are_all_that_are_near() {
    let mut fluid = Fluid::new(params(), 21, 16, 21);
    let sites = fluid.fill_block([7, 6, 5]).sites;
    let mut seed = 3u32;
    let positions: Vec<[f32; 3]> = sites
        .iter()
        .map(|site| {
            let mut p = placed(site);
            for v in &mut p {
                seed = seed.wrapping_mul(1664525).wrapping_add(1013904223);
                *v += (seed >> 16) as f32 / 4096.0;
            }
            p
        })
        .collect();
    fluid.build_neighbors(&locals(&positions), s(400.0), |i, j| {
        s(distance2(positions[i], positions[j]))
    });
    let mut pairs = 0;
    for i in 0..positions.len() {
        let mut found: Vec<u32> = fluid.neighbors_of(i).to_vec();
        found.sort();
        let wanted: Vec<u32> = (0..positions.len() as u32)
            .filter(|&j| j as usize != i && distance2(positions[i], positions[j as usize]) < 400.0)
            .collect();
        assert_eq!(found, wanted, "particle {i}");
        for &j in &found {
            assert!(fluid.neighbors_of(j as usize).contains(&(i as u32)), "{i} and {j}");
        }
        pairs += found.len();
    }
    assert_eq!(fluid.neighbor_start[positions.len()], pairs);
    assert_eq!(fluid.neighbors.len(), pairs);
}

#[test]
fn a_step_needs_water_and_time() {
    let mut fluid = Fluid::new(params(), 21, 16, 21);
    assert_eq!(fluid.substeps(s(1.0 / 60.0)), None);
    fluid.fill_block([2, 2, 2]);
    assert_eq!(fluid.substeps(s(0.0)), None);
    assert_eq!(fluid.substeps(s(-1.0)), None);
    assert_eq!(fluid.substeps(s(1.0 / 60.0)), Some(1));
    fluid.params.substeps = 0;
    assert_eq!(fluid.substeps(s(1.0 / 60.0)), Some(1));
    fluid.params.substeps = 3;
    assert_eq!(fluid.substeps(s(1.0 / 60.0)), Some(3));
}

#[test]
fn walls_hold_and_hold_again() {
    let (min, max) = (point([-195.0, -145.0, -195.0]), point([195.0, 145.0, 195.0]));
    let held = confine(point([-300.0, 10.0, 196.0]), min, max);
    assert_eq!(held.point, point([-195.0, 10.0, 195.0]));
    assert!(held.hit_x && !held.hit_y && held.hit_z);
    for p in [[1.0e30, -1.0e30, 0.0], [195.0, 145.0, -195.0], [f32::INFINITY, 3.0, 4.0]] {
        let inside = confine(point(p), min, max).point;
        assert!(f(inside.x).abs() <= 195.0 && f(inside.y).abs() <= 145.0);
        assert!(f(inside.z).abs() <= 195.0);
    }
    let again = confine(held.point, min, max);
    assert_eq!(again.point, held.point);
    assert!(!again.hit_x && !again.hit_y && !again.hit_z);
}

#[test]
fn the_fastest_speed_ignores_what_is_not_a_number() {
    assert_eq!(f(max_speed(&vec![])), 0.0);
    assert_eq!(f(max_speed(&vec![s(3.0), s(f32::NAN), s(7.5), s(2.0)])), 7.5);
    assert_eq!(f(max_speed(&vec![s(f32::NAN)])), 0.0);
}

#[test]
fn radial_impulse_pushes_out_and_pulls_in() {
    let mut fluid = Fluid::new(params(), 21, 16, 21);
    let pos: Vec<[f32; 3]> = fluid.fill_block([24, 26, 24]).sites.iter().map(placed).collect();
    let mut vel = vec![[0.0f32; 3]; pos.len()];
    let center = pos[pos.len() / 2];
    let apply = |vel: &mut Vec<[f32; 3]>, radius: f32, strength: f32| {
        let r2 = radius * radius;
        for (p, v) in pos.iter().zip(vel.iter_mut()) {
            let d2 = distance2(*p, center);
            if feels_impulse(s(d2), s(r2)) {
                let push = strength * (1.0 - d2 / r2) / d2.sqrt();
                for axis in 0..3 {
                    v[axis] += (p[axis] - center[axis]) * push;
                }
            }
        }
    };

    // A particle offset from the centre should be pushed directly away.
    let probe = pos
        .iter()
        .position(|p| {
            let d = distance2(*p, center).sqrt();
            d > 20.0 && d < 60.0
        })
        .expect("no particle in the probe annulus");
    let offset: Vec<f32> = (0..3).map(|axis| pos[probe][axis] - center[axis]).collect();
    apply(&mut vel, 130.0, 100.0);
    let pushed = vel[probe];
    let along: f32 = (0..3).map(|axis| pushed[axis] * offset[axis]).sum();
    assert!(along > 0.0, "push sent the particle inwards: {pushed:?} against offset {offset:?}");

    // The same impulse negated should cancel it exactly.
    apply(&mut vel, 130.0, -100.0);
    assert!(
        distance2(vel[probe], [0.0; 3]).sqrt() < 1e-3,
        "pull did not cancel the push: {:?}",
        vel[probe]
    );

    // Nothing beyond the radius should have been touched, nor the centre itself.
    let far = pos
        .iter()
        .position(|p| distance2(*p, center).sqrt() > 200.0)
        .expect("no particle outside the radius");
    assert_eq!(vel[far], [0.0; 3]);
    assert_eq!(vel[pos.len() / 2], [0.0; 3]);
    assert!(!feels_impulse(s(1.0e-7), s(1.0)));
    assert!(!feels_impulse(s(1.0), s(1.0)));
    assert!(feels_impulse(s(0.5), s(1.0)));
}

#[test]
fn a_refill_repeats_itself() {
    let mut fluid = Fluid::new(params(), 21, 16, 21);
    let under = |site: Site| (site.col + 3 * site.row + site.layer) % 4 != 0;
    let first = fluid.fill_wave([9, 8, 7], under);
    fluid.fill_block([3, 3, 3]);
    assert_eq!(fluid.fill_wave([9, 8, 7], under), first);
    assert!(first.sites.iter().all(|&site| under(site)));
    assert_eq!(first.sites.len(), fluid.len());
    assert!(first.vel.iter().all(|v| *v == point([0.0, 0.0, 0.0])));
    assert!(first.foam.iter().chain(&first.spray).all(|v| v.bits == 0));
    assert_eq!((first.vel.len(), first.foam.len()), (first.sites.len(), first.sites.len()));
    assert_eq!((first.spray.len(), first.elapsed.bits), (first.sites.len(), 0));
    assert_eq!(fluid.fill_block([9, 8, 7]), fluid.fill_block([9, 8, 7]));
}

#[test]
fn gravity_changes_alone() {
    let mut fluid = Fluid::new(params(), 21, 16, 21);
    fluid.fill_block([2, 2, 2]);
    fluid.set_gravity(point([0.0, 1400.0, 0.0]));
    let mut wanted = params();
    wanted.gravity = point([0.0, 1400.0, 0.0]);
    assert_eq!(fluid.params, wanted);
    assert_eq!((fluid.len(), fluid.generation), (8, 1));
}
