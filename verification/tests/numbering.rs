use fluids::gpu::{bytes_of, Buffer, Command};
use fluids::gpu_fluid::GpuFluid;
use fluids::grid::Grid;
use fluids::numbering::{identity, restore};
use fluids::sim::{Bounds, Fluid, FluidParams};
use fluids::single::{Point, Single};
use fluids::transfer::{first_quad, first_word, numbers, pack, take_apart, unpack, words_of};

fn point(k: usize) -> Point {
    let v = |part: usize| Single { bits: (100 * part + k) as u32 };
    Point { x: v(1), y: v(2), z: v(3) }
}

fn empty_fluid() -> Fluid {
    let s = |v: f32| Single { bits: v.to_bits() };
    let p = |v: f32| Point { x: s(v), y: s(v), z: s(v) };
    let params = FluidParams {
        smoothing_radius: s(20.0),
        spacing: s(10.0),
        iterations: 2,
        substeps: 1,
        relaxation: s(0.05),
        viscosity: s(0.08),
        tensile_k: s(0.04),
        tensile_q: s(0.2),
        tensile_n: 4,
        clamp_constraint: false,
        gravity: p(0.0),
        jacobi_relax: s(0.5),
        wall_friction: s(0.98),
        bounds: Bounds { min: p(-20.0), max: p(20.0) },
    };
    Fluid::new(params, 3, 3, 3)
}

/// Slots in the order of a grid's cells.
fn shuffled(ids: &[u32], round: usize) -> Vec<u32> {
    let mut grid = Grid::new(4, 3, 2);
    let cells: Vec<usize> = (0..ids.len()).map(|k| (k * (7 + round) + round) % 24).collect();
    grid.rebuild(&cells);
    grid.sorted.iter().map(|&slot| ids[slot as usize]).collect()
}

#[test]
fn renumbered_values_come_back_in_their_own_order() {
    let mut ids = identity(100);
    assert_eq!(restore(&ids, &ids.clone(), 0), ids);
    for round in 0..5 {
        ids = shuffled(&ids, round);
        let values: Vec<u32> = ids.iter().map(|&id| 1000 + id).collect();
        let back = restore(&ids, &values, 0);
        assert_eq!(back, (1000..1100).collect::<Vec<u32>>());
    }
}

#[test]
fn a_value_that_no_slot_names_is_blank() {
    assert_eq!(restore(&vec![1, 1, 2], &vec![7, 8, 9], 0), vec![0, 8, 9]);
}

#[test]
fn points_are_packed_in_fours() {
    let points: Vec<Point> = (0..3).map(point).collect();
    let words = pack(&points);
    assert_eq!(words, vec![100, 200, 300, 0, 101, 201, 301, 0, 102, 202, 302, 0]);
    assert_eq!(unpack(&words, 0, 3), points);
    assert_eq!(unpack(&words, 4, 2), points[1..]);
    assert_eq!(words_of(&numbers(&words, 1, 2)), vec![200, 300]);
}

#[test]
fn a_readback_is_taken_apart() {
    let n = 50;
    let ids = shuffled(&identity(n as u32), 3);
    let of = |at: usize| ids.iter().map(|&id| point(at + id as usize)).collect::<Vec<Point>>();
    let mut words = vec![];
    for at in [0, 1000, 2000] {
        words.extend(pack(&of(at)));
    }
    words.extend(ids.iter().map(|&id| 5000 + id));
    words.extend(ids.iter().map(|&id| 6000 + id));
    words.extend(&ids);
    let particles = take_apart(&words, n).expect("the ids are in range");
    for k in 0..n {
        assert_eq!(particles.pos[k], point(k));
        assert_eq!(particles.previous[k], point(1000 + k));
        assert_eq!(particles.vel[k], point(2000 + k));
        assert_eq!(particles.foam[k].bits, 5000 + k as u32);
        assert_eq!(particles.spray[k].bits, 6000 + k as u32);
    }
    *words.last_mut().unwrap() = n as u32;
    assert!(take_apart(&words, n).is_none());
}

#[test]
fn a_download_gives_back_what_was_uploaded() {
    let mut fluid = empty_fluid();
    fluid.fill_block([4, 3, 5]);
    let n = fluid.len();
    let (solver, _) = GpuFluid::new(&fluid, 32, 16);
    let points = |at: usize| (0..n).map(|k| point(at + k)).collect::<Vec<Point>>();
    let values = |at: u32| {
        (0..n as u32).map(|k| Single { bits: at + k }).collect::<Vec<Single>>()
    };
    // The buffers as they are uploaded, then as two renumberings leave them.
    let mut ids = identity(n as u32);
    for round in 0..3 {
        let slots = |p: Vec<Point>| ids.iter().map(|&i| p[i as usize]).collect::<Vec<Point>>();
        let parts = |v: Vec<Single>| ids.iter().map(|&i| v[i as usize]).collect::<Vec<Single>>();
        let contents = |buffer: Buffer| match buffer {
            Buffer::Positions => pack(&slots(points(0))),
            Buffer::Previous => pack(&slots(points(1000))),
            Buffer::Velocities => pack(&slots(points(2000))),
            Buffer::Foam => words_of(&parts(values(5000))),
            Buffer::Spray => words_of(&parts(values(6000))),
            Buffer::Ids => ids.clone(),
            _ => panic!("nothing else is read back"),
        };
        let mut words = vec![77; 15 * n];
        for command in solver.download() {
            if let Command::Copy { from, at: 0, to: Buffer::Readback, to_at, bytes } = command {
                let (at, count) = (to_at as usize / 4, bytes.unwrap() as usize / 4);
                words[at..at + count].copy_from_slice(&contents(from)[..count]);
            }
        }
        let out = take_apart(&words, n).expect("the ids are in range");
        assert_eq!((out.pos, out.previous, out.vel), (points(0), points(1000), points(2000)));
        assert_eq!((out.foam, out.spray), (values(5000), values(6000)));
        ids = shuffled(&ids, round);
    }
}

#[test]
fn single_values_are_read_from_the_front() {
    assert_eq!(first_word(&[]), None);
    assert_eq!(first_word(&bytes_of(&vec![41, 42])), Some(41));
    assert_eq!(first_quad(&bytes_of(&vec![1, 2, 3])), None);
    let quad = first_quad(&bytes_of(&vec![1, 2, 3, 4, 5])).unwrap();
    assert_eq!((quad.x.bits, quad.y.bits, quad.z.bits, quad.w.bits), (1, 2, 3, 4));
}
