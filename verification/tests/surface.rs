use fluids::grid::{cells_along, Grid};
use fluids::single::Single;
use fluids::surface::{
    classify, facing, mesh, place, polygonize, samples_along, slice, Cut, Facet, Facing, ISO,
};
use std::collections::HashMap;

type Vec3 = [f32; 3];

fn s(v: f32) -> Single {
    Single { bits: v.to_bits() }
}

fn sub(a: Vec3, b: Vec3) -> Vec3 {
    [a[0] - b[0], a[1] - b[1], a[2] - b[2]]
}

fn plus(a: Vec3, b: Vec3) -> Vec3 {
    [a[0] + b[0], a[1] + b[1], a[2] + b[2]]
}

fn times(a: Vec3, k: f32) -> Vec3 {
    a.map(|v| v * k)
}

fn dot(a: Vec3, b: Vec3) -> f32 {
    a[0] * b[0] + a[1] * b[1] + a[2] * b[2]
}

fn cross(a: Vec3, b: Vec3) -> Vec3 {
    [a[1] * b[2] - a[2] * b[1], a[2] * b[0] - a[0] * b[2], a[0] * b[1] - a[1] * b[0]]
}

fn lerp(a: Vec3, b: Vec3, t: f32) -> Vec3 {
    plus(a, times(sub(b, a), t))
}

fn iso() -> f32 {
    f32::from_bits(ISO)
}

/// Every side of every facet belongs to exactly two of them.
fn closed(facets: &[Facet]) -> bool {
    let mut sides: HashMap<(usize, usize, usize, usize), usize> = HashMap::new();
    for facet in facets {
        for (a, b) in [(facet.a, facet.b), (facet.b, facet.c), (facet.c, facet.a)] {
            let order = |cut: Cut| (cut.from.min(cut.to), cut.from.max(cut.to));
            let (a, b) = (order(a).min(order(b)), order(a).max(order(b)));
            *sides.entry((a.0, a.1, b.0, b.1)).or_insert(0) += 1;
        }
    }
    sides.values().all(|&n| n == 2)
}

#[test]
fn reconstructed_water_is_closed_with_outward_normals() {
    let (min, max, spacing) = ([-200.0f32, -150.0, -200.0], [200.0f32, 150.0, 200.0], 10.0f32);
    let mut positions: Vec<Vec3> = vec![];
    for y in 0..6 {
        for z in 0..6 {
            for x in 0..6 {
                let stagger = if y % 2 == 0 { 0.0 } else { spacing * 0.5 };
                positions.push([
                    min[0] + spacing + x as f32 * spacing + stagger,
                    min[1] + spacing + y as f32 * spacing,
                    min[2] + spacing + z as f32 * spacing + stagger,
                ]);
            }
        }
    }
    let (radius, cell) = (spacing * 2.4, spacing * 1.0);
    let origin = min.map(|v| v - radius);
    let extent = [max[0] - min[0], max[1] - min[1], max[2] - min[2]];
    let along = |axis: usize| samples_along(s((extent[axis] + 2.0 * radius) / cell)) as usize;
    let (nx, ny, nz) = (along(0), along(1), along(2));
    let mut reference = 0.0f32;
    for z in -3..=3 {
        for y in -3..=3 {
            for x in -3..=3 {
                let r2 = ((x * x + y * y + z * z) as f32) * spacing * spacing;
                reference += (1.0 - r2 / (radius * radius)).max(0.0).powi(3);
            }
        }
    }
    let sides = extent.map(|v| cells_along(s(v / radius)) as usize);
    let mut grid = Grid::new(sides[0], sides[1], sides[2]);
    let cell_of = |grid: &Grid, p: Vec3| {
        let local = times(sub(p, min), 1.0 / radius);
        grid.cell_of(s(local[0]), s(local[1]), s(local[2]))
    };
    let cells = positions
        .iter()
        .map(|&p| {
            let (x, y, z) = cell_of(&grid, p);
            grid.number(x, y, z)
        })
        .collect();
    grid.rebuild(&cells);

    let at = |i: usize| {
        let (x, y, z) = place(nx, ny, i);
        plus(origin, times([x as f32, y as f32, z as f32], cell))
    };
    let (mut densities, mut gradients) = (vec![], vec![]);
    for i in 0..nx * ny * nz {
        let p = at(i);
        let (x, y, z) = cell_of(&grid, p);
        let (mut density, mut gradient) = (0.0f32, [0.0f32; 3]);
        for j in grid.candidates(x, y, z) {
            let r = sub(p, positions[j as usize]);
            let q = 1.0 - dot(r, r) / (radius * radius);
            if q > 0.0 {
                density += q * q * q;
                gradient = plus(gradient, times(r, q * q));
            }
        }
        densities.push(density / reference);
        gradients.push(gradient);
    }
    let facets = mesh(nx, ny, nz, &classify(&densities.iter().map(|&d| s(d)).collect()));
    assert!(closed(&facets));

    let (mut corners, mut normals): (Vec<Vec3>, Vec<Vec3>) = (vec![], vec![]);
    for facet in &facets {
        let vertex = |cut: Cut| {
            let (a, b) = (cut.from, cut.to);
            let t = ((iso() - densities[a]) / (densities[b] - densities[a])).clamp(0.0, 1.0);
            (lerp(at(a), at(b), t), lerp(gradients[a], gradients[b], t))
        };
        let (a, mut b, mut c) = (vertex(facet.a), vertex(facet.b), vertex(facet.c));
        let face = cross(sub(b.0, a.0), sub(c.0, a.0));
        match facing(s(dot(face, face)), s(dot(face, plus(plus(a.1, b.1), c.1)))) {
            Facing::Dropped => continue,
            Facing::Swapped => std::mem::swap(&mut b, &mut c),
            Facing::Kept => {}
        }
        for (p, n) in [a, b, c] {
            corners.push(p);
            normals.push(times(n, 1.0 / dot(n, n).sqrt()));
        }
    }
    assert!(corners.len() > 100);
    let mut volume = 0.0;
    let mut edges = HashMap::new();
    let key = |p: Vec3| p.map(|v| (v * 100.0).round() as i32);
    for (p, n) in corners.chunks_exact(3).zip(normals.chunks_exact(3)) {
        let [a, b, c] = [p[0], p[1], p[2]];
        assert!(dot(cross(sub(b, a), sub(c, a)), plus(plus(n[0], n[1]), n[2])) > 0.0);
        volume += dot(a, cross(b, c)) / 6.0;
        for (a, b) in [(p[0], p[1]), (p[1], p[2]), (p[2], p[0])] {
            let (a, b) = (key(a), key(b));
            if a != b {
                *edges.entry(if a < b { (a, b) } else { (b, a) }).or_insert(0) += 1;
            }
        }
    }
    assert!(
        edges.values().all(|&count| count == 2),
        "surface has cracks or overlapping faces"
    );
    let expected = positions.len() as f32 * spacing.powi(3);
    assert!(
        (0.65..1.15).contains(&(volume / expected)),
        "reconstruction lost volume: {}",
        volume / expected
    );
    assert!(normals.iter().all(|&n| (dot(n, n).sqrt() - 1.0).abs() < 1e-4));
}

#[test]
fn any_water_inside_the_volume_has_a_closed_surface() {
    let (nx, ny, nz) = (7usize, 6usize, 5usize);
    let mut seed = 1u32;
    for _ in 0..40 {
        let wet: Vec<bool> = (0..nx * ny * nz)
            .map(|i| {
                seed = seed.wrapping_mul(1664525).wrapping_add(1013904223);
                let (x, y, z) = place(nx, ny, i);
                let inside = x > 0 && y > 0 && z > 0 && x < nx - 1 && y < ny - 1 && z < nz - 1;
                inside && seed >> 31 == 0
            })
            .collect();
        let facets = mesh(nx, ny, nz, &wet);
        assert!(closed(&facets));
        for facet in &facets {
            for cut in [facet.a, facet.b, facet.c] {
                assert_ne!(wet[cut.from], wet[cut.to]);
            }
        }
        let mut slices = vec![];
        for z in 0..nz - 1 {
            slices.extend(slice(nx, ny, nz, &wet, z));
        }
        assert_eq!(facets, slices);
    }
    // Water that reaches the volume's border leaves it open.
    assert!(!closed(&mesh(2, 2, 2, &vec![true, false, false, false, false, false, false, false])));
    assert!(mesh(3, 3, 3, &vec![true; 27]).is_empty());
    assert!(mesh(3, 3, 3, &vec![false; 27]).is_empty());
}

#[test]
fn a_drop_has_the_facets_of_its_corner() {
    // One wet sample in the middle: 24 tetrahedra meet there.
    let mut wet = vec![false; 27];
    wet[13] = true;
    let facets = mesh(3, 3, 3, &wet);
    assert_eq!(facets.len(), 24);
    assert!(facets.iter().all(|f| f.a.from == 13 && f.b.from == 13 && f.c.from == 13));
}

#[test]
fn tetrahedra_are_crossed_by_one_or_two_facets() {
    let cut = |from, to| Cut { from, to };
    let corners = [10, 20, 30, 40];
    let of = |wet: [bool; 4]| {
        let mut out = vec![];
        polygonize(corners, wet, &mut out);
        out
    };
    assert!(of([false; 4]).is_empty());
    assert!(of([true; 4]).is_empty());
    assert_eq!(
        of([false, true, false, false]),
        vec![Facet { a: cut(20, 10), b: cut(20, 30), c: cut(20, 40) }]
    );
    assert_eq!(
        of([true, true, false, true]),
        vec![Facet { a: cut(30, 10), b: cut(30, 20), c: cut(30, 40) }]
    );
    assert_eq!(
        of([true, false, false, true]),
        vec![
            Facet { a: cut(10, 20), b: cut(10, 30), c: cut(40, 20) },
            Facet { a: cut(10, 30), b: cut(40, 30), c: cut(40, 20) },
        ]
    );
}

#[test]
fn samples_are_numbered_along_x_first() {
    assert_eq!(place(7, 6, 0), (0, 0, 0));
    assert_eq!(place(7, 6, 6), (6, 0, 0));
    assert_eq!(place(7, 6, 7), (0, 1, 0));
    assert_eq!(place(7, 6, 42), (0, 0, 1));
    assert_eq!(samples_along(s(44.8)), 46);
    assert_eq!(samples_along(s(45.0)), 46);
    assert_eq!(iso(), 0.45);
    assert_eq!(
        classify(&vec![s(0.45), s(0.449999), s(f32::NAN), s(1.0)]),
        vec![true, false, false, true]
    );
    assert_eq!(facing(s(0.9e-10), s(1.0)), Facing::Dropped);
    assert_eq!(facing(s(1.0e-10), s(1.0)), Facing::Kept);
    assert_eq!(facing(s(1.0), s(-1.0)), Facing::Swapped);
    assert_eq!(facing(s(1.0), s(-0.0)), Facing::Kept);
}
