use fluids::grid::Grid;
use fluids::scan::{levels, Level};
use fluids::surface::mesh;

/// What a device does with a level: one invocation for each pair.
fn run_level(a: &mut [u32], level: Level) {
    let s = level.stride as usize;
    for p in 0..level.count as usize {
        let (i, j) = ((2 * p + 1) * s - 1, (2 * p + 2) * s - 1);
        if level.down == 0 {
            a[j] += a[i];
        } else {
            let right = if level.stride == level.top { 0 } else { a[j] };
            a[j] = right + a[i];
            a[i] = right;
        }
    }
}

#[test]
fn the_schedule_goes_up_and_down() {
    let level = |stride, count, down| Level { stride, count, top: 4, down };
    assert_eq!(
        levels(8, true),
        vec![
            level(1, 4, 0),
            level(2, 2, 0),
            level(4, 1, 0),
            level(4, 1, 1),
            level(2, 2, 1),
            level(1, 4, 1),
        ]
    );
    assert_eq!(levels(8, false).len(), 3);
    assert!(levels(1, true).is_empty());
    assert_eq!(levels(0x8000_0000, true).len(), 62);
}

#[test]
fn a_scan_leaves_the_sum_of_what_came_before() {
    for k in 1..9u32 {
        let size = 1u32 << k;
        let start: Vec<u32> = (0..size).map(|i| i * i % 13).collect();
        let mut a = start.clone();
        for level in levels(size, true) {
            run_level(&mut a, level);
        }
        let mut sum = 0;
        for i in 0..size as usize {
            assert_eq!(a[i], sum, "entry {i} of {size}");
            sum += start[i];
        }
    }
}

#[test]
fn a_reduction_leaves_the_total_at_the_end() {
    for k in 0..9u32 {
        let size = 1u32 << k;
        let mut a: Vec<u32> = (0..size).map(|i| i + 1).collect();
        for level in levels(size, false) {
            run_level(&mut a, level);
        }
        assert_eq!(a[size as usize - 1], size * (size + 1) / 2);
    }
}

#[test]
fn the_device_grid_is_the_hosts() {
    let mut grid = Grid::new(6, 5, 4);
    let mut seed = 99u32;
    let cells: Vec<usize> = (0..777)
        .map(|_| {
            seed = seed.wrapping_mul(1664525).wrapping_add(1013904223);
            (seed >> 8) as usize % 120
        })
        .collect();
    grid.rebuild(&cells);
    let mut starts = vec![0u32; 128];
    for &c in &cells {
        starts[c] += 1;
    }
    for level in levels(128, true) {
        run_level(&mut starts, level);
    }
    assert_eq!(&starts[..121], &grid.cell_start[..]);
    // Scattered backwards, then sorted cell by cell.
    let mut cursor = starts.clone();
    let mut sorted = vec![0u32; cells.len()];
    for (j, &c) in cells.iter().enumerate().rev() {
        sorted[cursor[c] as usize] = j as u32;
        cursor[c] += 1;
    }
    for c in 0..120 {
        sorted[starts[c] as usize..starts[c + 1] as usize].sort();
    }
    assert_eq!(sorted, grid.sorted);
}

#[test]
fn a_surface_total_is_the_hosts_facets() {
    let (nx, ny, nz) = (6usize, 5usize, 4usize);
    let mut seed = 5u32;
    let wet: Vec<bool> = (0..nx * ny * nz)
        .map(|_| {
            seed = seed.wrapping_mul(1664525).wrapping_add(1013904223);
            seed >> 30 == 0
        })
        .collect();
    // Each cube on its own, then the device's sum.
    let mut made = vec![0u32; 64];
    for z in 0..nz - 1 {
        for y in 0..ny - 1 {
            for x in 0..nx - 1 {
                let corners = (0..8)
                    .map(|k| {
                        let (i, j, l) = (x + k % 2, y + k / 2 % 2, z + k / 4);
                        wet[i + nx * (j + ny * l)]
                    })
                    .collect();
                made[(z * (ny - 1) + y) * (nx - 1) + x] = mesh(2, 2, 2, &corners).len() as u32;
            }
        }
    }
    for level in levels(64, true) {
        run_level(&mut made, level);
    }
    let facets = mesh(nx, ny, nz, &wet).len();
    assert!(facets > 100);
    assert_eq!(made[(nx - 1) * (ny - 1) * (nz - 1)] as usize, facets);
}
