use fluids::grid::{cells_along, sides_fit, Grid};
use fluids::single::Single;

fn s(v: f32) -> Single {
    Single { bits: v.to_bits() }
}

fn scattered(n: usize, count: usize) -> Vec<usize> {
    let mut seed = 7u32;
    (0..n)
        .map(|_| {
            seed = seed.wrapping_mul(1664525).wrapping_add(1013904223);
            (seed >> 8) as usize % count
        })
        .collect()
}

#[test]
fn an_empty_grid_has_no_candidates() {
    let grid = Grid::new(2, 2, 1);
    assert!(grid.candidates(0, 0, 0).is_empty());
}

#[test]
fn every_particle_is_listed_once_in_its_own_cell() {
    let mut grid = Grid::new(5, 4, 3);
    let cells = scattered(500, 60);
    grid.rebuild(&cells);
    assert_eq!(grid.cell_start.len(), 61);
    assert_eq!(grid.cell_start[0], 0);
    assert_eq!(grid.cell_start[60], 500);
    let mut seen = vec![0; 500];
    for c in 0..60 {
        let (from, to) = (grid.cell_start[c] as usize, grid.cell_start[c + 1] as usize);
        let list = &grid.sorted[from..to];
        assert!(list.windows(2).all(|w| w[0] < w[1]), "cell {c} is out of order");
        for &j in list {
            assert_eq!(cells[j as usize], c);
            seen[j as usize] += 1;
        }
    }
    assert!(seen.iter().all(|&n| n == 1));

    // Fewer particles than before leave nothing of the old ones behind.
    grid.rebuild(&vec![59, 0, 59]);
    assert_eq!(grid.sorted, vec![1, 0, 2]);
    assert_eq!(grid.cell_start[59], 1);
}

#[test]
fn candidates_are_the_adjacent_cells() {
    let (cols, rows, layers) = (5usize, 4usize, 3usize);
    let mut grid = Grid::new(cols, rows, layers);
    let cells = scattered(300, cols * rows * layers);
    grid.rebuild(&cells);
    for z in 0..layers {
        for y in 0..rows {
            for x in 0..cols {
                let mut wanted: Vec<(usize, u32)> = cells
                    .iter()
                    .enumerate()
                    .filter(|(_, &c)| {
                        let (u, v, w) = (c % cols, c / cols % rows, c / cols / rows);
                        u.abs_diff(x) <= 1 && v.abs_diff(y) <= 1 && w.abs_diff(z) <= 1
                    })
                    .map(|(j, &c)| (c, j as u32))
                    .collect();
                wanted.sort();
                let wanted: Vec<u32> = wanted.into_iter().map(|(_, j)| j).collect();
                assert_eq!(grid.candidates(x, y, z), wanted, "around {x} {y} {z}");
            }
        }
    }
}

#[test]
fn points_outside_count_towards_the_edge() {
    let grid = Grid::new(5, 4, 3);
    assert_eq!(grid.cell_of(s(2.9), s(0.0), s(1.0)), (2, 0, 1));
    assert_eq!(grid.cell_of(s(-7.5), s(100.0), s(-0.5)), (0, 3, 0));
    assert_eq!(grid.cell_of(s(f32::NAN), s(f32::INFINITY), s(f32::NEG_INFINITY)), (0, 3, 0));
    assert_eq!(grid.number(2, 3, 1), (1 * 4 + 3) * 5 + 2);
}

#[test]
fn sides_cover_the_bounds_and_one_more() {
    assert_eq!(cells_along(s(20.0)), 21);
    assert_eq!(cells_along(s(20.001)), 22);
    assert_eq!(cells_along(s(0.0)), 1);
    assert!(sides_fit(21, 16, 21));
    assert!(!sides_fit(0, 16, 21));
    assert!(!sides_fit(100_000, 100_000, 1));
    assert!(!sides_fit(1, 100_000, 100_000));
}
