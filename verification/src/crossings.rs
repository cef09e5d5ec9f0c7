//! Where the surface runs: between the samples in the water and those out of it,
//! everywhere between them, and nowhere else.
use vstd::prelude::*;
use crate::closed::{lemma_facet_in_mesh, lemma_tet_samples, point, sample_at};
use crate::surface::{
    cube_facets, facets, mesh_facets, picked, row_facets, slice_facets, tet, tet_facets,
    tet_samples, wet_at,
};
use crate::surface::{volume, Cut, Facet};

verus! {

/// One of a facet's corners crosses the edge between two samples, from whichever
/// end it is measured.
pub open spec fn cuts(facet: Facet, p: usize, q: usize) -> bool {
    ||| facet.a == (Cut { from: p, to: q })
    ||| facet.a == (Cut { from: q, to: p })
    ||| facet.b == (Cut { from: p, to: q })
    ||| facet.b == (Cut { from: q, to: p })
    ||| facet.c == (Cut { from: p, to: q })
    ||| facet.c == (Cut { from: q, to: p })
}

/// A crossing joins a sample in the water with one out of it.
pub open spec fn crosses(wet: Seq<bool>, c: Cut) -> bool {
    c.from < wet.len() && c.to < wet.len() && wet[c.from as int] != wet[c.to as int]
}

/// One if it holds.
pub open spec fn one_if(b: bool) -> int {
    if b {
        1
    } else {
        0
    }
}

/// A tetrahedron with one corner on its own side of the surface has one facet, one
/// with two on either side two, and one with all corners on one side none.
pub proof fn lemma_facet_counts(corners: Seq<usize>, wet: Seq<bool>)
    requires
        corners.len() == 4,
        wet.len() == 4,
    ensures
        ({
            let inside = one_if(wet[0]) + one_if(wet[1]) + one_if(wet[2]) + one_if(wet[3]);
            facets(corners, wet).len() == if inside == 0 || inside == 4 {
                0int
            } else if inside == 2 {
                2int
            } else {
                1int
            }
        }),
{
    reveal_with_fuel(picked, 5);
}

/// A crossing of a tetrahedron's edge.
spec fn edge_crossed(corners: Seq<usize>, wet: Seq<bool>, c: Cut) -> bool {
    exists|i: int, j: int|
        0 <= i < 4 && 0 <= j < 4 && wet[i] != wet[j] && c.from == #[trigger] corners[i] && c.to
            == #[trigger] corners[j]
}

/// A tetrahedron's facets have their corners on its crossed edges.
#[verifier::spinoff_prover]
#[verifier::rlimit(60)]
proof fn lemma_tet_crossed(corners: Seq<usize>, wet: Seq<bool>, m: int)
    requires
        corners.len() == 4,
        wet.len() == 4,
        0 <= m < facets(corners, wet).len(),
    ensures
        edge_crossed(corners, wet, facets(corners, wet)[m].a),
        edge_crossed(corners, wet, facets(corners, wet)[m].b),
        edge_crossed(corners, wet, facets(corners, wet)[m].c),
{
    reveal_with_fuel(picked, 5);
    let f = facets(corners, wet)[m];
    assert(m == 0 || m == 1);
    let (p, q, r, s) = (corners[0], corners[1], corners[2], corners[3]);
    if wet[0] {
        if wet[1] {
            if wet[2] {} else {}
        } else {
            if wet[2] {} else {}
        }
    } else {
        if wet[1] {
            if wet[2] {} else {}
        } else {
            if wet[2] {} else {}
        }
    }
}

/// Every crossed edge of a tetrahedron has a facet's corner on it.
#[verifier::spinoff_prover]
#[verifier::rlimit(60)]
proof fn lemma_tet_cut(corners: Seq<usize>, wet: Seq<bool>, p: int, q: int) -> (m: int)
    requires
        corners.len() == 4,
        wet.len() == 4,
        0 <= p < 4,
        0 <= q < 4,
        wet[p] != wet[q],
    ensures
        0 <= m < facets(corners, wet).len(),
        cuts(facets(corners, wet)[m], corners[p], corners[q]),
{
    reveal_with_fuel(picked, 5);
    let f = facets(corners, wet);
    assert(p == 0 || p == 1 || p == 2 || p == 3);
    assert(q == 0 || q == 1 || q == 2 || q == 3);
    if wet[0] {
        if wet[1] {
            if wet[2] {} else {}
        } else {
            if wet[2] {} else {}
        }
    } else {
        if wet[1] {
            if wet[2] {} else {}
        } else {
            if wet[2] {} else {}
        }
    }
    if cuts(f[0], corners[p], corners[q]) {
        0
    } else {
        1
    }
}

proof fn lemma_cube_has(
    nx: int,
    ny: int,
    wet: Seq<bool>,
    x: int,
    y: int,
    z: int,
    n: int,
    t: int,
    m: int,
) -> (i: int)
    requires
        0 <= t < n,
        0 <= m < tet_facets(nx, ny, wet, x, y, z, t).len(),
    ensures
        0 <= i < cube_facets(nx, ny, wet, x, y, z, n).len(),
        cube_facets(nx, ny, wet, x, y, z, n)[i] == tet_facets(nx, ny, wet, x, y, z, t)[m],
    decreases n,
{
    let before = cube_facets(nx, ny, wet, x, y, z, n - 1);
    if t < n - 1 {
        lemma_cube_has(nx, ny, wet, x, y, z, n - 1, t, m)
    } else {
        before.len() as int + m
    }
}

proof fn lemma_row_has(
    nx: int,
    ny: int,
    wet: Seq<bool>,
    y: int,
    z: int,
    n: int,
    x: int,
    t: int,
    m: int,
) -> (i: int)
    requires
        0 <= x < n,
        0 <= t < 6,
        0 <= m < tet_facets(nx, ny, wet, x, y, z, t).len(),
    ensures
        0 <= i < row_facets(nx, ny, wet, y, z, n).len(),
        row_facets(nx, ny, wet, y, z, n)[i] == tet_facets(nx, ny, wet, x, y, z, t)[m],
    decreases n,
{
    let before = row_facets(nx, ny, wet, y, z, n - 1);
    if x < n - 1 {
        lemma_row_has(nx, ny, wet, y, z, n - 1, x, t, m)
    } else {
        let i = lemma_cube_has(nx, ny, wet, x, y, z, 6, t, m);
        before.len() as int + i
    }
}

proof fn lemma_slice_has(
    nx: int,
    ny: int,
    wet: Seq<bool>,
    z: int,
    n: int,
    x: int,
    y: int,
    t: int,
    m: int,
) -> (i: int)
    requires
        0 <= x < nx - 1,
        0 <= y < n,
        0 <= t < 6,
        0 <= m < tet_facets(nx, ny, wet, x, y, z, t).len(),
    ensures
        0 <= i < slice_facets(nx, ny, wet, z, n).len(),
        slice_facets(nx, ny, wet, z, n)[i] == tet_facets(nx, ny, wet, x, y, z, t)[m],
    decreases n,
{
    let before = slice_facets(nx, ny, wet, z, n - 1);
    if y < n - 1 {
        lemma_slice_has(nx, ny, wet, z, n - 1, x, y, t, m)
    } else {
        let i = lemma_row_has(nx, ny, wet, y, z, nx - 1, x, t, m);
        before.len() as int + i
    }
}

proof fn lemma_mesh_has(
    nx: int,
    ny: int,
    wet: Seq<bool>,
    n: int,
    x: int,
    y: int,
    z: int,
    t: int,
    m: int,
) -> (i: int)
    requires
        0 <= x < nx - 1,
        0 <= y < ny - 1,
        0 <= z < n,
        0 <= t < 6,
        0 <= m < tet_facets(nx, ny, wet, x, y, z, t).len(),
    ensures
        0 <= i < mesh_facets(nx, ny, wet, n).len(),
        mesh_facets(nx, ny, wet, n)[i] == tet_facets(nx, ny, wet, x, y, z, t)[m],
    decreases n,
{
    let before = mesh_facets(nx, ny, wet, n - 1);
    if z < n - 1 {
        lemma_mesh_has(nx, ny, wet, n - 1, x, y, z, t, m)
    } else {
        let i = lemma_slice_has(nx, ny, wet, z, ny - 1, x, y, t, m);
        before.len() as int + i
    }
}

/// The surface runs between water and air only: every corner of every facet of the
/// mesh lies between a sample in the water and one out of it.
pub proof fn lemma_mesh_crosses(nx: int, ny: int, nz: int, wet: Seq<bool>, i: int)
    requires
        volume(nx, ny, nz, wet.len() as int),
        wet.len() <= usize::MAX,
        0 <= i < mesh_facets(nx, ny, wet, nz - 1).len(),
    ensures
        crosses(wet, mesh_facets(nx, ny, wet, nz - 1)[i].a),
        crosses(wet, mesh_facets(nx, ny, wet, nz - 1)[i].b),
        crosses(wet, mesh_facets(nx, ny, wet, nz - 1)[i].c),
{
    let at = lemma_facet_in_mesh(nx, ny, wet, nz - 1, i);
    lemma_tet_samples(nx, ny, nz, at.0, at.1, at.2, at.3);
    let samples = tet_samples(nx, ny, at.0, at.1, at.2, at.3);
    let flags = wet_at(wet, samples);
    let f = mesh_facets(nx, ny, wet, nz - 1)[i];
    lemma_tet_crossed(samples, flags, at.4);
    lemma_edge_crosses(wet, samples, f.a);
    lemma_edge_crosses(wet, samples, f.b);
    lemma_edge_crosses(wet, samples, f.c);
}

proof fn lemma_edge_crosses(wet: Seq<bool>, samples: Seq<usize>, c: Cut)
    requires
        samples.len() == 4,
        forall|i: int| 0 <= i < 4 ==> (#[trigger] samples[i]) < wet.len(),
        edge_crossed(samples, wet_at(wet, samples), c),
    ensures
        crosses(wet, c),
{
    let flags = wet_at(wet, samples);
    let (i, j) = choose|i: int, j: int|
        0 <= i < 4 && 0 <= j < 4 && flags[i] != flags[j] && c.from == #[trigger] samples[i] && c.to
            == #[trigger] samples[j];
    assert(flags[i] == wet[samples[i] as int] && flags[j] == wet[samples[j] as int]);
}

/// The surface runs everywhere between water and air: between any two samples next
/// to each other along an axis, one in the water and one out of it, lies a corner
/// of some facet of the mesh. The axes are numbered x, y and z.
#[verifier::spinoff_prover]
#[verifier::rlimit(60)]
pub proof fn lemma_every_crossing_is_cut(
    nx: int,
    ny: int,
    nz: int,
    wet: Seq<bool>,
    x: int,
    y: int,
    z: int,
    axis: int,
) -> (i: int)
    requires
        volume(nx, ny, nz, wet.len() as int),
        wet.len() <= usize::MAX,
        0 <= axis < 3,
        0 <= x < if axis == 0 {
            nx - 1
        } else {
            nx
        },
        0 <= y < if axis == 1 {
            ny - 1
        } else {
            ny
        },
        0 <= z < if axis == 2 {
            nz - 1
        } else {
            nz
        },
        ({
            let here = x + nx * (y + ny * z);
            let next = if axis == 0 {
                (x + 1) + nx * (y + ny * z)
            } else if axis == 1 {
                x + nx * ((y + 1) + ny * z)
            } else {
                x + nx * (y + ny * (z + 1))
            };
            wet[here] != wet[next]
        }),
    ensures
        0 <= i < mesh_facets(nx, ny, wet, nz - 1).len(),
        ({
            let here = x + nx * (y + ny * z);
            let next = if axis == 0 {
                (x + 1) + nx * (y + ny * z)
            } else if axis == 1 {
                x + nx * ((y + 1) + ny * z)
            } else {
                x + nx * (y + ny * (z + 1))
            };
            cuts(mesh_facets(nx, ny, wet, nz - 1)[i], here as usize, next as usize)
        }),
{
    let cx = if x < nx - 1 {
        x
    } else {
        x - 1
    };
    let cy = if y < ny - 1 {
        y
    } else {
        y - 1
    };
    let cz = if z < nz - 1 {
        z
    } else {
        z - 1
    };
    let (dx, dy, dz) = (x - cx, y - cy, z - cz);
    let (t, p, q) = edge_place(axis, dx, dy, dz);
    lemma_tet_samples(nx, ny, nz, cx, cy, cz, t);
    let samples = tet_samples(nx, ny, cx, cy, cz, t);
    let flags = wet_at(wet, samples);
    assert(samples[p] == sample_at(nx, ny, point(cx, cy, cz, tet(t)[p])));
    assert(samples[q] == sample_at(nx, ny, point(cx, cy, cz, tet(t)[q])));
    assert(point(cx, cy, cz, tet(t)[p]) == (x, y, z));
    assert(flags[p] == wet[samples[p] as int]);
    assert(flags[q] == wet[samples[q] as int]);
    let m = lemma_tet_cut(samples, flags, p, q);
    lemma_mesh_has(nx, ny, wet, nz - 1, cx, cy, cz, t, m)
}

/// The tetrahedron of a cube that has an edge along an axis, and which two of its
/// corners the edge joins. The edge starts at the cube's corner `(dx, dy, dz)`.
spec fn edge_place(axis: int, dx: int, dy: int, dz: int) -> (int, int, int) {
    if axis == 0 {
        if dy == 0 && dz == 0 {
            (0, 0, 1)
        } else if dz == 0 {
            (1, 2, 1)
        } else if dy == 0 {
            (4, 1, 2)
        } else {
            (2, 2, 3)
        }
    } else if axis == 1 {
        if dx == 0 && dz == 0 {
            (2, 0, 1)
        } else if dz == 0 {
            (0, 1, 2)
        } else if dx == 0 {
            (3, 2, 1)
        } else {
            (4, 2, 3)
        }
    } else {
        if dx == 0 && dy == 0 {
            (3, 0, 2)
        } else if dy == 0 {
            (5, 2, 1)
        } else if dx == 0 {
            (2, 1, 2)
        } else {
            (0, 2, 3)
        }
    }
}

/// A lone corner is cut off by one facet, across the edges from it to the other
/// corners in turn; two corners are cut off by two facets, whose common side joins
/// the edges from the first of them to the second of the others and from the second
/// to the first.
#[verifier::spinoff_prover]
#[verifier::rlimit(60)]
pub proof fn lemma_facet_shapes(
    corners: Seq<usize>,
    wet: Seq<bool>,
    p: int,
    q: int,
    r: int,
    s: int,
)
    requires
        corners.len() == 4,
        wet.len() == 4,
        0 <= p < 4 && 0 <= q < 4 && 0 <= r < 4 && 0 <= s < 4,
        p != q && p != r && p != s && q != r && q != s && r != s,
    ensures
        q < r < s && wet[p] != wet[q] && wet[q] == wet[r] && wet[r] == wet[s] ==> facets(
            corners,
            wet,
        ) == seq![
            Facet {
                a: Cut { from: corners[p], to: corners[q] },
                b: Cut { from: corners[p], to: corners[r] },
                c: Cut { from: corners[p], to: corners[s] },
            },
        ],
        p < q && r < s && wet[p] && wet[q] && !wet[r] && !wet[s] ==> facets(corners, wet) == seq![
            Facet {
                a: Cut { from: corners[p], to: corners[r] },
                b: Cut { from: corners[p], to: corners[s] },
                c: Cut { from: corners[q], to: corners[r] },
            },
            Facet {
                a: Cut { from: corners[p], to: corners[s] },
                b: Cut { from: corners[q], to: corners[s] },
                c: Cut { from: corners[q], to: corners[r] },
            },
        ],
{
    reveal_with_fuel(picked, 5);
    assert(p == 0 || p == 1 || p == 2 || p == 3);
    assert(q == 0 || q == 1 || q == 2 || q == 3);
    assert(r == 0 || r == 1 || r == 2 || r == 3);
    if wet[0] {
        if wet[1] {
            if wet[2] {} else {}
        } else {
            if wet[2] {} else {}
        }
    } else {
        if wet[1] {
            if wet[2] {} else {}
        } else {
            if wet[2] {} else {}
        }
    }
}

/// Where a facet comes from: a tetrahedron of a cube, and its number among that
/// tetrahedron's facets.
pub struct Origin {
    pub x: int,
    pub y: int,
    pub z: int,
    pub t: int,
    pub m: int,
}

/// One place comes before another: slice by slice, then row by row, cube by cube,
/// tetrahedron by tetrahedron, and facet by facet.
pub open spec fn comes_before(p: Origin, q: Origin) -> bool {
    ||| p.z < q.z
    ||| p.z == q.z && p.y < q.y
    ||| p.z == q.z && p.y == q.y && p.x < q.x
    ||| p.z == q.z && p.y == q.y && p.x == q.x && p.t < q.t
    ||| p.z == q.z && p.y == q.y && p.x == q.x && p.t == q.t && p.m < q.m
}

/// A facet comes from a place.
pub open spec fn comes_from(nx: int, ny: int, wet: Seq<bool>, facet: Facet, at: Origin) -> bool {
    &&& 0 <= at.t < 6
    &&& 0 <= at.m < tet_facets(nx, ny, wet, at.x, at.y, at.z, at.t).len()
    &&& facet == tet_facets(nx, ny, wet, at.x, at.y, at.z, at.t)[at.m]
}

proof fn lemma_cube_order(
    nx: int,
    ny: int,
    wet: Seq<bool>,
    x: int,
    y: int,
    z: int,
    n: int,
    i: int,
) -> (at: Origin)
    requires
        n <= 6,
        0 <= i < cube_facets(nx, ny, wet, x, y, z, n).len(),
    ensures
        at.x == x && at.y == y && at.z == z && at.t < n,
        comes_from(nx, ny, wet, cube_facets(nx, ny, wet, x, y, z, n)[i], at),
        i == cube_facets(nx, ny, wet, x, y, z, at.t).len() + at.m,
    decreases n,
{
    let before = cube_facets(nx, ny, wet, x, y, z, n - 1);
    if i < before.len() {
        lemma_cube_order(nx, ny, wet, x, y, z, n - 1, i)
    } else {
        Origin { x, y, z, t: n - 1, m: i - before.len() }
    }
}

/// More tetrahedra of a cube have no fewer facets.
proof fn lemma_cube_grows(
    nx: int,
    ny: int,
    wet: Seq<bool>,
    x: int,
    y: int,
    z: int,
    a: int,
    b: int,
)
    requires
        0 <= a < b,
    ensures
        cube_facets(nx, ny, wet, x, y, z, a).len() + tet_facets(nx, ny, wet, x, y, z, a).len()
            <= cube_facets(nx, ny, wet, x, y, z, b).len(),
    decreases b,
{
    if a < b - 1 {
        lemma_cube_grows(nx, ny, wet, x, y, z, a, b - 1);
    }
}

proof fn lemma_row_order(
    nx: int,
    ny: int,
    wet: Seq<bool>,
    y: int,
    z: int,
    n: int,
    i: int,
) -> (at: (int, int))
    requires
        0 <= i < row_facets(nx, ny, wet, y, z, n).len(),
    ensures
        0 <= at.0 < n,
        0 <= at.1 < cube_facets(nx, ny, wet, at.0, y, z, 6).len(),
        row_facets(nx, ny, wet, y, z, n)[i] == cube_facets(nx, ny, wet, at.0, y, z, 6)[at.1],
        i == row_facets(nx, ny, wet, y, z, at.0).len() + at.1,
    decreases n,
{
    let before = row_facets(nx, ny, wet, y, z, n - 1);
    if i < before.len() {
        lemma_row_order(nx, ny, wet, y, z, n - 1, i)
    } else {
        (n - 1, i - before.len())
    }
}

proof fn lemma_row_grows(nx: int, ny: int, wet: Seq<bool>, y: int, z: int, a: int, b: int)
    requires
        0 <= a < b,
    ensures
        row_facets(nx, ny, wet, y, z, a).len() + cube_facets(nx, ny, wet, a, y, z, 6).len()
            <= row_facets(nx, ny, wet, y, z, b).len(),
    decreases b,
{
    if a < b - 1 {
        lemma_row_grows(nx, ny, wet, y, z, a, b - 1);
    }
}

proof fn lemma_slice_order(nx: int, ny: int, wet: Seq<bool>, z: int, n: int, i: int) -> (at: (
    int,
    int,
))
    requires
        0 <= i < slice_facets(nx, ny, wet, z, n).len(),
    ensures
        0 <= at.0 < n,
        0 <= at.1 < row_facets(nx, ny, wet, at.0, z, nx - 1).len(),
        slice_facets(nx, ny, wet, z, n)[i] == row_facets(nx, ny, wet, at.0, z, nx - 1)[at.1],
        i == slice_facets(nx, ny, wet, z, at.0).len() + at.1,
    decreases n,
{
    let before = slice_facets(nx, ny, wet, z, n - 1);
    if i < before.len() {
        lemma_slice_order(nx, ny, wet, z, n - 1, i)
    } else {
        (n - 1, i - before.len())
    }
}

proof fn lemma_slice_grows(nx: int, ny: int, wet: Seq<bool>, z: int, a: int, b: int)
    requires
        0 <= a < b,
    ensures
        slice_facets(nx, ny, wet, z, a).len() + row_facets(nx, ny, wet, a, z, nx - 1).len()
            <= slice_facets(nx, ny, wet, z, b).len(),
    decreases b,
{
    if a < b - 1 {
        lemma_slice_grows(nx, ny, wet, z, a, b - 1);
    }
}

proof fn lemma_mesh_order(nx: int, ny: int, wet: Seq<bool>, n: int, i: int) -> (at: (int, int))
    requires
        0 <= i < mesh_facets(nx, ny, wet, n).len(),
    ensures
        0 <= at.0 < n,
        0 <= at.1 < slice_facets(nx, ny, wet, at.0, ny - 1).len(),
        mesh_facets(nx, ny, wet, n)[i] == slice_facets(nx, ny, wet, at.0, ny - 1)[at.1],
        i == mesh_facets(nx, ny, wet, at.0).len() + at.1,
    decreases n,
{
    let before = mesh_facets(nx, ny, wet, n - 1);
    if i < before.len() {
        lemma_mesh_order(nx, ny, wet, n - 1, i)
    } else {
        (n - 1, i - before.len())
    }
}

proof fn lemma_mesh_grows(nx: int, ny: int, wet: Seq<bool>, a: int, b: int)
    requires
        0 <= a < b,
    ensures
        mesh_facets(nx, ny, wet, a).len() + slice_facets(nx, ny, wet, a, ny - 1).len()
            <= mesh_facets(nx, ny, wet, b).len(),
    decreases b,
{
    if a < b - 1 {
        lemma_mesh_grows(nx, ny, wet, a, b - 1);
    }
}

/// The mesh lists its facets in order: of two of them, the earlier one comes from
/// an earlier slice; or from the same slice and an earlier row; and so on down to
/// the facets of one tetrahedron.
pub proof fn lemma_mesh_is_in_order(nx: int, ny: int, nz: int, wet: Seq<bool>, i: int, j: int) -> (
    at: (Origin, Origin))
    requires
        0 <= i < j < mesh_facets(nx, ny, wet, nz - 1).len(),
    ensures
        comes_from(nx, ny, wet, mesh_facets(nx, ny, wet, nz - 1)[i], at.0),
        comes_from(nx, ny, wet, mesh_facets(nx, ny, wet, nz - 1)[j], at.1),
        comes_before(at.0, at.1),
{
    let (za, ka) = lemma_mesh_order(nx, ny, wet, nz - 1, i);
    let (zb, kb) = lemma_mesh_order(nx, ny, wet, nz - 1, j);
    let (ya, la) = lemma_slice_order(nx, ny, wet, za, ny - 1, ka);
    let (yb, lb) = lemma_slice_order(nx, ny, wet, zb, ny - 1, kb);
    let (xa, ca) = lemma_row_order(nx, ny, wet, ya, za, nx - 1, la);
    let (xb, cb) = lemma_row_order(nx, ny, wet, yb, zb, nx - 1, lb);
    let a = lemma_cube_order(nx, ny, wet, xa, ya, za, 6, ca);
    let b = lemma_cube_order(nx, ny, wet, xb, yb, zb, 6, cb);
    if zb < za {
        lemma_mesh_grows(nx, ny, wet, zb, za);
    } else if za == zb {
        if yb < ya {
            lemma_slice_grows(nx, ny, wet, za, yb, ya);
        } else if ya == yb {
            if xb < xa {
                lemma_row_grows(nx, ny, wet, ya, za, xb, xa);
            } else if xa == xb {
                if b.t < a.t {
                    lemma_cube_grows(nx, ny, wet, xa, ya, za, b.t, a.t);
                }
            }
        }
    }
    (a, b)
}

} // verus!
