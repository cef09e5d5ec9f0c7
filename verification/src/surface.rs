//! The shape of the water: where a density volume crosses the surface value.
//! Unlike a height field, this preserves overhangs, disconnected splashes, and
//! the air inside a barrel.
//!
//! The volume is cut into cubes, and each cube into six tetrahedra around the
//! same body diagonal, which makes neighbouring cube faces agree. A tetrahedron
//! with corners on both sides of the surface is crossed by one or two facets,
//! whose corners lie on its crossed edges.
use vstd::prelude::*;
use rayon::iter::{IntoParallelIterator, ParallelIterator};
use crate::single::Single;

verus! {

/// The density of the surface.
pub const ISO: u32 = 0x3ee6_6666;

/// Facets of a smaller squared area are dropped.
pub const SLIVER: u32 = 0x2edb_e6ff;

/// A point where the surface crosses the edge between two samples.
#[derive(Clone, Copy, PartialEq, Eq, Structural, Debug)]
pub struct Cut {
    pub from: usize,
    pub to: usize,
}

/// A triangle of the surface.
#[derive(Clone, Copy, PartialEq, Eq, Structural, Debug)]
pub struct Facet {
    pub a: Cut,
    pub b: Cut,
    pub c: Cut,
}

/// A sample is in the water if it is at least as dense as the surface.
pub open spec fn dense(density: Single) -> bool {
    (Single { bits: ISO }).at_most(density)
}

/// Which samples are in the water.
pub fn classify(densities: &Vec<Single>) -> (wet: Vec<bool>)
    ensures
        wet@.len() == densities@.len(),
        forall|i: int| 0 <= i < wet@.len() ==> #[trigger] wet@[i] == dense(densities@[i]),
        forall|i: int|
            0 <= i < wet@.len() ==> (#[trigger] wet@[i] <==> !densities@[i].nan()
                && densities@[i].rank() >= (Single { bits: 0x3ee6_6666 }).rank()),
{
    let mut wet: Vec<bool> = Vec::new();
    let mut i: usize = 0;
    while i < densities.len()
        invariant
            i <= densities@.len(),
            wet@.len() == i,
            forall|k: int| 0 <= k < i ==> #[trigger] wet@[k] == dense(densities@[k]),
        decreases densities@.len() - i,
    {
        wet.push(densities[i].ge(Single { bits: ISO }));
        i += 1;
    }
    wet
}

/// Samples along an axis, from its length in voxels: enough to cover it, and one
/// more.
pub open spec fn samples_for(voxels: Single) -> int {
    voxels.ceil_as_u32() + 1
}

pub fn samples_along(voxels: Single) -> (samples: u32)
    requires
        voxels.ceil_as_u32() < u32::MAX,
    ensures
        samples == samples_for(voxels),
        samples == voxels.ceil_as_u32() + 1,
{
    voxels.ceil_u32() + 1
}

/// The number of the sample at `(x, y, z)`.
pub open spec fn sample(nx: int, ny: int, x: int, y: int, z: int) -> int {
    x + nx * (y + ny * z)
}

/// Where sample `i` lies.
pub fn place(nx: usize, ny: usize, i: usize) -> (at: (usize, usize, usize))
    requires
        nx > 0,
        ny > 0,
    ensures
        at.0 < nx,
        at.1 < ny,
        i == sample(nx as int, ny as int, at.0 as int, at.1 as int, at.2 as int),
        i == at.0 + nx * (at.1 + ny * at.2),
{
    let row: usize = i / nx;
    let (x, y, z) = (i % nx, row % ny, row / ny);
    proof {
        vstd::arithmetic::div_mod::lemma_fundamental_div_mod(i as int, nx as int);
        vstd::arithmetic::div_mod::lemma_fundamental_div_mod(row as int, ny as int);
    }
    (x, y, z)
}

/// Two samples have one number only if they are the same sample.
pub proof fn lemma_samples_differ(
    nx: int,
    ny: int,
    x: int,
    y: int,
    z: int,
    u: int,
    v: int,
    w: int,
)
    requires
        0 <= x < nx,
        0 <= u < nx,
        0 <= y < ny,
        0 <= v < ny,
        sample(nx, ny, x, y, z) == sample(nx, ny, u, v, w),
    ensures
        x == u,
        y == v,
        z == w,
{
    let (a, b) = (y + ny * z, v + ny * w);
    assert(nx * a == a * nx && nx * b == b * nx && ny * z == z * ny && ny * w == w * ny)
        by (nonlinear_arith);
    crate::grid::lemma_digits(nx, a, x, b, u);
    crate::grid::lemma_digits(ny, z, y, w, v);
}

/// The number of corner `k` of the cube at `(x, y, z)`: the corner's lowest bit
/// steps along x, the next along y, the highest along z.
pub open spec fn corner(nx: int, ny: int, x: int, y: int, z: int, k: int) -> int {
    sample(nx, ny, x + k % 2, y + (k / 2) % 2, z + (k / 4) % 2)
}

/// The corners of tetrahedron `t` of a cube.
pub open spec fn tet(t: int) -> Seq<int> {
    if t == 0 {
        seq![0, 1, 3, 7]
    } else if t == 1 {
        seq![0, 3, 2, 7]
    } else if t == 2 {
        seq![0, 2, 6, 7]
    } else if t == 3 {
        seq![0, 6, 4, 7]
    } else if t == 4 {
        seq![0, 4, 5, 7]
    } else {
        seq![0, 5, 1, 7]
    }
}

fn tets() -> (tets: [[usize; 4]; 6])
    ensures
        forall|t: int, i: int|
            0 <= t < 6 && 0 <= i < 4 ==> #[trigger] tets@[t]@[i] == tet(t)[i],
{
    let tets = [
        [0, 1, 3, 7],
        [0, 3, 2, 7],
        [0, 2, 6, 7],
        [0, 6, 4, 7],
        [0, 4, 5, 7],
        [0, 5, 1, 7],
    ];
    proof {
        assert forall|t: int, i: int| 0 <= t < 6 && 0 <= i < 4 implies #[trigger] tets@[t]@[i]
            == tet(t)[i] by {
            assert(t == 0 || t == 1 || t == 2 || t == 3 || t == 4 || t == 5);
            assert(i == 0 || i == 1 || i == 2 || i == 3);
        }
    }
    tets
}

/// Those of the first `n` corners that are in the water, or those that are not.
pub open spec fn picked(corners: Seq<usize>, wet: Seq<bool>, want: bool, n: int) -> Seq<usize>
    decreases n,
{
    if n <= 0 {
        Seq::empty()
    } else if wet[n - 1] == want {
        picked(corners, wet, want, n - 1).push(corners[n - 1])
    } else {
        picked(corners, wet, want, n - 1)
    }
}

/// The crossing between two corners.
pub open spec fn cut(from: usize, to: usize) -> Cut {
    Cut { from, to }
}

/// The facets of a tetrahedron with these corners in the water and these out of
/// it: one around a lone corner, or two across a pair.
pub open spec fn facets_between(inside: Seq<usize>, outside: Seq<usize>) -> Seq<Facet> {
    if inside.len() == 1 {
        seq![
            Facet {
                a: cut(inside[0], outside[0]),
                b: cut(inside[0], outside[1]),
                c: cut(inside[0], outside[2]),
            },
        ]
    } else if inside.len() == 3 {
        seq![
            Facet {
                a: cut(outside[0], inside[0]),
                b: cut(outside[0], inside[1]),
                c: cut(outside[0], inside[2]),
            },
        ]
    } else if inside.len() == 2 {
        let (a, b) = (cut(inside[0], outside[0]), cut(inside[0], outside[1]));
        let (c, d) = (cut(inside[1], outside[0]), cut(inside[1], outside[1]));
        seq![Facet { a, b, c }, Facet { a: b, b: d, c }]
    } else {
        Seq::empty()
    }
}

/// The facets of a tetrahedron.
pub open spec fn facets(corners: Seq<usize>, wet: Seq<bool>) -> Seq<Facet> {
    facets_between(picked(corners, wet, true, 4), picked(corners, wet, false, 4))
}

/// Appends the facets of a tetrahedron.
pub fn polygonize(corners: [usize; 4], wet: [bool; 4], out: &mut Vec<Facet>)
    ensures
        final(out)@ == old(out)@ + facets(corners@, wet@),
{
    let mut inside: Vec<usize> = Vec::new();
    let mut outside: Vec<usize> = Vec::new();
    let mut i: usize = 0;
    while i < 4
        invariant
            i <= 4,
            inside@ == picked(corners@, wet@, true, i as int),
            outside@ == picked(corners@, wet@, false, i as int),
            inside@.len() + outside@.len() == i,
        decreases 4 - i,
    {
        if wet[i] {
            inside.push(corners[i]);
        } else {
            outside.push(corners[i]);
        }
        i += 1;
    }
    if inside.len() == 1 {
        out.push(
            Facet {
                a: Cut { from: inside[0], to: outside[0] },
                b: Cut { from: inside[0], to: outside[1] },
                c: Cut { from: inside[0], to: outside[2] },
            },
        );
    } else if inside.len() == 3 {
        out.push(
            Facet {
                a: Cut { from: outside[0], to: inside[0] },
                b: Cut { from: outside[0], to: inside[1] },
                c: Cut { from: outside[0], to: inside[2] },
            },
        );
    } else if inside.len() == 2 {
        let a = Cut { from: inside[0], to: outside[0] };
        let b = Cut { from: inside[0], to: outside[1] };
        let c = Cut { from: inside[1], to: outside[0] };
        let d = Cut { from: inside[1], to: outside[1] };
        out.push(Facet { a, b, c });
        out.push(Facet { a: b, b: d, c });
    }
    assert(out@ =~= old(out)@ + facets(corners@, wet@));
}

/// The samples at the corners of tetrahedron `t` of the cube at `(x, y, z)`.
pub open spec fn tet_samples(nx: int, ny: int, x: int, y: int, z: int, t: int) -> Seq<usize> {
    Seq::new(4, |i: int| corner(nx, ny, x, y, z, tet(t)[i]) as usize)
}

/// Which of some samples are in the water.
pub open spec fn wet_at(wet: Seq<bool>, samples: Seq<usize>) -> Seq<bool> {
    Seq::new(samples.len(), |i: int| wet[samples[i] as int])
}

/// The facets of tetrahedron `t` of the cube at `(x, y, z)`.
pub open spec fn tet_facets(
    nx: int,
    ny: int,
    wet: Seq<bool>,
    x: int,
    y: int,
    z: int,
    t: int,
) -> Seq<Facet> {
    let samples = tet_samples(nx, ny, x, y, z, t);
    facets(samples, wet_at(wet, samples))
}

/// The facets of the first `n` tetrahedra of a cube.
pub open spec fn cube_facets(
    nx: int,
    ny: int,
    wet: Seq<bool>,
    x: int,
    y: int,
    z: int,
    n: int,
) -> Seq<Facet>
    decreases n,
{
    if n <= 0 {
        Seq::empty()
    } else {
        cube_facets(nx, ny, wet, x, y, z, n - 1) + tet_facets(nx, ny, wet, x, y, z, n - 1)
    }
}

/// The facets of the first `n` cubes of a row.
pub open spec fn row_facets(nx: int, ny: int, wet: Seq<bool>, y: int, z: int, n: int) -> Seq<Facet>
    decreases n,
{
    if n <= 0 {
        Seq::empty()
    } else {
        row_facets(nx, ny, wet, y, z, n - 1) + cube_facets(nx, ny, wet, n - 1, y, z, 6)
    }
}

/// The facets of the first `n` rows of a slice.
pub open spec fn slice_facets(nx: int, ny: int, wet: Seq<bool>, z: int, n: int) -> Seq<Facet>
    decreases n,
{
    if n <= 0 {
        Seq::empty()
    } else {
        slice_facets(nx, ny, wet, z, n - 1) + row_facets(nx, ny, wet, n - 1, z, nx - 1)
    }
}

/// The facets of the first `n` slices of the volume.
pub open spec fn mesh_facets(nx: int, ny: int, wet: Seq<bool>, n: int) -> Seq<Facet>
    decreases n,
{
    if n <= 0 {
        Seq::empty()
    } else {
        mesh_facets(nx, ny, wet, n - 1) + slice_facets(nx, ny, wet, n - 1, ny - 1)
    }
}

/// A volume of samples, with at least one cube.
pub open spec fn volume(nx: int, ny: int, nz: int, samples: int) -> bool {
    &&& 2 <= nx
    &&& 2 <= ny
    &&& 2 <= nz
    &&& samples == nx * (ny * nz)
}

/// Every corner of a cube is a sample of the volume.
pub proof fn lemma_corner(nx: int, ny: int, nz: int, x: int, y: int, z: int, k: int)
    requires
        2 <= nx,
        2 <= ny,
        2 <= nz,
        0 <= x < nx - 1,
        0 <= y < ny - 1,
        0 <= z < nz - 1,
        0 <= k < 8,
    ensures
        0 <= corner(nx, ny, x, y, z, k) < nx * (ny * nz),
        corner(nx, ny, x, y, z, k) == sample(nx, ny, x, y, z) + k % 2 + (k / 2) % 2 * nx + (k / 4)
            % 2 * (nx * ny),
{
    let (u, v, w) = (x + k % 2, y + (k / 2) % 2, z + (k / 4) % 2);
    assert(0 <= v + ny * w < ny * nz) by (nonlinear_arith)
        requires
            0 <= v < ny,
            0 <= w < nz,
    ;
    let row = v + ny * w;
    let rows = ny * nz;
    assert(0 <= u + nx * row < nx * rows) by (nonlinear_arith)
        requires
            0 <= u < nx,
            0 <= row < rows,
    ;
    let (dy, dz) = ((k / 2) % 2, (k / 4) % 2);
    assert(nx * ((y + dy) + ny * (z + dz)) == nx * (y + ny * z) + dy * nx + dz * (nx * ny))
        by (nonlinear_arith);
}

/// Tetrahedra of a cube with all its corners on one side have no facets.
proof fn lemma_uniform_cube(
    nx: int,
    ny: int,
    wet: Seq<bool>,
    x: int,
    y: int,
    z: int,
    side: bool,
    n: int,
)
    requires
        0 <= n <= 6,
        forall|k: int|
            0 <= k < 8 ==> wet[(#[trigger] corner(nx, ny, x, y, z, k)) as usize as int] == side,
    ensures
        cube_facets(nx, ny, wet, x, y, z, n) == Seq::<Facet>::empty(),
    decreases n,
{
    if n > 0 {
        lemma_uniform_cube(nx, ny, wet, x, y, z, side, n - 1);
        let samples = tet_samples(nx, ny, x, y, z, n - 1);
        let flags = wet_at(wet, samples);
        assert forall|i: int| 0 <= i < 4 implies flags[i] == side by {
            let k = tet(n - 1)[i];
            assert(0 <= k < 8);
            assert(wet[corner(nx, ny, x, y, z, k) as usize as int] == side);
        }
        reveal_with_fuel(picked, 5);
        assert(flags[0] == side && flags[1] == side && flags[2] == side && flags[3] == side);
        assert(tet_facets(nx, ny, wet, x, y, z, n - 1) =~= Seq::<Facet>::empty());
    }
}

/// Appends the facets of a cube.
#[verifier::rlimit(30)]
fn cube(
    nx: usize,
    ny: usize,
    nz: usize,
    wet: &Vec<bool>,
    x: usize,
    y: usize,
    z: usize,
    out: &mut Vec<Facet>,
)
    requires
        volume(nx as int, ny as int, nz as int, wet@.len() as int),
        x < nx - 1,
        y < ny - 1,
        z < nz - 1,
    ensures
        final(out)@ == old(out)@ + cube_facets(
            nx as int,
            ny as int,
            wet@,
            x as int,
            y as int,
            z as int,
            6,
        ),
{
    let ghost (w, h, d) = (nx as int, ny as int, nz as int);
    let ghost (i, j, l) = (x as int, y as int, z as int);
    let total: usize = wet.len();
    proof {
        assert forall|k: int| 0 <= k < 8 implies 0 <= #[trigger] corner(w, h, i, j, l, k)
            < wet@.len() by {
            lemma_corner(w, h, d, i, j, l, k);
        }
        lemma_corner(w, h, d, i, j, l, 0);
        lemma_corner(w, h, d, i, j, l, 1);
        lemma_corner(w, h, d, i, j, l, 2);
        lemma_corner(w, h, d, i, j, l, 3);
        lemma_corner(w, h, d, i, j, l, 4);
        lemma_corner(w, h, d, i, j, l, 5);
        lemma_corner(w, h, d, i, j, l, 6);
        lemma_corner(w, h, d, i, j, l, 7);
        let row = j + h * l;
        assert(0 <= row) by (nonlinear_arith)
            requires
                row == j + h * l,
                j >= 0,
                h >= 0,
                l >= 0,
        ;
        assert(0 <= h * l) by (nonlinear_arith)
            requires
                h >= 0,
                l >= 0,
        ;
        assert(row <= w * row) by (nonlinear_arith)
            requires
                w >= 2,
                row >= 0,
        ;
        assert(0 <= w * h) by (nonlinear_arith)
            requires
                w >= 0,
                h >= 0,
        ;
        assert(corner(w, h, i, j, l, 7) == i + w * row + 1 + w + w * h);
        assert(corner(w, h, i, j, l, 7) < total);
    }
    let base: usize = x + nx * (y + ny * z);
    let plane: usize = nx * ny;
    let corners: [usize; 8] = [
        base,
        base + 1,
        base + nx,
        base + nx + 1,
        base + plane,
        base + plane + 1,
        base + plane + nx,
        base + plane + nx + 1,
    ];
    proof {
        assert forall|k: int| 0 <= k < 8 implies #[trigger] corners@[k] == corner(w, h, i, j, l, k) by {
            assert(k == 0 || k == 1 || k == 2 || k == 3 || k == 4 || k == 5 || k == 6 || k == 7);
        }
    }
    let first: bool = wet[corners[0]];
    let mut uniform: bool = true;
    let mut k: usize = 0;
    while k < 8
        invariant
            k <= 8,
            forall|m: int| 0 <= m < 8 ==> (#[trigger] corners@[m]) < wet@.len(),
            first == wet@[corners@[0] as int],
            uniform <==> forall|m: int| 0 <= m < k ==> wet@[(#[trigger] corners@[m]) as int] == first,
        decreases 8 - k,
    {
        if wet[corners[k]] != first {
            uniform = false;
        }
        k += 1;
    }
    if uniform {
        proof {
            assert forall|k: int| 0 <= k < 8 implies wet@[(#[trigger] corner(
                w,
                h,
                i,
                j,
                l,
                k,
            )) as usize as int] == first by {
                assert(corners@[k] == corner(w, h, i, j, l, k));
            }
            lemma_uniform_cube(w, h, wet@, i, j, l, first, 6);
            assert(out@ =~= old(out)@ + cube_facets(w, h, wet@, i, j, l, 6));
        }
        return;
    }
    let tets = tets();
    assert(out@ =~= old(out)@ + cube_facets(w, h, wet@, i, j, l, 0));
    let mut t: usize = 0;
    while t < 6
        invariant
            t <= 6,
            forall|t: int, i: int|
                0 <= t < 6 && 0 <= i < 4 ==> #[trigger] tets@[t]@[i] == tet(t)[i],
            forall|m: int|
                0 <= m < 8 ==> (#[trigger] corners@[m]) < wet@.len() && corners@[m] == corner(
                    w,
                    h,
                    i,
                    j,
                    l,
                    m,
                ),
            out@ == old(out)@ + cube_facets(w, h, wet@, i, j, l, t as int),
        decreases 6 - t,
    {
        let of: [usize; 4] = tets[t];
        proof {
            assert forall|m: int| 0 <= m < 4 implies 0 <= #[trigger] of@[m] < 8 && of@[m] == tet(
                t as int,
            )[m] by {
                assert(tets@[t as int]@[m] == tet(t as int)[m]);
            }
        }
        let samples: [usize; 4] = [
            corners[of[0]],
            corners[of[1]],
            corners[of[2]],
            corners[of[3]],
        ];
        let flags: [bool; 4] = [wet[samples[0]], wet[samples[1]], wet[samples[2]], wet[samples[3]]];
        polygonize(samples, flags, out);
        proof {
            let expected = tet_samples(w, h, i, j, l, t as int);
            assert(samples@ =~= expected);
            assert(flags@ =~= wet_at(wet@, expected));
            assert(out@ =~= old(out)@ + cube_facets(w, h, wet@, i, j, l, t + 1));
        }
        t += 1;
    }
}

/// The facets of slice `z` of the volume.
pub fn slice(nx: usize, ny: usize, nz: usize, wet: &Vec<bool>, z: usize) -> (out: Vec<Facet>)
    requires
        volume(nx as int, ny as int, nz as int, wet@.len() as int),
        z < nz - 1,
    ensures
        out@ == slice_facets(nx as int, ny as int, wet@, z as int, ny - 1),
{
    let ghost (w, h, l) = (nx as int, ny as int, z as int);
    let mut out: Vec<Facet> = Vec::new();
    assert(out@ =~= slice_facets(w, h, wet@, l, 0));
    let mut y: usize = 0;
    while y < ny - 1
        invariant
            y <= ny - 1,
            z < nz - 1,
            w == nx,
            h == ny,
            l == z,
            volume(nx as int, ny as int, nz as int, wet@.len() as int),
            out@ == slice_facets(w, h, wet@, l, y as int),
        decreases ny - y,
    {
        let ghost start = out@;
        let mut x: usize = 0;
        assert(out@ =~= start + row_facets(w, h, wet@, y as int, l, 0));
        while x < nx - 1
            invariant
                x <= nx - 1,
                y < ny - 1,
                z < nz - 1,
                w == nx,
                h == ny,
                l == z,
                volume(nx as int, ny as int, nz as int, wet@.len() as int),
                out@ == start + row_facets(w, h, wet@, y as int, l, x as int),
            decreases nx - x,
        {
            cube(nx, ny, nz, wet, x, y, z, &mut out);
            x += 1;
            assert(out@ =~= start + row_facets(w, h, wet@, y as int, l, x as int));
        }
        y += 1;
    }
    out
}

/// `rayon`'s parallel iterator over a range, mapped and collected: one result
/// for each slice, in slice order, each of them what [`slice`] makes of it.
#[verifier::external_body]
fn slices(nx: usize, ny: usize, nz: usize, wet: &Vec<bool>) -> (slices: Vec<Vec<Facet>>)
    requires
        volume(nx as int, ny as int, nz as int, wet@.len() as int),
    ensures
        slices@.len() == nz - 1,
        forall|z: int|
            0 <= z < slices@.len() ==> (#[trigger] slices@[z])@ == slice_facets(
                nx as int,
                ny as int,
                wet@,
                z,
                ny - 1,
            ),
{
    (0..nz - 1).into_par_iter().map(|z| slice(nx, ny, nz, wet, z)).collect()
}

/// The facets of the whole volume, slice by slice. Samples are numbered along x
/// first, then y, then z; `wet` says which of them are in the water.
pub fn mesh(nx: usize, ny: usize, nz: usize, wet: &Vec<bool>) -> (out: Vec<Facet>)
    requires
        volume(nx as int, ny as int, nz as int, wet@.len() as int),
    ensures
        out@ == mesh_facets(nx as int, ny as int, wet@, nz - 1),
{
    let slices: Vec<Vec<Facet>> = slices(nx, ny, nz, wet);
    let mut out: Vec<Facet> = Vec::new();
    let mut z: usize = 0;
    while z < slices.len()
        invariant
            z <= slices@.len(),
            slices@.len() == nz - 1,
            forall|z: int|
                0 <= z < slices@.len() ==> (#[trigger] slices@[z])@ == slice_facets(
                    nx as int,
                    ny as int,
                    wet@,
                    z,
                    ny - 1,
                ),
            out@ == mesh_facets(nx as int, ny as int, wet@, z as int),
        decreases slices@.len() - z,
    {
        let ghost start = out@;
        let part: &Vec<Facet> = &slices[z];
        let mut k: usize = 0;
        while k < part.len()
            invariant
                k <= part@.len(),
                out@ == start + part@.take(k as int),
            decreases part@.len() - k,
        {
            out.push(part[k]);
            k += 1;
            assert(out@ =~= start + part@.take(k as int));
        }
        proof {
            assert(part@.take(part@.len() as int) =~= part@);
            assert(out@ =~= mesh_facets(nx as int, ny as int, wet@, z + 1));
        }
        z += 1;
    }
    out
}

/// What becomes of a facet, from its squared area and how far it faces along
/// its corners' normals: a sliver is dropped, and one that faces inwards has two
/// corners swapped.
#[derive(Clone, Copy, PartialEq, Eq, Structural, Debug)]
pub enum Facing {
    Dropped,
    Kept,
    Swapped,
}

pub fn facing(area2: Single, outwards: Single) -> (facing: Facing)
    ensures
        facing is Dropped <==> area2.below(Single { bits: SLIVER }),
        facing is Dropped <==> !area2.nan() && area2.rank() < (Single { bits: 0x2edb_e6ff }).rank(),
        facing is Kept ==> outwards.nan() || outwards.rank() >= 0,
        facing is Swapped ==> !outwards.nan() && outwards.rank() < 0,
        facing is Swapped <==> !area2.below(Single { bits: SLIVER }) && outwards.below(
            crate::single::zero(),
        ),
{
    proof {
        crate::single::lemma_zero();
    }
    if area2.lt(Single { bits: SLIVER }) {
        Facing::Dropped
    } else if outwards.lt(Single { bits: 0 }) {
        Facing::Swapped
    } else {
        Facing::Kept
    }
}

/// The same crossing, whichever end it is measured from.
pub open spec fn same_cut(p: Cut, q: Cut) -> bool {
    p == q || p == cut(q.to, q.from)
}

/// A side of a facet: it joins two crossings.
pub open spec fn same_side(p: (Cut, Cut), q: (Cut, Cut)) -> bool {
    same_cut(p.0, q.0) && same_cut(p.1, q.1) || same_cut(p.0, q.1) && same_cut(p.1, q.0)
}

/// How many of a facet's sides are `side`.
pub open spec fn sides_of(facet: Facet, side: (Cut, Cut)) -> int {
    (if same_side((facet.a, facet.b), side) {
        1int
    } else {
        0
    }) + (if same_side((facet.b, facet.c), side) {
        1int
    } else {
        0
    }) + (if same_side((facet.c, facet.a), side) {
        1int
    } else {
        0
    })
}

/// How many sides of some facets are `side`.
pub open spec fn sides(facets: Seq<Facet>, side: (Cut, Cut)) -> int
    decreases facets.len(),
{
    if facets.len() == 0 {
        0
    } else {
        sides(facets.drop_last(), side) + sides_of(facets.last(), side)
    }
}

/// A triangle of samples with some in the water and some out of it.
pub open spec fn mixed(p: bool, q: bool, r: bool) -> bool {
    !(p == q && q == r)
}

/// The side that crosses a mixed triangle of samples: it joins the two edges at
/// the sample that is alone on its side of the surface.
pub open spec fn crossing(
    p: usize,
    q: usize,
    r: usize,
    wet_p: bool,
    wet_q: bool,
    wet_r: bool,
) -> (Cut, Cut) {
    if wet_q == wet_r {
        (cut(p, q), cut(p, r))
    } else if wet_p == wet_r {
        (cut(q, p), cut(q, r))
    } else {
        (cut(r, p), cut(r, q))
    }
}

/// Corner `i` of what is left of a tetrahedron without corner `k`.
pub open spec fn other(k: int, i: int) -> int {
    if i < k {
        i
    } else {
        i + 1
    }
}

/// Whether the face of a tetrahedron without corner `k` is crossed.
pub open spec fn face_mixed(wet: Seq<bool>, k: int) -> bool {
    mixed(wet[other(k, 0)], wet[other(k, 1)], wet[other(k, 2)])
}

/// The side across the face of a tetrahedron without corner `k`.
pub open spec fn face_side(corners: Seq<usize>, wet: Seq<bool>, k: int) -> (Cut, Cut) {
    crossing(
        corners[other(k, 0)],
        corners[other(k, 1)],
        corners[other(k, 2)],
        wet[other(k, 0)],
        wet[other(k, 1)],
        wet[other(k, 2)],
    )
}

/// A tetrahedron's facets have exactly one side across each of its crossed
/// faces, and none across the others.
#[verifier::rlimit(100)]
#[verifier::spinoff_prover]
pub proof fn lemma_one_side_per_face(corners: Seq<usize>, wet: Seq<bool>, k: int)
    requires
        corners.len() == 4,
        wet.len() == 4,
        corners.no_duplicates(),
        0 <= k < 4,
        face_mixed(wet, k),
    ensures
        sides(facets(corners, wet), face_side(corners, wet, k)) == 1,
{
    reveal_with_fuel(picked, 5);
    reveal_with_fuel(sides, 3);
    let (p, q, r, s) = (corners[0], corners[1], corners[2], corners[3]);
    assert(p != q && p != r && p != s && q != r && q != s && r != s);
    let f = facets(corners, wet);
    if f.len() == 1 {
        assert(f.drop_last() =~= Seq::empty());
    } else {
        assert(f.drop_last() =~= seq![f[0]]);
        assert(seq![f[0]].drop_last() =~= Seq::empty());
    }
    if wet[0] {
        if wet[1] {
            if wet[2] {} else {}
        } else {
            if wet[2] {} else {}
        }
    } else {
        if wet[1] {
            if wet[2] {} else {}
        } else {
            if wet[2] {} else {}
        }
    }
}


} // verus!
