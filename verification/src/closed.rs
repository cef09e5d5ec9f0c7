//! Why the surface has no cracks: every side of every facet is shared by exactly
//! two facets.
//!
//! A side either crosses a face of its tetrahedron, and then one more
//! tetrahedron has that face and is crossed there the same way; or it is the
//! diagonal between the two facets of its own tetrahedron.
use vstd::prelude::*;
use crate::surface::{
    crossing, cube_facets, cut, face_mixed, face_side, facets, mesh_facets, mixed, other,
    picked, row_facets, same_side, sample, sides, sides_of, slice_facets, tet,
    tet_facets, tet_samples, volume, wet_at, Cut, Facet,
};
use crate::surface::{lemma_corner, lemma_one_side_per_face, lemma_samples_differ};

verus! {

/// Where corner `c` of the cube at `(x, y, z)` lies.
pub open spec fn point(x: int, y: int, z: int, c: int) -> (int, int, int) {
    (x + c % 2, y + (c / 2) % 2, z + (c / 4) % 2)
}

/// Point `i` of the face without corner `k` of tetrahedron `t`.
pub open spec fn face_point(x: int, y: int, z: int, t: int, k: int, i: int) -> (int, int, int) {
    point(x, y, z, tet(t)[other(k, i)])
}

/// The tetrahedron on the other side of a face.
pub open spec fn mate(t: int, k: int) -> int {
    if k == 1 {
        (t + 1) % 6
    } else if k == 2 {
        (t + 5) % 6
    } else if k == 0 {
        if t == 0 {
            2
        } else if t == 1 {
            5
        } else if t == 2 {
            4
        } else if t == 3 {
            1
        } else if t == 4 {
            0
        } else {
            3
        }
    } else {
        if t == 0 {
            4
        } else if t == 1 {
            3
        } else if t == 2 {
            0
        } else if t == 3 {
            5
        } else if t == 4 {
            2
        } else {
            1
        }
    }
}

/// The corner that the tetrahedron on the other side has off the face.
pub open spec fn mate_face(k: int) -> int {
    3 - k
}

/// The cube on the other side of a face: the faces around the body diagonal are
/// shared within the cube, the others with a neighbour.
pub open spec fn mate_cube(x: int, y: int, z: int, t: int, k: int) -> (int, int, int) {
    if k == 0 {
        if t == 0 || t == 5 {
            (x + 1, y, z)
        } else if t == 1 || t == 2 {
            (x, y + 1, z)
        } else {
            (x, y, z + 1)
        }
    } else if k == 3 {
        if t == 0 || t == 1 {
            (x, y, z - 1)
        } else if t == 2 || t == 3 {
            (x - 1, y, z)
        } else {
            (x, y - 1, z)
        }
    } else {
        (x, y, z)
    }
}

/// Every one of three things is among three others.
pub open spec fn among<P>(p: P, q: P, r: P, a: P, b: P, c: P) -> bool {
    &&& p == a || p == b || p == c
    &&& q == a || q == b || q == c
    &&& r == a || r == b || r == c
}

/// Two faces have the same points.
pub open spec fn same_face(
    x: int,
    y: int,
    z: int,
    t: int,
    k: int,
    u: int,
    v: int,
    w: int,
    s: int,
    m: int,
) -> bool {
    among(
        face_point(x, y, z, t, k, 0),
        face_point(x, y, z, t, k, 1),
        face_point(x, y, z, t, k, 2),
        face_point(u, v, w, s, m, 0),
        face_point(u, v, w, s, m, 1),
        face_point(u, v, w, s, m, 2),
    )
}

/// The tetrahedron on the other side of a face has that very face.
pub proof fn lemma_mates_share_a_face(x: int, y: int, z: int, t: int, k: int)
    requires
        0 <= t < 6,
        0 <= k < 4,
    ensures
        ({
            let (u, v, w) = mate_cube(x, y, z, t, k);
            same_face(x, y, z, t, k, u, v, w, mate(t, k), mate_face(k))
        }),
{
    assert(t == 0 || t == 1 || t == 2 || t == 3 || t == 4 || t == 5);
    assert(k == 0 || k == 1 || k == 2 || k == 3);
}

/// The least of three numbers.
spec fn least(a: int, b: int, c: int) -> int {
    if a <= b && a <= c {
        a
    } else if b <= c {
        b
    } else {
        c
    }
}

/// A bit for each of a cube's corners.
spec fn bit(c: int) -> int {
    if c == 0 {
        1
    } else if c == 1 {
        2
    } else if c == 2 {
        4
    } else if c == 3 {
        8
    } else if c == 4 {
        16
    } else if c == 5 {
        32
    } else if c == 6 {
        64
    } else {
        128
    }
}

/// The corner of the cube at `low` that a point is.
spec fn corner_of(p: (int, int, int), low: (int, int, int)) -> int {
    (p.0 - low.0) + 2 * (p.1 - low.1) + 4 * (p.2 - low.2)
}

spec fn lowest(p: (int, int, int), q: (int, int, int), r: (int, int, int)) -> (int, int, int) {
    (least(p.0, q.0, r.0), least(p.1, q.1, r.1), least(p.2, q.2, r.2))
}

/// Three points, wherever they lie, as corners of a cube.
spec fn shape(p: (int, int, int), q: (int, int, int), r: (int, int, int)) -> int {
    let low = lowest(p, q, r);
    bit(corner_of(p, low)) + bit(corner_of(q, low)) + bit(corner_of(r, low))
}

/// The shape of each face.
spec fn face_shape(t: int, k: int) -> int {
    if t == 0 {
        if k == 0 {
            69
        } else if k == 1 {
            137
        } else if k == 2 {
            131
        } else {
            11
        }
    } else if t == 1 {
        if k == 0 {
            35
        } else if k == 1 {
            133
        } else if k == 2 {
            137
        } else {
            13
        }
    } else if t == 2 {
        if k == 0 {
            49
        } else if k == 1 {
            193
        } else if k == 2 {
            133
        } else {
            69
        }
    } else if t == 3 {
        if k == 0 {
            13
        } else if k == 1 {
            145
        } else if k == 2 {
            193
        } else {
            81
        }
    } else if t == 4 {
        if k == 0 {
            11
        } else if k == 1 {
            161
        } else if k == 2 {
            145
        } else {
            49
        }
    } else {
        if k == 0 {
            81
        } else if k == 1 {
            131
        } else if k == 2 {
            161
        } else {
            35
        }
    }
}

/// How far a face lies from its cube's corner.
spec fn face_low(t: int, k: int) -> (int, int, int) {
    if k != 0 {
        (0, 0, 0)
    } else if t == 0 || t == 5 {
        (1, 0, 0)
    } else if t == 1 || t == 2 {
        (0, 1, 0)
    } else {
        (0, 0, 1)
    }
}

#[verifier::spinoff_prover]
#[verifier::rlimit(60)]
proof fn lemma_face_shape(x: int, y: int, z: int, t: int, k: int)
    requires
        0 <= t < 6,
        0 <= k < 4,
    ensures
        ({
            let (p, q, r) = (
                face_point(x, y, z, t, k, 0),
                face_point(x, y, z, t, k, 1),
                face_point(x, y, z, t, k, 2),
            );
            let low = face_low(t, k);
            &&& p != q && q != r && p != r
            &&& lowest(p, q, r) == (x + low.0, y + low.1, z + low.2)
            &&& shape(p, q, r) == face_shape(t, k)
        }),
{
    assert(t == 0 || t == 1 || t == 2 || t == 3 || t == 4 || t == 5);
    assert(k == 0 || k == 1 || k == 2 || k == 3);
}

/// A face belongs to two tetrahedra and no others: one with the same points is
/// the same face, or the one on the other side.
pub proof fn lemma_face_owners(
    x: int,
    y: int,
    z: int,
    t: int,
    k: int,
    u: int,
    v: int,
    w: int,
    s: int,
    m: int,
)
    requires
        0 <= t < 6,
        0 <= k < 4,
        0 <= s < 6,
        0 <= m < 4,
        same_face(x, y, z, t, k, u, v, w, s, m),
    ensures
        (u, v, w) == (x, y, z) && s == t && m == k || (u, v, w) == mate_cube(x, y, z, t, k) && s
            == mate(t, k) && m == mate_face(k),
{
    lemma_face_shape(x, y, z, t, k);
    lemma_face_shape(u, v, w, s, m);
    let (p, q, r) = (
        face_point(x, y, z, t, k, 0),
        face_point(x, y, z, t, k, 1),
        face_point(x, y, z, t, k, 2),
    );
    let (a, b, c) = (
        face_point(u, v, w, s, m, 0),
        face_point(u, v, w, s, m, 1),
        face_point(u, v, w, s, m, 2),
    );
    assert(lowest(p, q, r) == lowest(a, b, c));
    assert(shape(p, q, r) == shape(a, b, c));
    lemma_shapes_pair(t, k, s, m);
}

proof fn lemma_shapes_pair(t: int, k: int, s: int, m: int)
    requires
        0 <= t < 6,
        0 <= k < 4,
        0 <= s < 6,
        0 <= m < 4,
        face_shape(t, k) == face_shape(s, m),
    ensures
        s == t && m == k || s == mate(t, k) && m == mate_face(k),
{
    assert(t == 0 || t == 1 || t == 2 || t == 3 || t == 4 || t == 5);
    assert(s == 0 || s == 1 || s == 2 || s == 3 || s == 4 || s == 5);
    assert(k == 0 || k == 1 || k == 2 || k == 3);
    assert(m == 0 || m == 1 || m == 2 || m == 3);
}

/// A cube of the volume.
pub open spec fn in_volume(nx: int, ny: int, nz: int, x: int, y: int, z: int) -> bool {
    0 <= x < nx - 1 && 0 <= y < ny - 1 && 0 <= z < nz - 1
}

/// The sample at a point.
pub open spec fn sample_at(nx: int, ny: int, p: (int, int, int)) -> int {
    sample(nx, ny, p.0, p.1, p.2)
}

/// The samples of a tetrahedron are those at its corners, and all different.
pub(crate) proof fn lemma_tet_samples(nx: int, ny: int, nz: int, x: int, y: int, z: int, t: int)
    requires
        2 <= nx,
        2 <= ny,
        2 <= nz,
        nx * (ny * nz) <= usize::MAX,
        in_volume(nx, ny, nz, x, y, z),
        0 <= t < 6,
    ensures
        ({
            let samples = tet_samples(nx, ny, x, y, z, t);
            &&& samples.len() == 4
            &&& samples.no_duplicates()
            &&& forall|i: int|
                0 <= i < 4 ==> #[trigger] samples[i] == sample_at(
                    nx,
                    ny,
                    point(x, y, z, tet(t)[i]),
                )
            &&& forall|i: int| 0 <= i < 4 ==> (#[trigger] samples[i]) < nx * (ny * nz)
        }),
{
    let samples = tet_samples(nx, ny, x, y, z, t);
    assert forall|i: int| 0 <= i < 4 implies #[trigger] samples[i] == sample_at(
        nx,
        ny,
        point(x, y, z, tet(t)[i]),
    ) && samples[i] < nx * (ny * nz) by {
        assert(0 <= tet(t)[i] < 8) by {
            assert(i == 0 || i == 1 || i == 2 || i == 3);
        }
        lemma_corner(nx, ny, nz, x, y, z, tet(t)[i]);
    }
    assert forall|i: int, j: int| 0 <= i < j < 4 implies samples[i] != samples[j] by {
        assert(i == 0 || i == 1 || i == 2);
        assert(j == 1 || j == 2 || j == 3);
        let (p, q) = (point(x, y, z, tet(t)[i]), point(x, y, z, tet(t)[j]));
        assert(p != q);
        if samples[i] == samples[j] {
            lemma_samples_differ(nx, ny, p.0, p.1, p.2, q.0, q.1, q.2);
        }
    }
}

/// One of a facet's three sides.
pub open spec fn side_at(facet: Facet, e: int) -> (Cut, Cut) {
    if e == 0 {
        (facet.a, facet.b)
    } else if e == 1 {
        (facet.b, facet.c)
    } else {
        (facet.c, facet.a)
    }
}

/// The side between the two facets across a tetrahedron: its crossings are on
/// edges that have no corner in common.
pub open spec fn diagonal(side: (Cut, Cut), p: usize, q: usize, r: usize, s: usize) -> bool {
    &&& same_side(side, (cut(p, q), cut(r, s)))
    &&& p != r && p != s && q != r && q != s
}

/// Some corners of the tetrahedron make the side a diagonal.
pub open spec fn is_diagonal(corners: Seq<usize>, side: (Cut, Cut)) -> bool {
    exists|p: usize, q: usize, r: usize, s: usize|
        {
            &&& #[trigger] diagonal(side, p, q, r, s)
            &&& corners.contains(p) && corners.contains(q) && corners.contains(r)
                && corners.contains(s)
            &&& p != q && r != s
        }
}

/// A side of a tetrahedron's facets crosses one of its faces, or is the diagonal
/// that both of them have.
#[verifier::rlimit(100)]
#[verifier::spinoff_prover]
proof fn lemma_side_kinds(corners: Seq<usize>, wet: Seq<bool>, m: int, e: int)
    requires
        corners.len() == 4,
        wet.len() == 4,
        corners.no_duplicates(),
        0 <= m < facets(corners, wet).len(),
        0 <= e < 3,
    ensures
        ({
            let side = side_at(facets(corners, wet)[m], e);
            ||| exists|k: int|
                0 <= k < 4 && #[trigger] face_mixed(wet, k) && same_side(
                    side,
                    face_side(corners, wet, k),
                )
            ||| sides(facets(corners, wet), side) == 2 && is_diagonal(corners, side)
        }),
{
    reveal_with_fuel(picked, 5);
    reveal_with_fuel(sides, 3);
    let (p, q, r, s) = (corners[0], corners[1], corners[2], corners[3]);
    assert(p != q && p != r && p != s && q != r && q != s && r != s);
    let f = facets(corners, wet);
    let side = side_at(f[m], e);
    if f.len() == 1 {
        assert(f.drop_last() =~= Seq::empty());
    } else {
        assert(f.drop_last() =~= seq![f[0]]);
        assert(seq![f[0]].drop_last() =~= Seq::empty());
    }
    let crossed = exists|k: int|
        0 <= k < 4 && #[trigger] face_mixed(wet, k) && same_side(side, face_side(corners, wet, k));
    if !crossed {
        assert(!(face_mixed(wet, 0) && same_side(side, face_side(corners, wet, 0))));
        assert(!(face_mixed(wet, 1) && same_side(side, face_side(corners, wet, 1))));
        assert(!(face_mixed(wet, 2) && same_side(side, face_side(corners, wet, 2))));
        assert(!(face_mixed(wet, 3) && same_side(side, face_side(corners, wet, 3))));
        let ins = picked(corners, wet, true, 4);
        let outs = picked(corners, wet, false, 4);
        assert(f.len() == 2);
        assert(ins.len() == 2);
        assert(same_side(side, (cut(ins[0], outs[1]), cut(ins[1], outs[0]))));
        assert(diagonal(side, ins[0], outs[1], ins[1], outs[0]));
        assert(corners.contains(p) && corners.contains(q) && corners.contains(r)
            && corners.contains(s));
    }
}

proof fn lemma_same_side_chains(a: (Cut, Cut), b: (Cut, Cut), c: (Cut, Cut))
    requires
        same_side(a, b),
        same_side(b, c),
    ensures
        same_side(a, c),
        same_side(b, a),
{
}

/// Counting a side counts it the same however it is written.
proof fn lemma_sides_respect(f: Seq<Facet>, a: (Cut, Cut), b: (Cut, Cut))
    requires
        same_side(a, b),
    ensures
        sides(f, a) == sides(f, b),
    decreases f.len(),
{
    if f.len() > 0 {
        lemma_sides_respect(f.drop_last(), a, b);
    }
}

/// A side that is counted is a side of some facet.
proof fn lemma_counted(f: Seq<Facet>, side: (Cut, Cut)) -> (found: (int, int))
    requires
        sides(f, side) > 0,
    ensures
        0 <= found.0 < f.len(),
        0 <= found.1 < 3,
        same_side(side_at(f[found.0], found.1), side),
    decreases f.len(),
{
    let last = f.last();
    if sides_of(last, side) > 0 {
        let m = f.len() - 1;
        if same_side((last.a, last.b), side) {
            (m, 0)
        } else if same_side((last.b, last.c), side) {
            (m, 1)
        } else {
            (m, 2)
        }
    } else {
        lemma_counted(f.drop_last(), side)
    }
}

proof fn lemma_sides_nonnegative(f: Seq<Facet>, side: (Cut, Cut))
    ensures
        sides(f, side) >= 0,
    decreases f.len(),
{
    if f.len() > 0 {
        lemma_sides_nonnegative(f.drop_last(), side);
    }
}

proof fn lemma_sides_join(f: Seq<Facet>, g: Seq<Facet>, side: (Cut, Cut))
    ensures
        sides(f + g, side) == sides(f, side) + sides(g, side),
    decreases g.len(),
{
    if g.len() == 0 {
        assert(f + g =~= f);
    } else {
        lemma_sides_join(f, g.drop_last(), side);
        assert((f + g).drop_last() =~= f + g.drop_last());
        assert((f + g).last() == g.last());
    }
}

/// A side across three samples says which three they are.
proof fn lemma_crossing_tells(
    p: usize,
    q: usize,
    r: usize,
    wp: bool,
    wq: bool,
    wr: bool,
    a: usize,
    b: usize,
    c: usize,
    wa: bool,
    wb: bool,
    wc: bool,
)
    requires
        p != q && q != r && p != r,
        a != b && b != c && a != c,
        same_side(crossing(p, q, r, wp, wq, wr), crossing(a, b, c, wa, wb, wc)),
    ensures
        among(p, q, r, a, b, c),
{
}

/// And the three samples say which side it is.
proof fn lemma_crossing_told(wet: Seq<bool>, p: usize, q: usize, r: usize, a: usize, b: usize, c: usize)
    requires
        p != q && q != r && p != r,
        a != b && b != c && a != c,
        among(p, q, r, a, b, c),
        mixed(wet[p as int], wet[q as int], wet[r as int]),
    ensures
        mixed(wet[a as int], wet[b as int], wet[c as int]),
        same_side(
            crossing(p, q, r, wet[p as int], wet[q as int], wet[r as int]),
            crossing(a, b, c, wet[a as int], wet[b as int], wet[c as int]),
        ),
{
}

/// A side across a face shares a corner; a diagonal does not.
proof fn lemma_crossing_is_no_diagonal(
    p: usize,
    q: usize,
    r: usize,
    wp: bool,
    wq: bool,
    wr: bool,
    side: (Cut, Cut),
    a: usize,
    b: usize,
    c: usize,
    d: usize,
)
    requires
        same_side(side, crossing(p, q, r, wp, wq, wr)),
    ensures
        !diagonal(side, a, b, c, d),
{
}

/// How often tetrahedron `s` of the cube at `(u, v, w)` is this one.
pub open spec fn is_at(
    u: int,
    v: int,
    w: int,
    s: int,
    x: int,
    y: int,
    z: int,
    t: int,
) -> int {
    if u == x && v == y && w == z && s == t {
        1
    } else {
        0
    }
}

/// A side across a face is a side of the two tetrahedra that have the face, once
/// each, and of no other.
#[verifier::spinoff_prover]
proof fn lemma_crossing_count(
    nx: int,
    ny: int,
    nz: int,
    wet: Seq<bool>,
    x: int,
    y: int,
    z: int,
    t: int,
    k: int,
    u: int,
    v: int,
    w: int,
    s: int,
)
    requires
        volume(nx, ny, nz, wet.len() as int),
        wet.len() <= usize::MAX,
        in_volume(nx, ny, nz, x, y, z),
        0 <= t < 6,
        0 <= k < 4,
        face_mixed(wet_at(wet, tet_samples(nx, ny, x, y, z, t)), k),
        in_volume(nx, ny, nz, u, v, w),
        0 <= s < 6,
    ensures
        ({
            let samples = tet_samples(nx, ny, x, y, z, t);
            let side = face_side(samples, wet_at(wet, samples), k);
            let (a, b, c) = mate_cube(x, y, z, t, k);
            sides(tet_facets(nx, ny, wet, u, v, w, s), side) == is_at(u, v, w, s, x, y, z, t)
                + is_at(u, v, w, s, a, b, c, mate(t, k))
        }),
{
    let samples = tet_samples(nx, ny, x, y, z, t);
    let flags = wet_at(wet, samples);
    let side = face_side(samples, flags, k);
    let others = tet_samples(nx, ny, u, v, w, s);
    let oflags = wet_at(wet, others);
    let f = tet_facets(nx, ny, wet, u, v, w, s);
    let (a, b, c) = mate_cube(x, y, z, t, k);
    let here = u == x && v == y && w == z && s == t;
    let there = u == a && v == b && w == c && s == mate(t, k);
    assert(!(here && there)) by {
        assert(t == 0 || t == 1 || t == 2 || t == 3 || t == 4 || t == 5);
        assert(k == 0 || k == 1 || k == 2 || k == 3);
    }
    assert(samples.len() == 4 && samples.no_duplicates() && others.len() == 4
        && others.no_duplicates()) by {
        lemma_tet_samples(nx, ny, nz, x, y, z, t);
        lemma_tet_samples(nx, ny, nz, u, v, w, s);
    }
    if here {
        assert(sides(f, side) == 1) by {
            lemma_one_side_per_face(samples, flags, k);
        }
    } else if there {
        let m = mate_face(k);
        assert(among(
            samples[other(k, 0)],
            samples[other(k, 1)],
            samples[other(k, 2)],
            others[other(m, 0)],
            others[other(m, 1)],
            others[other(m, 2)],
        )) by {
            lemma_mates_share_a_face(x, y, z, t, k);
            lemma_points_to_samples(nx, ny, nz, x, y, z, t, k, u, v, w, s, m);
        }
        assert(sides(f, side) == 1) by {
            lemma_shared_side(wet, samples, others, k, m);
        }
    } else {
        assert(sides(f, side) == 0) by {
            lemma_sides_nonnegative(f, side);
            if sides(f, side) > 0 {
                let m = lemma_side_found(
                    others,
                    oflags,
                    samples[other(k, 0)],
                    samples[other(k, 1)],
                    samples[other(k, 2)],
                    flags[other(k, 0)],
                    flags[other(k, 1)],
                    flags[other(k, 2)],
                );
                lemma_samples_to_points(nx, ny, nz, x, y, z, t, k, u, v, w, s, m);
                lemma_face_owners(x, y, z, t, k, u, v, w, s, m);
            }
        }
    }
}

/// Two tetrahedra with a crossed face in common have its side once each.
proof fn lemma_shared_side(wet: Seq<bool>, a: Seq<usize>, b: Seq<usize>, k: int, m: int)
    requires
        a.len() == 4,
        b.len() == 4,
        a.no_duplicates(),
        b.no_duplicates(),
        0 <= k < 4,
        0 <= m < 4,
        face_mixed(wet_at(wet, a), k),
        among(
            a[other(k, 0)],
            a[other(k, 1)],
            a[other(k, 2)],
            b[other(m, 0)],
            b[other(m, 1)],
            b[other(m, 2)],
        ),
    ensures
        sides(facets(b, wet_at(wet, b)), face_side(a, wet_at(wet, a), k)) == 1,
{
    let (p, q, r) = (a[other(k, 0)], a[other(k, 1)], a[other(k, 2)]);
    let (d, e, g) = (b[other(m, 0)], b[other(m, 1)], b[other(m, 2)]);
    lemma_crossing_told(wet, p, q, r, d, e, g);
    lemma_one_side_per_face(b, wet_at(wet, b), m);
    lemma_sides_respect(
        facets(b, wet_at(wet, b)),
        face_side(a, wet_at(wet, a), k),
        face_side(b, wet_at(wet, b), m),
    );
}

/// A tetrahedron with a side across three samples has a face with all of them.
proof fn lemma_side_found(
    corners: Seq<usize>,
    wet: Seq<bool>,
    p: usize,
    q: usize,
    r: usize,
    wp: bool,
    wq: bool,
    wr: bool,
) -> (m: int)
    requires
        corners.len() == 4,
        wet.len() == 4,
        corners.no_duplicates(),
        p != q && q != r && p != r,
        sides(facets(corners, wet), crossing(p, q, r, wp, wq, wr)) > 0,
    ensures
        0 <= m < 4,
        among(p, q, r, corners[other(m, 0)], corners[other(m, 1)], corners[other(m, 2)]),
{
    let side = crossing(p, q, r, wp, wq, wr);
    let f = facets(corners, wet);
    let (at, e) = lemma_counted(f, side);
    let found = side_at(f[at], e);
    lemma_side_kinds(corners, wet, at, e);
    lemma_same_side_chains(found, side, side);
    if is_diagonal(corners, found) {
        let (d1, d2, d3, d4) = choose|d1: usize, d2: usize, d3: usize, d4: usize|
            #[trigger]
            diagonal(found, d1, d2, d3, d4) && corners.contains(d1) && corners.contains(d2)
                && corners.contains(d3) && corners.contains(d4) && d1 != d2 && d3 != d4;
        lemma_crossing_is_no_diagonal(p, q, r, wp, wq, wr, found, d1, d2, d3, d4);
    }
    let m = choose|m: int|
        0 <= m < 4 && #[trigger] face_mixed(wet, m) && same_side(
            found,
            face_side(corners, wet, m),
        );
    lemma_same_side_chains(side, found, face_side(corners, wet, m));
    lemma_crossing_tells(
        p,
        q,
        r,
        wp,
        wq,
        wr,
        corners[other(m, 0)],
        corners[other(m, 1)],
        corners[other(m, 2)],
        wet[other(m, 0)],
        wet[other(m, 1)],
        wet[other(m, 2)],
    );
    m
}

/// A tetrahedron with a diagonal has all its corners.
proof fn lemma_diagonal_found(
    corners: Seq<usize>,
    wet: Seq<bool>,
    side: (Cut, Cut),
    p: usize,
    q: usize,
    r: usize,
    l: usize,
)
    requires
        corners.len() == 4,
        wet.len() == 4,
        corners.no_duplicates(),
        diagonal(side, p, q, r, l),
        sides(facets(corners, wet), side) > 0,
    ensures
        corners.contains(p),
        corners.contains(q),
        corners.contains(r),
        corners.contains(l),
{
    let f = facets(corners, wet);
    let (at, e) = lemma_counted(f, side);
    let found = side_at(f[at], e);
    lemma_side_kinds(corners, wet, at, e);
    lemma_same_side_chains(found, side, (cut(p, q), cut(r, l)));
    assert(diagonal(found, p, q, r, l));
    if is_diagonal(corners, found) {
        let (d1, d2, d3, d4) = choose|d1: usize, d2: usize, d3: usize, d4: usize|
            #[trigger]
            diagonal(found, d1, d2, d3, d4) && corners.contains(d1) && corners.contains(d2)
                && corners.contains(d3) && corners.contains(d4) && d1 != d2 && d3 != d4;
        lemma_same_side_chains(found, (cut(p, q), cut(r, l)), (cut(p, q), cut(r, l)));
        lemma_same_side_chains((cut(p, q), cut(r, l)), found, (cut(d1, d2), cut(d3, d4)));
    } else {
        let m = choose|m: int|
            0 <= m < 4 && #[trigger] face_mixed(wet, m) && same_side(
                found,
                face_side(corners, wet, m),
            );
        lemma_crossing_is_no_diagonal(
            corners[other(m, 0)],
            corners[other(m, 1)],
            corners[other(m, 2)],
            wet[other(m, 0)],
            wet[other(m, 1)],
            wet[other(m, 2)],
            found,
            p,
            q,
            r,
            l,
        );
    }
}

proof fn lemma_points_to_samples(
    nx: int,
    ny: int,
    nz: int,
    x: int,
    y: int,
    z: int,
    t: int,
    k: int,
    u: int,
    v: int,
    w: int,
    s: int,
    m: int,
)
    requires
        2 <= nx,
        2 <= ny,
        2 <= nz,
        nx * (ny * nz) <= usize::MAX,
        in_volume(nx, ny, nz, x, y, z),
        in_volume(nx, ny, nz, u, v, w),
        0 <= t < 6,
        0 <= s < 6,
        0 <= k < 4,
        0 <= m < 4,
        same_face(x, y, z, t, k, u, v, w, s, m),
    ensures
        ({
            let (p, q) = (tet_samples(nx, ny, x, y, z, t), tet_samples(nx, ny, u, v, w, s));
            among(
                p[other(k, 0)],
                p[other(k, 1)],
                p[other(k, 2)],
                q[other(m, 0)],
                q[other(m, 1)],
                q[other(m, 2)],
            )
        }),
{
    lemma_tet_samples(nx, ny, nz, x, y, z, t);
    lemma_tet_samples(nx, ny, nz, u, v, w, s);
}

proof fn lemma_samples_to_points(
    nx: int,
    ny: int,
    nz: int,
    x: int,
    y: int,
    z: int,
    t: int,
    k: int,
    u: int,
    v: int,
    w: int,
    s: int,
    m: int,
)
    requires
        2 <= nx,
        2 <= ny,
        2 <= nz,
        nx * (ny * nz) <= usize::MAX,
        in_volume(nx, ny, nz, x, y, z),
        in_volume(nx, ny, nz, u, v, w),
        0 <= t < 6,
        0 <= s < 6,
        0 <= k < 4,
        0 <= m < 4,
        ({
            let (p, q) = (tet_samples(nx, ny, x, y, z, t), tet_samples(nx, ny, u, v, w, s));
            among(
                p[other(k, 0)],
                p[other(k, 1)],
                p[other(k, 2)],
                q[other(m, 0)],
                q[other(m, 1)],
                q[other(m, 2)],
            )
        }),
    ensures
        same_face(x, y, z, t, k, u, v, w, s, m),
{
    lemma_tet_samples(nx, ny, nz, x, y, z, t);
    lemma_tet_samples(nx, ny, nz, u, v, w, s);
    let (p, q) = (tet_samples(nx, ny, x, y, z, t), tet_samples(nx, ny, u, v, w, s));
    assert forall|i: int, j: int|
        0 <= i < 3 && 0 <= j < 3 && #[trigger] p[other(k, i)] == #[trigger] q[other(
            m,
            j,
        )] implies face_point(x, y, z, t, k, i) == face_point(u, v, w, s, m, j) by {
        let (a, b) = (face_point(x, y, z, t, k, i), face_point(u, v, w, s, m, j));
        assert(p[other(k, i)] == sample_at(nx, ny, a));
        assert(q[other(m, j)] == sample_at(nx, ny, b));
        lemma_samples_differ(nx, ny, a.0, a.1, a.2, b.0, b.1, b.2);
    }
}

/// A diagonal is a side of its own tetrahedron, twice, and of no other.
#[verifier::spinoff_prover]
proof fn lemma_diagonal_count(
    nx: int,
    ny: int,
    nz: int,
    wet: Seq<bool>,
    x: int,
    y: int,
    z: int,
    t: int,
    side: (Cut, Cut),
    u: int,
    v: int,
    w: int,
    s: int,
)
    requires
        volume(nx, ny, nz, wet.len() as int),
        wet.len() <= usize::MAX,
        in_volume(nx, ny, nz, x, y, z),
        0 <= t < 6,
        is_diagonal(tet_samples(nx, ny, x, y, z, t), side),
        sides(tet_facets(nx, ny, wet, x, y, z, t), side) == 2,
        in_volume(nx, ny, nz, u, v, w),
        0 <= s < 6,
    ensures
        sides(tet_facets(nx, ny, wet, u, v, w, s), side) == 2 * is_at(u, v, w, s, x, y, z, t),
{
    let samples = tet_samples(nx, ny, x, y, z, t);
    let others = tet_samples(nx, ny, u, v, w, s);
    let f = tet_facets(nx, ny, wet, u, v, w, s);
    if !(u == x && v == y && w == z && s == t) {
        assert(sides(f, side) == 0) by {
            lemma_sides_nonnegative(f, side);
            if sides(f, side) > 0 {
                let (p, q, r, l) = choose|p: usize, q: usize, r: usize, l: usize|
                    #[trigger]
                    diagonal(side, p, q, r, l) && samples.contains(p) && samples.contains(q)
                        && samples.contains(r) && samples.contains(l) && p != q && r != l;
                assert(others.len() == 4 && others.no_duplicates()) by {
                    lemma_tet_samples(nx, ny, nz, u, v, w, s);
                }
                lemma_diagonal_found(others, wet_at(wet, others), side, p, q, r, l);
                lemma_four_tell(nx, ny, nz, x, y, z, t, u, v, w, s, p, q, r, l);
            }
        }
    }
}

/// Four samples belong to one tetrahedron at most.
proof fn lemma_four_tell(
    nx: int,
    ny: int,
    nz: int,
    x: int,
    y: int,
    z: int,
    t: int,
    u: int,
    v: int,
    w: int,
    s: int,
    p: usize,
    q: usize,
    r: usize,
    l: usize,
)
    requires
        2 <= nx,
        2 <= ny,
        2 <= nz,
        nx * (ny * nz) <= usize::MAX,
        in_volume(nx, ny, nz, x, y, z),
        in_volume(nx, ny, nz, u, v, w),
        0 <= t < 6,
        0 <= s < 6,
        p != q && p != r && p != l && q != r && q != l && r != l,
        tet_samples(nx, ny, x, y, z, t).contains(p),
        tet_samples(nx, ny, x, y, z, t).contains(q),
        tet_samples(nx, ny, x, y, z, t).contains(r),
        tet_samples(nx, ny, x, y, z, t).contains(l),
        tet_samples(nx, ny, u, v, w, s).contains(p),
        tet_samples(nx, ny, u, v, w, s).contains(q),
        tet_samples(nx, ny, u, v, w, s).contains(r),
        tet_samples(nx, ny, u, v, w, s).contains(l),
    ensures
        (u, v, w) == (x, y, z) && s == t,
{
    let a = tet_samples(nx, ny, x, y, z, t);
    let b = tet_samples(nx, ny, u, v, w, s);
    assert(a.len() == 4 && a.no_duplicates() && b.len() == 4 && b.no_duplicates()) by {
        lemma_tet_samples(nx, ny, nz, x, y, z, t);
        lemma_tet_samples(nx, ny, nz, u, v, w, s);
    }
    assert forall|i: int| 0 <= i < 4 implies b.contains(#[trigger] a[i]) by {
        lemma_four_are_all(a, p, q, r, l, i);
    }
    let same = u == x && v == y && w == z && s == t;
    assert(same || s == mate(t, 1)) by {
        let m = lemma_face_found(a, b, 1);
        lemma_samples_to_points(nx, ny, nz, x, y, z, t, 1, u, v, w, s, m);
        lemma_face_owners(x, y, z, t, 1, u, v, w, s, m);
    }
    assert(same || s == mate(t, 2)) by {
        let m = lemma_face_found(a, b, 2);
        lemma_samples_to_points(nx, ny, nz, x, y, z, t, 2, u, v, w, s, m);
        lemma_face_owners(x, y, z, t, 2, u, v, w, s, m);
    }
    assert(mate(t, 1) != mate(t, 2)) by {
        assert(t == 0 || t == 1 || t == 2 || t == 3 || t == 4 || t == 5);
    }
}

proof fn lemma_four_are_all(a: Seq<usize>, p: usize, q: usize, r: usize, l: usize, i: int)
    requires
        a.len() == 4,
        p != q && p != r && p != l && q != r && q != l && r != l,
        a.contains(p),
        a.contains(q),
        a.contains(r),
        a.contains(l),
        0 <= i < 4,
    ensures
        a[i] == p || a[i] == q || a[i] == r || a[i] == l,
{
    let ip = choose|j: int| 0 <= j < 4 && a[j] == p;
    let iq = choose|j: int| 0 <= j < 4 && a[j] == q;
    let ir = choose|j: int| 0 <= j < 4 && a[j] == r;
    let il = choose|j: int| 0 <= j < 4 && a[j] == l;
    assert(i == ip || i == iq || i == ir || i == il);
}

/// The face of one tetrahedron among the corners of another that has them all.
proof fn lemma_face_found(a: Seq<usize>, b: Seq<usize>, k: int) -> (m: int)
    requires
        a.len() == 4,
        b.len() == 4,
        a.no_duplicates(),
        b.no_duplicates(),
        0 <= k < 4,
        forall|i: int| 0 <= i < 4 ==> b.contains(#[trigger] a[i]),
    ensures
        0 <= m < 4,
        among(
            a[other(k, 0)],
            a[other(k, 1)],
            a[other(k, 2)],
            b[other(m, 0)],
            b[other(m, 1)],
            b[other(m, 2)],
        ),
{
    assert(b.contains(a[k]));
    let m = choose|j: int| 0 <= j < 4 && b[j] == a[k];
    assert forall|i: int| 0 <= i < 3 implies {
        ||| #[trigger] a[other(k, i)] == b[other(m, 0)]
        ||| a[other(k, i)] == b[other(m, 1)]
        ||| a[other(k, i)] == b[other(m, 2)]
    } by {
        assert(b.contains(a[other(k, i)]));
        let j = choose|j: int| 0 <= j < 4 && b[j] == a[other(k, i)];
        assert(a[other(k, i)] != a[k]);
        assert(j != m);
        assert(j == other(m, 0) || j == other(m, 1) || j == other(m, 2));
    }
    m
}

/// A count over the first tetrahedra of a cube, where the count of each is known
/// from two places.
proof fn lemma_cube_count(
    nx: int,
    ny: int,
    wet: Seq<bool>,
    side: (Cut, Cut),
    x: int,
    y: int,
    z: int,
    n: int,
    g: spec_fn(int, int, int, int) -> int,
)
    requires
        0 <= n <= 6,
        forall|t: int|
            0 <= t < 6 ==> sides(#[trigger] tet_facets(nx, ny, wet, x, y, z, t), side) == g(
                x,
                y,
                z,
                t,
            ),
    ensures
        sides(cube_facets(nx, ny, wet, x, y, z, n), side) == cube_sum(g, x, y, z, n),
    decreases n,
{
    if n > 0 {
        lemma_cube_count(nx, ny, wet, side, x, y, z, n - 1, g);
        lemma_sides_join(
            cube_facets(nx, ny, wet, x, y, z, n - 1),
            tet_facets(nx, ny, wet, x, y, z, n - 1),
            side,
        );
    }
}

spec fn cube_sum(g: spec_fn(int, int, int, int) -> int, x: int, y: int, z: int, n: int) -> int
    decreases n,
{
    if n <= 0 {
        0
    } else {
        cube_sum(g, x, y, z, n - 1) + g(x, y, z, n - 1)
    }
}

spec fn row_sum(g: spec_fn(int, int, int, int) -> int, y: int, z: int, n: int) -> int
    decreases n,
{
    if n <= 0 {
        0
    } else {
        row_sum(g, y, z, n - 1) + cube_sum(g, n - 1, y, z, 6)
    }
}

spec fn slice_sum(g: spec_fn(int, int, int, int) -> int, nx: int, z: int, n: int) -> int
    decreases n,
{
    if n <= 0 {
        0
    } else {
        slice_sum(g, nx, z, n - 1) + row_sum(g, n - 1, z, nx - 1)
    }
}

spec fn mesh_sum(g: spec_fn(int, int, int, int) -> int, nx: int, ny: int, n: int) -> int
    decreases n,
{
    if n <= 0 {
        0
    } else {
        mesh_sum(g, nx, ny, n - 1) + slice_sum(g, nx, n - 1, ny - 1)
    }
}

/// What `g` says of every tetrahedron of the volume is how often it has the
/// side.
spec fn tells(
    nx: int,
    ny: int,
    nz: int,
    wet: Seq<bool>,
    side: (Cut, Cut),
    g: spec_fn(int, int, int, int) -> int,
) -> bool {
    forall|x: int, y: int, z: int, t: int|
        in_volume(nx, ny, nz, x, y, z) && 0 <= t < 6 ==> sides(
            #[trigger] tet_facets(nx, ny, wet, x, y, z, t),
            side,
        ) == g(x, y, z, t)
}

proof fn lemma_row_count(
    nx: int,
    ny: int,
    nz: int,
    wet: Seq<bool>,
    side: (Cut, Cut),
    y: int,
    z: int,
    n: int,
    g: spec_fn(int, int, int, int) -> int,
)
    requires
        tells(nx, ny, nz, wet, side, g),
        0 <= y < ny - 1,
        0 <= z < nz - 1,
        0 <= n <= nx - 1,
    ensures
        sides(row_facets(nx, ny, wet, y, z, n), side) == row_sum(g, y, z, n),
    decreases n,
{
    if n > 0 {
        lemma_row_count(nx, ny, nz, wet, side, y, z, n - 1, g);
        lemma_cube_count(nx, ny, wet, side, n - 1, y, z, 6, g);
        lemma_sides_join(
            row_facets(nx, ny, wet, y, z, n - 1),
            cube_facets(nx, ny, wet, n - 1, y, z, 6),
            side,
        );
    }
}

proof fn lemma_slice_count(
    nx: int,
    ny: int,
    nz: int,
    wet: Seq<bool>,
    side: (Cut, Cut),
    z: int,
    n: int,
    g: spec_fn(int, int, int, int) -> int,
)
    requires
        tells(nx, ny, nz, wet, side, g),
        2 <= nx,
        0 <= z < nz - 1,
        0 <= n <= ny - 1,
    ensures
        sides(slice_facets(nx, ny, wet, z, n), side) == slice_sum(g, nx, z, n),
    decreases n,
{
    if n > 0 {
        lemma_slice_count(nx, ny, nz, wet, side, z, n - 1, g);
        lemma_row_count(nx, ny, nz, wet, side, n - 1, z, nx - 1, g);
        lemma_sides_join(
            slice_facets(nx, ny, wet, z, n - 1),
            row_facets(nx, ny, wet, n - 1, z, nx - 1),
            side,
        );
    }
}

proof fn lemma_mesh_count(
    nx: int,
    ny: int,
    nz: int,
    wet: Seq<bool>,
    side: (Cut, Cut),
    n: int,
    g: spec_fn(int, int, int, int) -> int,
)
    requires
        tells(nx, ny, nz, wet, side, g),
        2 <= nx,
        2 <= ny,
        0 <= n <= nz - 1,
    ensures
        sides(mesh_facets(nx, ny, wet, n), side) == mesh_sum(g, nx, ny, n),
    decreases n,
{
    if n > 0 {
        lemma_mesh_count(nx, ny, nz, wet, side, n - 1, g);
        lemma_slice_count(nx, ny, nz, wet, side, n - 1, ny - 1, g);
        lemma_sides_join(
            mesh_facets(nx, ny, wet, n - 1),
            slice_facets(nx, ny, wet, n - 1, ny - 1),
            side,
        );
    }
}

/// One tetrahedron of the volume counts once over the whole of it.
proof fn lemma_two_places(
    g: spec_fn(int, int, int, int) -> int,
    nx: int,
    ny: int,
    nz: int,
    x: int,
    y: int,
    z: int,
    t: int,
    u: int,
    v: int,
    w: int,
    s: int,
)
    requires
        in_volume(nx, ny, nz, x, y, z),
        in_volume(nx, ny, nz, u, v, w),
        0 <= t < 6,
        0 <= s < 6,
        forall|a: int, b: int, c: int, d: int| #[trigger]
            g(a, b, c, d) == is_at(a, b, c, d, x, y, z, t) + is_at(a, b, c, d, u, v, w, s),
    ensures
        mesh_sum(g, nx, ny, nz - 1) == 2,
{
    lemma_mesh_places(g, nx, ny, nz - 1, x, y, z, t, u, v, w, s);
}

spec fn upto(a: int, n: int) -> int {
    if a < n {
        1
    } else {
        0
    }
}

proof fn lemma_cube_places(
    g: spec_fn(int, int, int, int) -> int,
    a: int,
    b: int,
    c: int,
    n: int,
    x: int,
    y: int,
    z: int,
    t: int,
    u: int,
    v: int,
    w: int,
    s: int,
)
    requires
        0 <= n,
        0 <= t,
        0 <= s,
        forall|a: int, b: int, c: int, d: int| #[trigger]
            g(a, b, c, d) == is_at(a, b, c, d, x, y, z, t) + is_at(a, b, c, d, u, v, w, s),
    ensures
        cube_sum(g, a, b, c, n) == (if a == x && b == y && c == z {
            upto(t, n)
        } else {
            0
        }) + (if a == u && b == v && c == w {
            upto(s, n)
        } else {
            0
        }),
    decreases n,
{
    if n > 0 {
        lemma_cube_places(g, a, b, c, n - 1, x, y, z, t, u, v, w, s);
        assert(g(a, b, c, n - 1) == is_at(a, b, c, n - 1, x, y, z, t) + is_at(
            a,
            b,
            c,
            n - 1,
            u,
            v,
            w,
            s,
        ));
    }
}

proof fn lemma_row_places(
    g: spec_fn(int, int, int, int) -> int,
    b: int,
    c: int,
    n: int,
    x: int,
    y: int,
    z: int,
    t: int,
    u: int,
    v: int,
    w: int,
    s: int,
)
    requires
        0 <= n,
        0 <= t < 6,
        0 <= s < 6,
        0 <= x,
        0 <= u,
        forall|a: int, b: int, c: int, d: int| #[trigger]
            g(a, b, c, d) == is_at(a, b, c, d, x, y, z, t) + is_at(a, b, c, d, u, v, w, s),
    ensures
        row_sum(g, b, c, n) == (if b == y && c == z {
            upto(x, n)
        } else {
            0
        }) + (if b == v && c == w {
            upto(u, n)
        } else {
            0
        }),
    decreases n,
{
    if n > 0 {
        lemma_row_places(g, b, c, n - 1, x, y, z, t, u, v, w, s);
        lemma_cube_places(g, n - 1, b, c, 6, x, y, z, t, u, v, w, s);
    }
}

proof fn lemma_slice_places(
    g: spec_fn(int, int, int, int) -> int,
    nx: int,
    c: int,
    n: int,
    x: int,
    y: int,
    z: int,
    t: int,
    u: int,
    v: int,
    w: int,
    s: int,
)
    requires
        0 <= n,
        0 <= t < 6,
        0 <= s < 6,
        0 <= x < nx - 1,
        0 <= u < nx - 1,
        0 <= y,
        0 <= v,
        forall|a: int, b: int, c: int, d: int| #[trigger]
            g(a, b, c, d) == is_at(a, b, c, d, x, y, z, t) + is_at(a, b, c, d, u, v, w, s),
    ensures
        slice_sum(g, nx, c, n) == (if c == z {
            upto(y, n)
        } else {
            0
        }) + (if c == w {
            upto(v, n)
        } else {
            0
        }),
    decreases n,
{
    if n > 0 {
        lemma_slice_places(g, nx, c, n - 1, x, y, z, t, u, v, w, s);
        lemma_row_places(g, n - 1, c, nx - 1, x, y, z, t, u, v, w, s);
    }
}

proof fn lemma_mesh_places(
    g: spec_fn(int, int, int, int) -> int,
    nx: int,
    ny: int,
    n: int,
    x: int,
    y: int,
    z: int,
    t: int,
    u: int,
    v: int,
    w: int,
    s: int,
)
    requires
        0 <= n,
        0 <= t < 6,
        0 <= s < 6,
        0 <= x < nx - 1,
        0 <= u < nx - 1,
        0 <= y < ny - 1,
        0 <= v < ny - 1,
        0 <= z,
        0 <= w,
        forall|a: int, b: int, c: int, d: int| #[trigger]
            g(a, b, c, d) == is_at(a, b, c, d, x, y, z, t) + is_at(a, b, c, d, u, v, w, s),
    ensures
        mesh_sum(g, nx, ny, n) == upto(z, n) + upto(w, n),
    decreases n,
{
    if n > 0 {
        lemma_mesh_places(g, nx, ny, n - 1, x, y, z, t, u, v, w, s);
        lemma_slice_places(g, nx, n - 1, ny - 1, x, y, z, t, u, v, w, s);
    }
}

/// No sample on the border of the volume is in the water.
pub open spec fn dry_border(nx: int, ny: int, nz: int, wet: Seq<bool>) -> bool {
    forall|x: int, y: int, z: int|
        0 <= x < nx && 0 <= y < ny && 0 <= z < nz && (x == 0 || x == nx - 1 || y == 0 || y == ny - 1
            || z == 0 || z == nz - 1) ==> !wet[#[trigger] sample(nx, ny, x, y, z)]
}

/// A face on the border of the volume is not crossed.
proof fn lemma_border_face(
    nx: int,
    ny: int,
    nz: int,
    wet: Seq<bool>,
    x: int,
    y: int,
    z: int,
    t: int,
    k: int,
)
    requires
        volume(nx, ny, nz, wet.len() as int),
        wet.len() <= usize::MAX,
        dry_border(nx, ny, nz, wet),
        in_volume(nx, ny, nz, x, y, z),
        0 <= t < 6,
        0 <= k < 4,
        face_mixed(wet_at(wet, tet_samples(nx, ny, x, y, z, t)), k),
    ensures
        ({
            let (u, v, w) = mate_cube(x, y, z, t, k);
            in_volume(nx, ny, nz, u, v, w)
        }),
{
    let samples = tet_samples(nx, ny, x, y, z, t);
    let flags = wet_at(wet, samples);
    lemma_tet_samples(nx, ny, nz, x, y, z, t);
    let (u, v, w) = mate_cube(x, y, z, t, k);
    if !in_volume(nx, ny, nz, u, v, w) {
        assert forall|i: int| 0 <= i < 3 implies !(#[trigger] flags[other(k, i)]) by {
            let p = face_point(x, y, z, t, k, i);
            assert(t == 0 || t == 1 || t == 2 || t == 3 || t == 4 || t == 5);
            assert(k == 0 || k == 3);
            assert(i == 0 || i == 1 || i == 2);
            assert(samples[other(k, i)] == sample_at(nx, ny, p));
            assert(!wet[sample(nx, ny, p.0, p.1, p.2)]);
        }
        assert(!flags[other(k, 0)] && !flags[other(k, 1)] && !flags[other(k, 2)]);
    }
}

/// The surface is closed: where no water reaches the border of the volume, each
/// side of each facet is a side of exactly two of the mesh's facets. Facet `m`
/// is one of tetrahedron `t` of the cube at `(x, y, z)`, and `e` numbers its
/// sides.
pub proof fn lemma_surface_is_closed(
    nx: int,
    ny: int,
    nz: int,
    wet: Seq<bool>,
    x: int,
    y: int,
    z: int,
    t: int,
    m: int,
    e: int,
)
    requires
        volume(nx, ny, nz, wet.len() as int),
        wet.len() <= usize::MAX,
        dry_border(nx, ny, nz, wet),
        in_volume(nx, ny, nz, x, y, z),
        0 <= t < 6,
        0 <= m < tet_facets(nx, ny, wet, x, y, z, t).len(),
        0 <= e < 3,
    ensures
        sides(
            mesh_facets(nx, ny, wet, nz - 1),
            side_at(tet_facets(nx, ny, wet, x, y, z, t)[m], e),
        ) == 2,
{
    let samples = tet_samples(nx, ny, x, y, z, t);
    let flags = wet_at(wet, samples);
    let f = tet_facets(nx, ny, wet, x, y, z, t);
    let side = side_at(f[m], e);
    lemma_tet_samples(nx, ny, nz, x, y, z, t);
    lemma_side_kinds(samples, flags, m, e);
    if exists|k: int|
        0 <= k < 4 && #[trigger] face_mixed(flags, k) && same_side(
            side,
            face_side(samples, flags, k),
        ) {
        let k = choose|k: int|
            0 <= k < 4 && #[trigger] face_mixed(flags, k) && same_side(
                side,
                face_side(samples, flags, k),
            );
        let across = face_side(samples, flags, k);
        lemma_border_face(nx, ny, nz, wet, x, y, z, t, k);
        let (u, v, w) = mate_cube(x, y, z, t, k);
        let s = mate(t, k);
        let g = |a: int, b: int, c: int, d: int|
            is_at(a, b, c, d, x, y, z, t) + is_at(a, b, c, d, u, v, w, s);
        assert forall|a: int, b: int, c: int, d: int|
            in_volume(nx, ny, nz, a, b, c) && 0 <= d < 6 implies sides(
            #[trigger] tet_facets(nx, ny, wet, a, b, c, d),
            across,
        ) == g(a, b, c, d) by {
            lemma_crossing_count(nx, ny, nz, wet, x, y, z, t, k, a, b, c, d);
        }
        lemma_mesh_count(nx, ny, nz, wet, across, nz - 1, g);
        lemma_two_places(g, nx, ny, nz, x, y, z, t, u, v, w, s);
        lemma_sides_respect(mesh_facets(nx, ny, wet, nz - 1), side, across);
    } else {
        let g = |a: int, b: int, c: int, d: int|
            is_at(a, b, c, d, x, y, z, t) + is_at(a, b, c, d, x, y, z, t);
        assert forall|a: int, b: int, c: int, d: int|
            in_volume(nx, ny, nz, a, b, c) && 0 <= d < 6 implies sides(
            #[trigger] tet_facets(nx, ny, wet, a, b, c, d),
            side,
        ) == g(a, b, c, d) by {
            lemma_diagonal_count(nx, ny, nz, wet, x, y, z, t, side, a, b, c, d);
        }
        lemma_mesh_count(nx, ny, nz, wet, side, nz - 1, g);
        lemma_two_places(g, nx, ny, nz, x, y, z, t, x, y, z, t);
    }
}

/// A facet of a cube is one of a tetrahedron of it.
proof fn lemma_facet_in_cube(
    nx: int,
    ny: int,
    wet: Seq<bool>,
    x: int,
    y: int,
    z: int,
    n: int,
    i: int,
) -> (at: (int, int))
    requires
        0 <= i < cube_facets(nx, ny, wet, x, y, z, n).len(),
    ensures
        0 <= at.0 < n,
        0 <= at.1 < tet_facets(nx, ny, wet, x, y, z, at.0).len(),
        tet_facets(nx, ny, wet, x, y, z, at.0)[at.1] == cube_facets(nx, ny, wet, x, y, z, n)[i],
    decreases n,
{
    let before = cube_facets(nx, ny, wet, x, y, z, n - 1);
    if i < before.len() {
        lemma_facet_in_cube(nx, ny, wet, x, y, z, n - 1, i)
    } else {
        (n - 1, i - before.len())
    }
}

/// A facet of a row is one of a tetrahedron in it.
proof fn lemma_facet_in_row(
    nx: int,
    ny: int,
    wet: Seq<bool>,
    y: int,
    z: int,
    n: int,
    i: int,
) -> (at: (int, int, int))
    requires
        0 <= i < row_facets(nx, ny, wet, y, z, n).len(),
    ensures
        0 <= at.0 < n,
        0 <= at.1 < 6,
        0 <= at.2 < tet_facets(nx, ny, wet, at.0, y, z, at.1).len(),
        tet_facets(nx, ny, wet, at.0, y, z, at.1)[at.2] == row_facets(nx, ny, wet, y, z, n)[i],
    decreases n,
{
    let before = row_facets(nx, ny, wet, y, z, n - 1);
    if i < before.len() {
        lemma_facet_in_row(nx, ny, wet, y, z, n - 1, i)
    } else {
        let at = lemma_facet_in_cube(nx, ny, wet, n - 1, y, z, 6, i - before.len());
        (n - 1, at.0, at.1)
    }
}

/// A facet of a slice is one of a tetrahedron in it.
proof fn lemma_facet_in_slice(
    nx: int,
    ny: int,
    wet: Seq<bool>,
    z: int,
    n: int,
    i: int,
) -> (at: (int, int, int, int))
    requires
        0 <= i < slice_facets(nx, ny, wet, z, n).len(),
    ensures
        0 <= at.0 < nx - 1,
        0 <= at.1 < n,
        0 <= at.2 < 6,
        0 <= at.3 < tet_facets(nx, ny, wet, at.0, at.1, z, at.2).len(),
        tet_facets(nx, ny, wet, at.0, at.1, z, at.2)[at.3] == slice_facets(nx, ny, wet, z, n)[i],
    decreases n,
{
    let before = slice_facets(nx, ny, wet, z, n - 1);
    if i < before.len() {
        lemma_facet_in_slice(nx, ny, wet, z, n - 1, i)
    } else {
        let at = lemma_facet_in_row(nx, ny, wet, n - 1, z, nx - 1, i - before.len());
        (at.0, n - 1, at.1, at.2)
    }
}

/// A facet of the mesh is one of a tetrahedron in the volume.
pub(crate) proof fn lemma_facet_in_mesh(nx: int, ny: int, wet: Seq<bool>, n: int, i: int) -> (at: (
    int,
    int,
    int,
    int,
    int,
))
    requires
        0 <= i < mesh_facets(nx, ny, wet, n).len(),
    ensures
        0 <= at.0 < nx - 1,
        0 <= at.1 < ny - 1,
        0 <= at.2 < n,
        0 <= at.3 < 6,
        0 <= at.4 < tet_facets(nx, ny, wet, at.0, at.1, at.2, at.3).len(),
        tet_facets(nx, ny, wet, at.0, at.1, at.2, at.3)[at.4] == mesh_facets(nx, ny, wet, n)[i],
    decreases n,
{
    let before = mesh_facets(nx, ny, wet, n - 1);
    if i < before.len() {
        lemma_facet_in_mesh(nx, ny, wet, n - 1, i)
    } else {
        let at = lemma_facet_in_slice(nx, ny, wet, n - 1, ny - 1, i - before.len());
        (at.0, at.1, n - 1, at.2, at.3)
    }
}

/// The mesh has no cracks and no overlaps: where no water reaches the border of
/// the volume, side `e` of facet `i`, whichever they are, is a side of exactly two
/// of the mesh's facets.
pub proof fn lemma_mesh_is_closed(nx: int, ny: int, nz: int, wet: Seq<bool>, i: int, e: int)
    requires
        volume(nx, ny, nz, wet.len() as int),
        wet.len() <= usize::MAX,
        dry_border(nx, ny, nz, wet),
        0 <= i < mesh_facets(nx, ny, wet, nz - 1).len(),
        0 <= e < 3,
    ensures
        sides(
            mesh_facets(nx, ny, wet, nz - 1),
            side_at(mesh_facets(nx, ny, wet, nz - 1)[i], e),
        ) == 2,
{
    let at = lemma_facet_in_mesh(nx, ny, wet, nz - 1, i);
    lemma_surface_is_closed(nx, ny, nz, wet, at.0, at.1, at.2, at.3, at.4, e);
}

} // verus!
