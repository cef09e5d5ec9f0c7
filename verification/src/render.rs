//! What is drawn: when meshes grow, what is shown, and the fixed shapes.
use vstd::prelude::*;
use crate::gpu_fluid::GpuFluid;
use crate::num::ceil_div;
use crate::single::Single;
use crate::spray_gpu::{GpuSpray, SprayStyle};
use crate::surface_gpu::GpuSurface;

verus! {

/// The most droplets the spray mesh grows to, about 75 MB of vertices. Beyond it
/// the particle diagnostic shows every few particles rather than all.
pub const MAX_DROPLETS: u32 = 131072;

/// The fewest triangles a water mesh has room for.
pub const MIN_TRIANGLES: u32 = 16384;

/// Droplets a spray mesh starts with room for.
pub const FIRST_DROPLETS: u32 = 4096;

/// Particles with more spray than this are drawn.
pub const VISIBLE_SPRAY: u32 = 0x3dcc_cccd;

/// Quads along each side of the reef's mesh.
pub const REEF_QUADS: u32 = 48;

/// Room for a water mesh whose first surface has this many triangles: a quarter
/// more, and at least a fixed number.
pub fn first_capacity(triangles: u32) -> (capacity: u32)
    requires
        5 * triangles <= u32::MAX,
    ensures
        capacity == (if 5 * triangles / 4 < MIN_TRIANGLES {
            MIN_TRIANGLES as int
        } else {
            5 * triangles / 4
        }),
        capacity >= 16384,
        4 * capacity + 4 > 5 * triangles,
        capacity == 16384 || 4 * capacity <= 5 * triangles,
{
    let roomy: u32 = triangles * 5 / 4;
    if roomy < MIN_TRIANGLES {
        MIN_TRIANGLES
    } else {
        roomy
    }
}

/// The new room for a water mesh that has been outgrown: half as much again as
/// is needed. None while it has not been.
pub fn grow_water_mesh(needed: u32, capacity: u32) -> (grown: Option<u32>)
    requires
        needed + needed / 2 <= u32::MAX,
    ensures
        grown is Some <==> needed > capacity,
        grown is Some ==> grown->0 == needed + needed / 2 && grown->0 > capacity,
{
    if needed > capacity {
        Some(needed + needed / 2)
    } else {
        None
    }
}

/// As [`grow_water_mesh`] for the spray, up to the most droplets it may have.
pub fn grow_spray_mesh(wanted: u32, droplets: u32) -> (grown: Option<u32>)
    ensures
        ({
            let needed = if wanted < MAX_DROPLETS {
                wanted as int
            } else {
                MAX_DROPLETS as int
            };
            &&& grown is Some <==> needed > droplets
            &&& grown is Some ==> grown->0 == (if needed + needed / 2 < MAX_DROPLETS {
                needed + needed / 2
            } else {
                MAX_DROPLETS as int
            })
            &&& grown is Some ==> needed <= grown->0 <= MAX_DROPLETS
        }),
        grown is Some <==> droplets < 131072 && droplets < wanted,
        grown matches Some(room) ==> {
            &&& droplets < room <= 131072
            &&& wanted <= room || room == 131072
            &&& room == 131072 || room == wanted + wanted / 2
        },
{
    let needed: u32 = if wanted < MAX_DROPLETS {
        wanted
    } else {
        MAX_DROPLETS
    };
    if needed > droplets {
        let roomy: u32 = needed + needed / 2;
        Some(
            if roomy < MAX_DROPLETS {
                roomy
            } else {
                MAX_DROPLETS
            },
        )
    } else {
        None
    }
}

/// Every how manieth particle the diagnostic shows.
pub open spec fn stride_for(n: int) -> int {
    if ceil_div(n, MAX_DROPLETS as int) < 1 {
        1
    } else {
        ceil_div(n, MAX_DROPLETS as int)
    }
}

/// The diagnostic's stride over `n` particles.
pub fn diagnostic_stride(n: u32) -> (stride: u32)
    ensures
        stride == stride_for(n as int),
        stride >= 1,
        n <= stride * 131072,
        stride > 1 ==> (stride - 1) * 131072 < n,
{
    let stride: u32 = crate::num::div_ceil(n, MAX_DROPLETS);
    if stride < 1 {
        1
    } else {
        stride
    }
}

/// The diagnostic never shows more particles than there may be droplets, and up
/// to that many it shows them all.
pub proof fn lemma_diagnostic_fits(n: int)
    requires
        0 <= n,
    ensures
        ceil_div(n, stride_for(n)) <= MAX_DROPLETS,
        n <= MAX_DROPLETS ==> stride_for(n) == 1,
{
    let most = MAX_DROPLETS as int;
    let stride = stride_for(n);
    crate::num::lemma_ceil_div(n, most);
    crate::num::lemma_ceil_div(n, stride);
    let shown = ceil_div(n, stride);
    assert(n <= stride * most) by (nonlinear_arith)
        requires
            n <= ceil_div(n, most) * most,
            stride >= ceil_div(n, most),
            most > 0,
    ;
    assert(shown <= most) by (nonlinear_arith)
        requires
            (shown - 1) * stride < n,
            n <= stride * most,
            stride >= 1,
    ;
}

/// Whether the picture stands still: paused, or held for a capture.
pub fn frozen(paused: bool, captured: bool) -> (r: bool)
    ensures
        r == (paused || captured),
{
    paused || captured
}

/// How far between two steps the particles are drawn: at the end of the step
/// while the picture stands still.
pub fn drawn_at(frozen: bool, overstep: Single) -> (alpha: Single)
    ensures
        frozen ==> alpha == (Single { bits: crate::gpu_params::ONE }),
        frozen ==> alpha == (Single { bits: 0x3f80_0000 }),
        !frozen ==> alpha == overstep,
{
    if frozen {
        Single { bits: crate::gpu_params::ONE }
    } else {
        overstep
    }
}

/// What a rebuild on the device was built from: the fluid's generation, the
/// clock, the point between steps, both meshes' room, and the diagnostic view.
#[derive(Clone, Copy, PartialEq, Eq, Structural, Debug)]
pub struct RebuildKey {
    pub generation: u64,
    pub elapsed: u32,
    pub alpha: u32,
    pub water: u32,
    pub droplets: u32,
    pub diagnostic: bool,
}

/// What to do about the surface and the spray on the device.
#[derive(Clone, Copy, PartialEq, Eq, Structural, Debug)]
pub enum Rebuild {
    /// What is there was built from the same.
    Kept,
    /// Build both, from new builders if the old ones are for other buffers.
    Built { fresh: bool },
}

/// Whether the builders are missing, or made for buffers that were replaced.
pub open spec fn outdated(
    builders: Option<(GpuSurface, GpuSpray)>,
    solver: GpuFluid,
) -> bool {
    match builders {
        None => true,
        Some((surface, spray)) => !surface.matches_solver(solver) || !spray.matches_solver(solver),
    }
}

/// Decides a rebuild: none where the last one was built from the same.
pub fn plan_rebuild(
    built: Option<RebuildKey>,
    key: RebuildKey,
    builders: &Option<(GpuSurface, GpuSpray)>,
    solver: &GpuFluid,
) -> (plan: Rebuild)
    requires
        solver.wf(),
    ensures
        built == Some(key) ==> plan == Rebuild::Kept,
        built != Some(key) ==> plan == (Rebuild::Built {
            fresh: *builders matches Some((surface, spray)) ==> !(surface.revision
                == solver.revision && surface.base.n == solver.buffers.n && spray.revision
                == solver.revision && spray.n == solver.buffers.n),
        }),
        built != Some(key) ==> plan == (Rebuild::Built { fresh: outdated(*builders, *solver) }),
{
    let kept: bool = match built {
        Some(built) => built == key,
        None => false,
    };
    if kept {
        return Rebuild::Kept;
    }
    let fresh: bool = match builders {
        None => true,
        Some((surface, spray)) => !surface.matches(solver) || !spray.matches(solver),
    };
    Rebuild::Built { fresh }
}

/// What was built over buffers that an upload replaced is built anew, and only
/// that: an upload of as many particles keeps the buffers and what reads them.
pub proof fn lemma_replaced_buffers_are_noticed(
    builders: (GpuSurface, GpuSpray),
    before: GpuFluid,
    fluid: crate::sim::Fluid,
    after: GpuFluid,
)
    requires
        !outdated(Some(builders), before),
        before.uploads(fluid, after),
    ensures
        outdated(Some(builders), after) <==> crate::gpu_fluid::slots_for(fluid.count as int)
            != before.buffers.n,
{
}

/// How the particles are drawn: as spray, or every few of them in the
/// diagnostic.
pub fn spray_style(
    radius: Single,
    scale: Single,
    diagnostic: bool,
    solver: &GpuFluid,
) -> (style: SprayStyle)
    requires
        solver.wf(),
    ensures
        style.radius == radius,
        style.scale == scale,
        style.diagnostic == (if diagnostic {
            Some(stride_for(solver.buffers.n as int) as u32)
        } else {
            None
        }),
        style.diagnostic is Some <==> diagnostic,
        style.diagnostic matches Some(stride) ==> {
            &&& stride >= 1
            &&& solver.buffers.n <= stride * 131072
            &&& stride > 1 ==> (stride - 1) * 131072 < solver.buffers.n
        },
{
    SprayStyle {
        radius,
        scale,
        diagnostic: if diagnostic {
            Some(diagnostic_stride(solver.len() as u32))
        } else {
            None
        },
    }
}

/// What a frame does about the surface.
#[derive(Clone, Copy, PartialEq, Eq, Structural, Debug)]
pub enum SurfaceSync {
    /// Nothing moved.
    Still,
    /// The device rebuilds it; only the clock moves here, and the timing if
    /// there are fresh figures.
    OnDevice { timed: bool },
    /// Rebuild it here.
    Here,
}

/// Decides what a frame does about the surface.
pub fn sync_surface(
    changed: bool,
    frozen: bool,
    on_device: bool,
    rebuilds: u32,
    seen: u32,
) -> (sync: SurfaceSync)
    ensures
        sync == (if !changed && frozen {
            SurfaceSync::Still
        } else if on_device {
            SurfaceSync::OnDevice { timed: rebuilds != seen }
        } else {
            SurfaceSync::Here
        }),
{
    if !changed && frozen {
        SurfaceSync::Still
    } else if on_device {
        SurfaceSync::OnDevice { timed: rebuilds != seen }
    } else {
        SurfaceSync::Here
    }
}

/// How a particle is drawn.
#[derive(Clone, Copy, PartialEq, Eq, Structural, Debug)]
pub enum Look {
    Hidden,
    /// A ball of rest size.
    Ball,
    /// A droplet, stretched along its way.
    Droplet,
}

/// How each particle is drawn: every one as a ball in the diagnostic, otherwise
/// the spray as droplets.
pub fn particle_looks(diagnostic: bool, spray: &Vec<Single>) -> (looks: Vec<Look>)
    ensures
        looks@.len() == spray@.len(),
        forall|i: int|
            0 <= i < looks@.len() ==> #[trigger] looks@[i] == (if diagnostic {
                Look::Ball
            } else if (Single { bits: VISIBLE_SPRAY }).below(spray@[i]) {
                Look::Droplet
            } else {
                Look::Hidden
            }),
        forall|i: int|
            0 <= i < looks@.len() ==> {
                &&& #[trigger] looks@[i] is Ball <==> diagnostic
                &&& looks@[i] is Droplet <==> !diagnostic && !spray@[i].nan() && spray@[i].rank()
                    > (Single { bits: 0x3dcc_cccd }).rank()
            },
{
    let mut looks: Vec<Look> = Vec::new();
    let mut i: usize = 0;
    while i < spray.len()
        invariant
            i <= spray@.len(),
            looks@.len() == i,
            forall|k: int|
                0 <= k < i ==> #[trigger] looks@[k] == (if diagnostic {
                    Look::Ball
                } else if (Single { bits: VISIBLE_SPRAY }).below(spray@[k]) {
                    Look::Droplet
                } else {
                    Look::Hidden
                }),
        decreases spray@.len() - i,
    {
        looks.push(
            if diagnostic {
                Look::Ball
            } else if spray[i].gt(Single { bits: VISIBLE_SPRAY }) {
                Look::Droplet
            } else {
                Look::Hidden
            },
        );
        i += 1;
    }
    looks
}

/// Droplets that fit in a range of vertices.
pub fn droplets_in(start: u32, end: u32) -> (n: u32)
    requires
        start <= end,
    ensures
        n == (end - start) / crate::spray_gpu::DROPLET_VERTICES as int,
        start + 24 * n <= end < start + 24 * (n + 1),
{
    (end - start) / crate::spray_gpu::DROPLET_VERTICES
}

/// What of the scene is shown.
#[derive(Clone, Copy, PartialEq, Eq, Structural, Debug)]
pub struct Shown {
    /// Particles instead of the water.
    pub diagnostic: bool,
    pub water: bool,
    pub bounds: bool,
}

/// The view after the keys for the particle view and the tank's bounds. The
/// water is hidden while the particles stand in for it.
pub open spec fn toggled(shown: Shown, toggle_water: bool, toggle_bounds: bool) -> Shown {
    Shown {
        diagnostic: shown.diagnostic != toggle_water,
        water: if toggle_water {
            shown.diagnostic
        } else {
            shown.water
        },
        bounds: shown.bounds != toggle_bounds,
    }
}

/// Answers the keys for the particle view and the tank's bounds.
pub fn toggle_diagnostics(shown: &mut Shown, toggle_water: bool, toggle_bounds: bool)
    ensures
        *final(shown) == toggled(*old(shown), toggle_water, toggle_bounds),
        final(shown).bounds <==> (old(shown).bounds != toggle_bounds),
        !toggle_water ==> final(shown).diagnostic == old(shown).diagnostic && final(shown).water
            == old(shown).water,
        toggle_water ==> final(shown).diagnostic == !old(shown).diagnostic && final(shown).water
            == !final(shown).diagnostic,
{
    if toggle_water {
        shown.diagnostic = !shown.diagnostic;
        shown.water = !shown.diagnostic;
    }
    if toggle_bounds {
        shown.bounds = !shown.bounds;
    }
}

/// Pressing the keys twice leaves the view as it was, where the water is hidden
/// just for the particles.
pub proof fn lemma_toggles_undo(shown: Shown, toggle_water: bool, toggle_bounds: bool)
    requires
        shown.water == !shown.diagnostic,
    ensures
        toggled(toggled(shown, toggle_water, toggle_bounds), toggle_water, toggle_bounds) == shown,
{
}

/// Two corners of a box are joined by an edge if they differ along one axis.
pub open spec fn joined(a: int, b: int) -> bool {
    let (x, y, z) = (a % 2 != b % 2, (a / 2) % 2 != (b / 2) % 2, (a / 4) % 2 != (b / 4) % 2);
    x && !y && !z || !x && y && !z || !x && !y && z
}

/// The edges of a box, by the numbers of its corners: a corner's lowest bit is
/// its side along x, the next along y, the highest along z. They come corner by
/// corner from their lower end, along x first.
pub fn box_edges() -> (edges: Vec<(usize, usize)>)
    ensures
        edges@ == seq![
            (0usize, 1usize),
            (0usize, 2usize),
            (0usize, 4usize),
            (1usize, 3usize),
            (1usize, 5usize),
            (2usize, 3usize),
            (2usize, 6usize),
            (3usize, 7usize),
            (4usize, 5usize),
            (4usize, 6usize),
            (5usize, 7usize),
            (6usize, 7usize),
        ],
        edges@.len() == 12,
        edges@.no_duplicates(),
        forall|a: usize, b: usize| #[trigger]
            edges@.contains((a, b)) <==> a < b < 8 && joined(a as int, b as int),
{
    let edges: Vec<(usize, usize)> = vec![
        (0, 1),
        (0, 2),
        (0, 4),
        (1, 3),
        (1, 5),
        (2, 3),
        (2, 6),
        (3, 7),
        (4, 5),
        (4, 6),
        (5, 7),
        (6, 7),
    ];
    proof {
        let s = edges@;
        assert(s =~= seq![
            (0usize, 1usize),
            (0usize, 2usize),
            (0usize, 4usize),
            (1usize, 3usize),
            (1usize, 5usize),
            (2usize, 3usize),
            (2usize, 6usize),
            (3usize, 7usize),
            (4usize, 5usize),
            (4usize, 6usize),
            (5usize, 7usize),
            (6usize, 7usize),
        ]);
        assert(s[0] == (0usize, 1usize) && s[1] == (0usize, 2usize) && s[2] == (0usize, 4usize)
            && s[3] == (1usize, 3usize) && s[4] == (1usize, 5usize) && s[5] == (2usize, 3usize)
            && s[6] == (2usize, 6usize) && s[7] == (3usize, 7usize) && s[8] == (4usize, 5usize)
            && s[9] == (4usize, 6usize) && s[10] == (5usize, 7usize) && s[11] == (6usize, 7usize));
        assert forall|a: usize, b: usize| #[trigger] s.contains((a, b)) <==> a < b < 8 && joined(
            a as int,
            b as int,
        ) by {
            if a < b < 8 && joined(a as int, b as int) {
                assert(a == 0 || a == 1 || a == 2 || a == 3 || a == 4 || a == 5 || a == 6);
                assert(b == 1 || b == 2 || b == 3 || b == 4 || b == 5 || b == 6 || b == 7);
            }
        }
    }
    edges
}

/// The corner of a quad, by its offset along x and z, that vertex `k` of its two
/// triangles is at.
pub open spec fn quad_corner(k: int) -> (int, int) {
    if k == 0 {
        (0, 0)
    } else if k == 1 || k == 4 {
        (0, 1)
    } else if k == 2 || k == 3 {
        (1, 0)
    } else {
        (1, 1)
    }
}

/// The vertices of a mesh of `n` by `n` quads, along x first, as points of the
/// lattice between them.
pub fn quad_mesh(n: u32) -> (points: Vec<(u32, u32)>)
    requires
        n < u32::MAX,
        6 * (n * n) <= usize::MAX,
    ensures
        points@.len() == 6 * (n * n),
        forall|z: int, x: int, k: int|
            #![trigger points@[6 * (z * n + x) + k]]
            0 <= z < n && 0 <= x < n && 0 <= k < 6 ==> points@[6 * (z * n + x) + k] == (
                (x + quad_corner(k).0) as u32,
                (z + quad_corner(k).1) as u32,
            ),
        forall|z: int, x: int|
            #![trigger points@[6 * (z * n + x) + 0]]
            0 <= z < n && 0 <= x < n ==> {
                let at = 6 * (z * n + x);
                &&& points@[at + 0] == (x as u32, z as u32)
                &&& points@[at + 1] == (x as u32, (z + 1) as u32)
                &&& points@[at + 2] == ((x + 1) as u32, z as u32)
                &&& points@[at + 3] == ((x + 1) as u32, z as u32)
                &&& points@[at + 4] == (x as u32, (z + 1) as u32)
                &&& points@[at + 5] == ((x + 1) as u32, (z + 1) as u32)
            },
{
    let mut points: Vec<(u32, u32)> = Vec::new();
    let mut z: u32 = 0;
    assert(0 * n == 0) by (nonlinear_arith);
    while z < n
        invariant
            z <= n < u32::MAX,
            points@.len() == 6 * (z * n),
            forall|w: int, x: int, k: int|
                #![trigger points@[6 * (w * n + x) + k]]
                0 <= w < z && 0 <= x < n && 0 <= k < 6 ==> points@[6 * (w * n + x) + k] == (
                    (x + quad_corner(k).0) as u32,
                    (w + quad_corner(k).1) as u32,
                ),
        decreases n - z,
    {
        let mut x: u32 = 0;
        while x < n
            invariant
                z < n < u32::MAX,
                x <= n,
                points@.len() == 6 * (z * n + x),
                forall|w: int, u: int, k: int|
                    #![trigger points@[6 * (w * n + u) + k]]
                    (0 <= w < z && 0 <= u < n || w == z && 0 <= u < x) && 0 <= k < 6
                        ==> points@[6 * (w * n + u) + k] == (
                        (u + quad_corner(k).0) as u32,
                        (w + quad_corner(k).1) as u32,
                    ),
            decreases n - x,
        {
            let ghost before = points@;
            points.push((x, z));
            points.push((x, z + 1));
            points.push((x + 1, z));
            points.push((x + 1, z));
            points.push((x, z + 1));
            points.push((x + 1, z + 1));
            proof {
                assert forall|w: int, u: int, k: int|
                    (0 <= w < z && 0 <= u < n || w == z && 0 <= u < x + 1) && 0 <= k
                        < 6 implies #[trigger] points@[6 * (w * n + u) + k] == (
                    (u + quad_corner(k).0) as u32,
                    (w + quad_corner(k).1) as u32,
                ) by {
                    if w == z && u == x {
                        assert(k == 0 || k == 1 || k == 2 || k == 3 || k == 4 || k == 5);
                    } else {
                        assert(w * n + u < z * n + x && 0 <= w * n + u) by (nonlinear_arith)
                            requires
                                0 <= w < z && 0 <= u < n || w == z && 0 <= u < x,
                                0 <= x,
                                0 <= n,
                        ;
                        assert(points@[6 * (w * n + u) + k] == before[6 * (w * n + u) + k]);
                    }
                }
            }
            x += 1;
        }
        proof {
            assert((z + 1) * n == z * n + n) by (nonlinear_arith);
        }
        z += 1;
    }
    points
}

} // verus!
