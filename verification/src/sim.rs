//! The particles' bookkeeping: where the lattice starts them, which of them are
//! neighbours, and when the walls hold them.
//!
//! Neighbour lists are flattened, built once per step and reused across all
//! solver iterations, which is where most of the speed comes from.
use vstd::prelude::*;
use crate::grid::{dims_fit, Grid};
use crate::grid::{along, candidates_around, cell_number, one_after, one_before};
use crate::grid::{
    lemma_box_candidates, lemma_candidates_are_the_adjacent, lemma_candidates_once,
    lemma_cell_number,
};
use crate::single::{one_in_quanta, zero, Point, Single};
use vstd::arithmetic::div_mod::{
    lemma_div_denominator, lemma_div_is_ordered, lemma_div_nonincreasing, lemma_div_plus_one,
    lemma_div_pos_is_pos, lemma_fundamental_div_mod, lemma_mod_bound,
};

verus! {

/// Squared distances up to a millionth count as none.
pub const CONTACT: u32 = 0x3586_37bd;

/// The box the fluid lives in.
#[derive(Clone, Copy, PartialEq, Eq, Structural, Debug)]
pub struct Bounds {
    pub min: Point,
    pub max: Point,
}

/// Solver tunables. Lengths are world units.
#[derive(Clone, Copy, PartialEq, Eq, Structural, Debug)]
pub struct FluidParams {
    /// Kernel radius. Everything else is expressed relative to this.
    pub smoothing_radius: Single,
    /// Rest spacing of the initial lattice.
    pub spacing: Single,
    /// Jacobi iterations per substep.
    pub iterations: u32,
    /// Solver steps per frame.
    pub substeps: u32,
    pub relaxation: Single,
    pub viscosity: Single,
    pub tensile_k: Single,
    pub tensile_q: Single,
    pub tensile_n: i32,
    /// Resolve compression only, leaving under-dense particles alone.
    pub clamp_constraint: bool,
    pub gravity: Point,
    pub jacobi_relax: Single,
    /// Fraction of tangential velocity kept when a particle hits a wall.
    pub wall_friction: Single,
    pub bounds: Bounds,
}

/// A place in the starting lattice. Odd rows are nudged half a spacing along x
/// and z, so the lattice isn't perfectly axis-aligned.
#[derive(Clone, Copy, PartialEq, Eq, Structural, Debug)]
pub struct Site {
    pub col: usize,
    pub row: usize,
    pub layer: usize,
    pub staggered: bool,
}

impl Site {
    /// Half a spacing for a staggered site.
    pub open spec fn nudge(self) -> int {
        if self.staggered {
            1
        } else {
            0
        }
    }

    /// Where the site lies in the box, in half spacings from its lower corner:
    /// the lattice starts a whole spacing in.
    pub open spec fn halves(self) -> (int, int, int) {
        (2 + 2 * self.col + self.nudge(), 2 + 2 * self.row, 2 + 2 * self.layer + self.nudge())
    }
}

/// The place of particle `k` in a block of `cols` by `layers` per row: along x
/// first, then z, then y.
pub open spec fn site(cols: int, layers: int, k: int) -> Site {
    let row = k / (cols * layers);
    Site {
        col: (k % cols) as usize,
        row: row as usize,
        layer: ((k / cols) % layers) as usize,
        staggered: row % 2 == 1,
    }
}

/// How many particles a block holds.
pub open spec fn block_size(block: [usize; 3]) -> int {
    block[0] * block[2] * block[1]
}

/// Where particle `i` lies in the grid, from its offset into it in cells.
pub open spec fn cell_at(grid: Grid, local: Point) -> int {
    cell_number(
        grid.cols as int,
        grid.rows as int,
        along(local.x, grid.cols as int),
        along(local.y, grid.rows as int),
        along(local.z, grid.layers as int),
    )
}

/// Every particle's cell.
pub open spec fn cells_of(grid: Grid, locals: Seq<Point>) -> Seq<usize> {
    Seq::new(locals.len(), |i: int| cell_at(grid, locals[i]) as usize)
}

/// The particles that particle `i` looks at.
pub open spec fn candidates_of(grid: Grid, locals: Seq<Point>, i: int) -> Seq<u32> {
    candidates_around(
        cells_of(grid, locals),
        grid.cols as int,
        grid.rows as int,
        grid.layers as int,
        along(locals[i].x, grid.cols as int),
        along(locals[i].y, grid.rows as int),
        along(locals[i].z, grid.layers as int),
    )
}

/// Squared distances between particles, by the pair's indices.
pub type Distances = Map<(int, int), Single>;

/// Another particle is a neighbour if it is nearer than the kernel radius.
pub open spec fn near(distances: Distances, h2: Single, i: int, j: int) -> bool {
    j != i && distances[(i, j)].below(h2)
}

/// Those of `candidates` that are neighbours of particle `i`, in their order.
pub open spec fn nearby(distances: Distances, h2: Single, i: int, candidates: Seq<u32>) -> Seq<u32>
    decreases candidates.len(),
{
    if candidates.len() == 0 {
        Seq::empty()
    } else {
        let rest = nearby(distances, h2, i, candidates.drop_last());
        if near(distances, h2, i, candidates.last() as int) {
            rest.push(candidates.last())
        } else {
            rest
        }
    }
}

/// Neighbour lists laid end to end: the list of particle `i` runs from its
/// start to the next particle's.
pub open spec fn lists(
    grid: Grid,
    locals: Seq<Point>,
    distances: Distances,
    h2: Single,
    starts: Seq<usize>,
    neighbors: Seq<u32>,
    n: int,
) -> bool {
    &&& starts.len() == n + 1
    &&& starts[0] == 0
    &&& starts[n] == neighbors.len()
    &&& forall|i: int|
        #![trigger starts[i]]
        0 <= i < n ==> {
            &&& starts[i] <= starts[i + 1] <= neighbors.len()
            &&& neighbors.subrange(starts[i] as int, starts[i + 1] as int) == nearby(
                distances,
                h2,
                i,
                candidates_of(grid, locals, i),
            )
        }
}

/// Every distance in the table is one that `distance2` gave, and the table has
/// each one that the neighbour search needs.
pub open spec fn measured<F: Fn(usize, usize) -> Single>(
    distance2: F,
    grid: Grid,
    locals: Seq<Point>,
    distances: Distances,
) -> bool {
    &&& forall|i: int, j: int| #[trigger]
        distances.contains_key((i, j)) ==> call_ensures(
            distance2,
            (i as usize, j as usize),
            distances[(i, j)],
        )
    &&& forall|i: int, k: int|
        #![trigger candidates_of(grid, locals, i)[k]]
        0 <= i < locals.len() && 0 <= k < candidates_of(grid, locals, i).len() && candidates_of(
            grid,
            locals,
            i,
        )[k] != i ==> distances.contains_key((i, candidates_of(grid, locals, i)[k] as int))
}

/// A predicted position held inside the walls, and which walls stopped it.
#[derive(Clone, Copy, PartialEq, Eq, Structural, Debug)]
pub struct Confined {
    pub point: Point,
    pub hit_x: bool,
    pub hit_y: bool,
    pub hit_z: bool,
}

/// A coordinate held between two walls, and whether one stopped it.
pub open spec fn walled(v: Single, min: Single, max: Single) -> (Single, bool) {
    if v.below(min) {
        (min, true)
    } else if max.below(v) {
        (max, true)
    } else {
        (v, false)
    }
}

fn wall(v: Single, min: Single, max: Single) -> (r: (Single, bool))
    ensures
        r == walled(v, min, max),
{
    if v.lt(min) {
        (min, true)
    } else if v.gt(max) {
        (max, true)
    } else {
        (v, false)
    }
}

/// A position between the walls at `min` and `max`.
pub open spec fn between_walls(p: Point, min: Point, max: Point) -> bool {
    &&& p.x.within(min.x, max.x)
    &&& p.y.within(min.y, max.y)
    &&& p.z.within(min.z, max.z)
}

/// Clamps a position to the walls at `min` and `max`. A wall that stops a
/// particle bleeds off the speed along it, so the caller slows the two other
/// components of the velocity for each wall hit.
pub fn confine(p: Point, min: Point, max: Point) -> (c: Confined)
    ensures
        c.point == held(p, min, max),
        (c.point.x, c.hit_x) == walled(p.x, min.x, max.x),
        (c.point.y, c.hit_y) == walled(p.y, min.y, max.y),
        (c.point.z, c.hit_z) == walled(p.z, min.z, max.z),
        !p.x.nan() && !p.y.nan() && !p.z.nan() && min.x.at_most(max.x) && min.y.at_most(max.y)
            && min.z.at_most(max.z) ==> between_walls(c.point, min, max),
        between_walls(p, min, max) ==> c == (Confined {
            point: p,
            hit_x: false,
            hit_y: false,
            hit_z: false,
        }),
        !p.x.nan() && !min.x.nan() && !max.x.nan() ==> {
            &&& p.x.rank() < min.x.rank() ==> c.point.x == min.x && c.hit_x
            &&& min.x.rank() <= p.x.rank() && max.x.rank() < p.x.rank() ==> c.point.x == max.x
                && c.hit_x
            &&& min.x.rank() <= p.x.rank() <= max.x.rank() ==> c.point.x == p.x && !c.hit_x
        },
        !p.y.nan() && !min.y.nan() && !max.y.nan() ==> {
            &&& p.y.rank() < min.y.rank() ==> c.point.y == min.y && c.hit_y
            &&& min.y.rank() <= p.y.rank() && max.y.rank() < p.y.rank() ==> c.point.y == max.y
                && c.hit_y
            &&& min.y.rank() <= p.y.rank() <= max.y.rank() ==> c.point.y == p.y && !c.hit_y
        },
        !p.z.nan() && !min.z.nan() && !max.z.nan() ==> {
            &&& p.z.rank() < min.z.rank() ==> c.point.z == min.z && c.hit_z
            &&& min.z.rank() <= p.z.rank() && max.z.rank() < p.z.rank() ==> c.point.z == max.z
                && c.hit_z
            &&& min.z.rank() <= p.z.rank() <= max.z.rank() ==> c.point.z == p.z && !c.hit_z
        },
{
    let (x, hit_x) = wall(p.x, min.x, max.x);
    let (y, hit_y) = wall(p.y, min.y, max.y);
    let (z, hit_z) = wall(p.z, min.z, max.z);
    Confined { point: Point { x, y, z }, hit_x, hit_y, hit_z }
}

/// What the walls hold lies between them, and stays put if held again.
pub proof fn lemma_walled_stays(v: Single, min: Single, max: Single)
    requires
        !v.nan(),
        min.at_most(max),
    ensures
        min.at_most(walled(v, min, max).0),
        walled(v, min, max).0.at_most(max),
        walled(walled(v, min, max).0, min, max) == (walled(v, min, max).0, false),
        !walled(v, min, max).1 ==> walled(v, min, max).0 == v,
{
}

/// A position as the walls hold it.
pub open spec fn held(p: Point, min: Point, max: Point) -> Point {
    Point {
        x: walled(p.x, min.x, max.x).0,
        y: walled(p.y, min.y, max.y).0,
        z: walled(p.z, min.z, max.z).0,
    }
}

/// One round of the solver: the particles are moved, each to some number along
/// each axis, and held by the walls.
pub open spec fn round_between_walls(
    before: Seq<Point>,
    after: Seq<Point>,
    moved: Seq<Point>,
    min: Point,
    max: Point,
) -> bool {
    &&& moved.len() == before.len()
    &&& after.len() == before.len()
    &&& forall|i: int|
        0 <= i < after.len() ==> {
            &&& #[trigger] after[i] == held(moved[i], min, max)
            &&& !moved[i].x.nan() && !moved[i].y.nan() && !moved[i].z.nan()
        }
}

/// However often the solver moves the particles, over however many rounds, there
/// are as many of them as before, and every one lies between the walls.
pub proof fn lemma_rounds_stay_between_walls(
    history: Seq<Seq<Point>>,
    moved: Seq<Seq<Point>>,
    min: Point,
    max: Point,
    i: int,
)
    requires
        min.x.at_most(max.x) && min.y.at_most(max.y) && min.z.at_most(max.z),
        history.len() >= 2,
        forall|k: int|
            1 <= k < history.len() ==> round_between_walls(
                history[k - 1],
                #[trigger] history[k],
                moved[k],
                min,
                max,
            ),
        0 <= i < history[0].len(),
    ensures
        history.last().len() == history[0].len(),
        between_walls(history.last()[i], min, max),
    decreases history.len(),
{
    let last = history.len() - 1;
    assert(round_between_walls(history[last - 1], history[last], moved[last], min, max));
    if history.len() > 2 {
        let rest = history.drop_last();
        assert forall|k: int| 1 <= k < rest.len() implies round_between_walls(
            rest[k - 1],
            #[trigger] rest[k],
            moved[k],
            min,
            max,
        ) by {
            assert(rest[k] == history[k] && rest[k - 1] == history[k - 1]);
        }
        lemma_rounds_stay_between_walls(rest, moved, min, max, i);
        assert(rest.last() == history[last - 1]);
    }
    let p = moved[last][i];
    assert(history[last][i] == held(p, min, max));
}

/// The substeps that a frame of `dt` seconds takes: none where there is nothing to
/// move or no time to move it in, and otherwise at least one.
pub open spec fn substeps_in(fluid: Fluid, dt: Single) -> int {
    if fluid.count == 0 || dt.at_most(zero()) {
        0
    } else if fluid.params.substeps == 0 {
        1
    } else {
        fluid.params.substeps as int
    }
}

/// The rounds of a frame: in each substep one for the prediction, and one for each
/// iteration.
pub open spec fn rounds_in(fluid: Fluid, dt: Single) -> int {
    substeps_in(fluid, dt) * (1 + fluid.params.iterations)
}

/// A step keeps the particles, and keeps them inside. Where there is nothing to
/// move or no time to move it in, nothing changes at all; otherwise every particle
/// ends between the walls, wherever the rounds of the step move it.
pub proof fn lemma_step_stays_between_walls(
    fluid: Fluid,
    dt: Single,
    history: Seq<Seq<Point>>,
    moved: Seq<Seq<Point>>,
    min: Point,
    max: Point,
)
    requires
        min.x.at_most(max.x) && min.y.at_most(max.y) && min.z.at_most(max.z),
        history.len() == 1 + rounds_in(fluid, dt),
        history[0].len() == fluid.count,
        forall|k: int|
            1 <= k < history.len() ==> round_between_walls(
                history[k - 1],
                #[trigger] history[k],
                moved[k],
                min,
                max,
            ),
    ensures
        history.last().len() == fluid.count,
        fluid.count == 0 || dt.at_most(zero()) ==> history.last() == history[0],
        !(fluid.count == 0 || dt.at_most(zero())) ==> forall|i: int|
            0 <= i < fluid.count ==> between_walls(#[trigger] history.last()[i], min, max),
{
    let (s, n) = (substeps_in(fluid, dt), 1 + fluid.params.iterations);
    if fluid.count == 0 || dt.at_most(zero()) {
        assert(s * n == 0) by (nonlinear_arith)
            requires
                s == 0,
        ;
    } else {
        assert(s * n >= 1) by (nonlinear_arith)
            requires
                s >= 1,
                n >= 1,
        ;
        assert forall|i: int| 0 <= i < fluid.count implies between_walls(
            #[trigger] history.last()[i],
            min,
            max,
        ) by {
            lemma_rounds_stay_between_walls(history, moved, min, max, i);
        }
        lemma_rounds_stay_between_walls(history, moved, min, max, 0);
    }
}

/// Whether a particle at squared distance `d2` from the mouse feels it: inside
/// the reach, and not on the centre, where no direction leads away from it.
pub fn feels_impulse(d2: Single, r2: Single) -> (r: bool)
    ensures
        r == (d2.below(r2) && Single { bits: CONTACT }.below(d2)),
        r <==> !d2.nan() && !r2.nan() && (Single { bits: 0x3586_37bd }).rank() < d2.rank()
            < r2.rank(),
{
    d2.lt(r2) && d2.gt(Single { bits: CONTACT })
}

/// The fastest of the speeds, and at least zero; speeds that are not numbers
/// do not count.
pub fn max_speed(speeds: &Vec<Single>) -> (fastest: Single)
    ensures
        !fastest.nan(),
        zero().at_most(fastest),
        fastest == zero() || speeds@.contains(fastest),
        forall|i: int| 0 <= i < speeds@.len() && !(#[trigger] speeds@[i]).nan() ==> speeds@[i].at_most(
            fastest,
        ),
{
    let mut fastest: Single = Single { bits: 0 };
    let mut i: usize = 0;
    while i < speeds.len()
        invariant
            i <= speeds@.len(),
            !fastest.nan(),
            zero().at_most(fastest),
            fastest == zero() || speeds@.contains(fastest),
            forall|k: int| 0 <= k < i && !(#[trigger] speeds@[k]).nan() ==> speeds@[k].at_most(
                fastest,
            ),
        decreases speeds@.len() - i,
    {
        let v: Single = speeds[i];
        if v.gt(fastest) {
            proof {
                assert(speeds@.contains(v));
            }
            fastest = v;
        }
        i += 1;
    }
    fastest
}

/// The water at the start of a scene: where its particles lie in the lattice, and
/// how each of them moves and looks, at what time.
#[derive(PartialEq, Debug)]
pub struct Start {
    pub sites: Vec<Site>,
    pub vel: Vec<Point>,
    pub foam: Vec<Single>,
    pub spray: Vec<Single>,
    pub elapsed: Single,
}

/// No movement.
pub open spec fn still() -> Point {
    Point { x: zero(), y: zero(), z: zero() }
}

impl Start {
    /// Nothing moves or foams, and no time has passed.
    pub open spec fn at_rest(&self) -> bool {
        let n = self.sites@.len();
        &&& self.vel@ == Seq::new(n, |k: int| still())
        &&& self.foam@ == Seq::new(n, |k: int| zero())
        &&& self.spray@ == Seq::new(n, |k: int| zero())
        &&& self.elapsed == zero()
    }
}

/// Water at rest at some places.
fn begin(sites: Vec<Site>) -> (start: Start)
    ensures
        start.sites@ == sites@,
        start.at_rest(),
{
    let none = Single { bits: 0 };
    let still = Point { x: none, y: none, z: none };
    let n: usize = sites.len();
    let mut vel: Vec<Point> = Vec::new();
    let mut foam: Vec<Single> = Vec::new();
    let mut spray: Vec<Single> = Vec::new();
    let mut k: usize = 0;
    while k < n
        invariant
            k <= n,
            none == zero(),
            still == crate::sim::still(),
            vel@ == Seq::new(k as nat, |k: int| crate::sim::still()),
            foam@ == Seq::new(k as nat, |k: int| zero()),
            spray@ == Seq::new(k as nat, |k: int| zero()),
        decreases n - k,
    {
        vel.push(still);
        foam.push(none);
        spray.push(none);
        k += 1;
        assert(vel@ =~= Seq::new(k as nat, |k: int| crate::sim::still()));
        assert(foam@ =~= Seq::new(k as nat, |k: int| zero()));
        assert(spray@ =~= Seq::new(k as nat, |k: int| zero()));
    }
    Start { sites, vel, foam, spray, elapsed: none }
}

/// The lattice places of a block, in order.
fn lattice(block: [usize; 3]) -> (sites: Vec<Site>)
    requires
        block_size(block) <= usize::MAX,
    ensures
        sites@.len() == block_size(block),
        forall|k: int|
            0 <= k < sites@.len() ==> #[trigger] sites@[k] == site(
                block[0] as int,
                block[2] as int,
                k,
            ),
{
    let (cols, rows, layers) = (block[0], block[1], block[2]);
    let mut sites: Vec<Site> = Vec::new();
    if cols == 0 || rows == 0 || layers == 0 {
        proof {
            assert(block_size(block) == 0) by (nonlinear_arith)
                requires
                    block_size(block) == block[0] * block[2] * block[1],
                    block[0] == 0 || block[1] == 0 || block[2] == 0,
            ;
        }
        return sites;
    }
    proof {
        assert(0 < cols * layers <= block_size(block)) by (nonlinear_arith)
            requires
                block_size(block) == cols * layers * rows,
                cols > 0,
                layers > 0,
                rows > 0,
        ;
    }
    let total: usize = cols * layers * rows;
    let mut col: usize = 0;
    let mut layer: usize = 0;
    let mut row: usize = 0;
    let mut k: usize = 0;
    assert((row * layers + layer) * cols + col == 0) by (nonlinear_arith)
        requires
            row == 0,
            layer == 0,
            col == 0,
    ;
    while k < total
        invariant
            k <= total,
            total == cols * layers * rows,
            col < cols,
            layer < layers,
            row <= rows,
            k == (row * layers + layer) * cols + col,
            sites@.len() == k,
            forall|m: int|
                0 <= m < k ==> #[trigger] sites@[m] == site(cols as int, layers as int, m),
        decreases total - k,
    {
        proof {
            lemma_site(cols as int, layers as int, row as int, layer as int, col as int);
            assert(row < rows) by (nonlinear_arith)
                requires
                    (row * layers + layer) * cols + col < cols * layers * rows,
                    layer >= 0,
                    col >= 0,
                    cols > 0,
                    layers > 0,
            ;
        }
        sites.push(Site { col, row, layer, staggered: row % 2 == 1 });
        k += 1;
        let ghost was = (row, layer);
        col += 1;
        if col == cols {
            col = 0;
            layer += 1;
            if layer == layers {
                layer = 0;
                row += 1;
            }
        }
        proof {
            assert((was.0 * layers + was.1 + 1) * cols == (was.0 * layers + was.1) * cols + cols)
                by (nonlinear_arith);
            assert((was.0 + 1) * layers == was.0 * layers + layers) by (nonlinear_arith);
        }
    }
    sites
}

/// Those places of the lattice that are under water, in order, where `answers`
/// says of each place whether it is.
pub open spec fn wet_sites(cols: int, layers: int, answers: Seq<bool>) -> Seq<Site>
    decreases answers.len(),
{
    if answers.len() == 0 {
        Seq::empty()
    } else {
        let rest = wet_sites(cols, layers, answers.drop_last());
        if answers.last() {
            rest.push(site(cols, layers, answers.len() - 1))
        } else {
            rest
        }
    }
}

/// Each of the first places of the lattice was asked about, and answered so.
pub open spec fn answered<F: Fn(Site) -> bool>(
    wet: F,
    cols: int,
    layers: int,
    answers: Seq<bool>,
) -> bool {
    forall|k: int|
        0 <= k < answers.len() ==> call_ensures(
            wet,
            (site(cols, layers, k),),
            #[trigger] answers[k],
        )
}

/// The water fills those of the first `n` places of the lattice that `wet` says
/// are under water, in order.
pub open spec fn floods<F: Fn(Site) -> bool>(
    wet: F,
    cols: int,
    layers: int,
    n: int,
    sites: Seq<Site>,
) -> bool {
    exists|answers: Seq<bool>|
        {
            &&& answers.len() == n
            &&& #[trigger] answered(wet, cols, layers, answers)
            &&& sites == wet_sites(cols, layers, answers)
        }
}

/// Places of the lattice with different numbers are different places.
pub proof fn lemma_sites_differ(cols: int, layers: int, j: int, k: int)
    requires
        1 <= cols <= usize::MAX,
        1 <= layers <= usize::MAX,
        0 <= j < k <= usize::MAX,
    ensures
        site(cols, layers, j) != site(cols, layers, k),
{
    if site(cols, layers, j) == site(cols, layers, k) {
        lemma_div_denominator(j, cols, layers);
        lemma_div_denominator(k, cols, layers);
        let (p, q) = (j / cols, k / cols);
        lemma_fundamental_div_mod(j, cols);
        lemma_fundamental_div_mod(k, cols);
        lemma_fundamental_div_mod(p, layers);
        lemma_fundamental_div_mod(q, layers);
        lemma_div_pos_is_pos(j, cols);
        lemma_div_pos_is_pos(k, cols);
        lemma_div_pos_is_pos(p, layers);
        lemma_div_pos_is_pos(q, layers);
        lemma_div_nonincreasing(j, cols);
        lemma_div_nonincreasing(k, cols);
        lemma_div_nonincreasing(p, layers);
        lemma_div_nonincreasing(q, layers);
        lemma_mod_bound(j, cols);
        lemma_mod_bound(k, cols);
        lemma_mod_bound(p, layers);
        lemma_mod_bound(q, layers);
        assert(p / layers == q / layers);
        assert(p % layers == q % layers);
        assert(p == q);
        assert(j % cols == k % cols);
        assert(j == k);
    }
}

/// A refill repeats itself: where a place is either under water or not, the water
/// is the same at every start of the scene, particle for particle.
pub proof fn lemma_refill_repeats<F: Fn(Site) -> bool>(
    wet: F,
    cols: int,
    layers: int,
    n: int,
    first: Seq<Site>,
    again: Seq<Site>,
)
    requires
        forall|s: Site, a: bool, b: bool|
            #[trigger] call_ensures(wet, (s,), a) && #[trigger] call_ensures(wet, (s,), b) ==> a
                == b,
        floods(wet, cols, layers, n, first),
        floods(wet, cols, layers, n, again),
    ensures
        first == again,
{
    let a = choose|answers: Seq<bool>|
        {
            &&& answers.len() == n
            &&& #[trigger] answered(wet, cols, layers, answers)
            &&& first == wet_sites(cols, layers, answers)
        };
    let b = choose|answers: Seq<bool>|
        {
            &&& answers.len() == n
            &&& #[trigger] answered(wet, cols, layers, answers)
            &&& again == wet_sites(cols, layers, answers)
        };
    assert forall|k: int| 0 <= k < a.len() implies a[k] == b[k] by {
        assert(call_ensures(wet, (site(cols, layers, k),), a[k]));
        assert(call_ensures(wet, (site(cols, layers, k),), b[k]));
    }
    assert(a =~= b);
}

/// A place is one that the answers say is under water.
pub open spec fn is_answered(cols: int, layers: int, answers: Seq<bool>, s: Site) -> bool {
    exists|k: int|
        0 <= k < answers.len() && #[trigger] answers[k] && s == site(cols, layers, k)
}

/// The water at the start of a scene lies at the places of the lattice that are
/// under water, at each of them once, and nowhere else.
pub proof fn lemma_wet_sites_are_wet<F: Fn(Site) -> bool>(
    wet: F,
    cols: int,
    layers: int,
    answers: Seq<bool>,
)
    requires
        answered(wet, cols, layers, answers),
        1 <= cols <= usize::MAX,
        1 <= layers <= usize::MAX,
        answers.len() <= usize::MAX,
    ensures
        wet_sites(cols, layers, answers).len() <= answers.len(),
        wet_sites(cols, layers, answers).no_duplicates(),
        forall|i: int|
            0 <= i < wet_sites(cols, layers, answers).len() ==> is_answered(
                cols,
                layers,
                answers,
                #[trigger] wet_sites(cols, layers, answers)[i],
            ),
        forall|i: int|
            0 <= i < wet_sites(cols, layers, answers).len() ==> call_ensures(
                wet,
                (#[trigger] wet_sites(cols, layers, answers)[i],),
                true,
            ),
        forall|k: int|
            0 <= k < answers.len() && #[trigger] answers[k] ==> wet_sites(
                cols,
                layers,
                answers,
            ).contains(site(cols, layers, k)),
    decreases answers.len(),
{
    if answers.len() > 0 {
        let (before, last) = (answers.drop_last(), answers.len() - 1);
        assert forall|k: int| 0 <= k < before.len() implies call_ensures(
            wet,
            (site(cols, layers, k),),
            #[trigger] before[k],
        ) by {
            assert(before[k] == answers[k]);
        }
        lemma_wet_sites_are_wet(wet, cols, layers, before);
        let (rest, all) = (
            wet_sites(cols, layers, before),
            wet_sites(cols, layers, answers),
        );
        assert(call_ensures(wet, (site(cols, layers, last),), answers[last]));
        assert forall|i: int| 0 <= i < all.len() implies is_answered(
            cols,
            layers,
            answers,
            #[trigger] all[i],
        ) by {
            if i < rest.len() {
                assert(is_answered(cols, layers, before, rest[i]));
                let k = choose|k: int|
                    0 <= k < before.len() && #[trigger] before[k] && rest[i] == site(
                        cols,
                        layers,
                        k,
                    );
                assert(answers[k]);
                assert(all[i] == rest[i]);
            } else {
                assert(answers[last]);
            }
        }
        assert forall|i: int, j: int| 0 <= i < j < all.len() implies all[i] != all[j] by {
            if j == rest.len() {
                assert(is_answered(cols, layers, before, rest[i]));
                let k = choose|k: int|
                    0 <= k < before.len() && #[trigger] before[k] && rest[i] == site(
                        cols,
                        layers,
                        k,
                    );
                lemma_sites_differ(cols, layers, k, last);
            } else {
                assert(all[i] == rest[i] && all[j] == rest[j]);
            }
        }
        assert forall|k: int| 0 <= k < answers.len() && #[trigger] answers[k] implies all.contains(
            site(cols, layers, k),
        ) by {
            if k < last {
                assert(before[k]);
                let i = choose|i: int| 0 <= i < rest.len() && rest[i] == site(cols, layers, k);
                assert(all[i] == rest[i]);
            } else {
                assert(all[all.len() - 1] == site(cols, layers, k));
            }
        }
    }
}

/// The place that a column, layer and row number between them.
pub(crate) proof fn lemma_site(cols: int, layers: int, row: int, layer: int, col: int)
    requires
        0 <= col < cols,
        0 <= layer < layers,
        0 <= row,
    ensures
        ({
            let k = (row * layers + layer) * cols + col;
            &&& k >= 0
            &&& k % cols == col
            &&& k / cols == row * layers + layer
            &&& (k / cols) % layers == layer
            &&& k / (cols * layers) == row
        }),
{
    let w = row * layers + layer;
    let k = w * cols + col;
    assert(w >= 0) by (nonlinear_arith)
        requires
            w == row * layers + layer,
            row >= 0,
            layer >= 0,
            layers > 0,
    ;
    assert(k >= 0) by (nonlinear_arith)
        requires
            k == w * cols + col,
            w >= 0,
            col >= 0,
            cols > 0,
    ;
    vstd::arithmetic::div_mod::lemma_fundamental_div_mod_converse(k, cols, w, col);
    vstd::arithmetic::div_mod::lemma_fundamental_div_mod_converse(w, layers, row, layer);
    vstd::arithmetic::div_mod::lemma_div_denominator(k, cols, layers);
}

/// A block that leaves a half spacing of slack on the height, and a whole one
/// on the staggered axes, stays half a spacing clear of every wall: in half
/// spacings, each place lies between one and one less than the box's length.
pub proof fn lemma_block_fits(block: [usize; 3], extent: (int, int, int), k: int)
    requires
        0 <= k < block_size(block) <= usize::MAX,
        2 * block[0] + 2 <= extent.0,
        2 * block[1] + 1 <= extent.1,
        2 * block[2] + 2 <= extent.2,
    ensures
        ({
            let at = site(block[0] as int, block[2] as int, k).halves();
            &&& 1 <= at.0 <= extent.0 - 1
            &&& 1 <= at.1 <= extent.1 - 1
            &&& 1 <= at.2 <= extent.2 - 1
        }),
{
    lemma_site_in_block(block, k);
}

/// One more particle along any axis would not: with a staggered row in it, such
/// a block has a place nearer than half a spacing to a wall.
pub proof fn lemma_larger_block_sticks_out(block: [usize; 3], extent: (int, int, int))
    requires
        block_size(block) <= usize::MAX,
        1 <= block[0],
        2 <= block[1],
        1 <= block[2],
        2 * block[0] + 2 > extent.0 || 2 * block[1] + 1 > extent.1 || 2 * block[2] + 2 > extent.2,
    ensures
        exists|k: int|
            {
                let at = #[trigger] site(block[0] as int, block[2] as int, k).halves();
                &&& 0 <= k < block_size(block)
                &&& at.0 > extent.0 - 1 || at.1 > extent.1 - 1 || at.2 > extent.2 - 1
            },
{
    let (cols, rows, layers) = (block[0] as int, block[1] as int, block[2] as int);
    let last = if 2 * rows + 1 > extent.1 {
        rows - 1
    } else {
        1
    };
    let k = (last * layers + (layers - 1)) * cols + (cols - 1);
    lemma_site(cols, layers, last, layers - 1, cols - 1);
    assert(0 <= k < block_size(block)) by (nonlinear_arith)
        requires
            k == (last * layers + (layers - 1)) * cols + (cols - 1),
            block_size(block) == cols * layers * rows,
            0 <= last <= rows - 1,
            layers >= 1,
            cols >= 1,
    ;
    let at = site(cols, layers, k).halves();
    assert(at.1 == 2 + 2 * last);
}

proof fn lemma_site_in_block(block: [usize; 3], k: int)
    requires
        0 <= k < block_size(block) <= usize::MAX,
    ensures
        ({
            let s = site(block[0] as int, block[2] as int, k);
            &&& s.col == k % (block[0] as int)
            &&& s.row == k / (block[0] * block[2])
            &&& s.layer == (k / (block[0] as int)) % (block[2] as int)
            &&& s.col < block[0]
            &&& s.row < block[1]
            &&& s.layer < block[2]
        }),
{
    let (cols, rows, layers) = (block[0] as int, block[1] as int, block[2] as int);
    assert(cols > 0 && rows > 0 && layers > 0) by (nonlinear_arith)
        requires
            0 <= k < cols * layers * rows,
            cols >= 0,
            rows >= 0,
            layers >= 0,
    ;
    assert(cols * layers > 0) by (nonlinear_arith)
        requires
            cols > 0,
            layers > 0,
    ;
    vstd::arithmetic::div_mod::lemma_fundamental_div_mod(k, cols * layers);
    let row = k / (cols * layers);
    assert(0 <= row < rows) by (nonlinear_arith)
        requires
            k == (cols * layers) * row + k % (cols * layers),
            0 <= k % (cols * layers) < cols * layers,
            0 <= k < cols * layers * rows,
    ;
    assert(0 <= k / cols) by (nonlinear_arith)
        requires
            k >= 0,
            cols > 0,
    ;
    vstd::arithmetic::div_mod::lemma_mod_bound(k, cols);
    vstd::arithmetic::div_mod::lemma_mod_bound(k / cols, layers);
}

/// Every candidate is a particle.
pub(crate) proof fn lemma_candidates_exist(grid: Grid, locals: Seq<Point>, i: int, k: int)
    requires
        locals.len() <= u32::MAX,
        0 <= k < candidates_of(grid, locals, i).len(),
    ensures
        candidates_of(grid, locals, i)[k] < locals.len(),
{
    let (cols, rows, layers) = (grid.cols as int, grid.rows as int, grid.layers as int);
    let (x, y, z) = (along(locals[i].x, cols), along(locals[i].y, rows), along(locals[i].z, layers));
    let j = candidates_of(grid, locals, i)[k];
    lemma_box_candidates(
        cells_of(grid, locals),
        cols,
        rows,
        one_before(x),
        one_after(x, cols),
        one_before(y),
        one_after(y, rows),
        one_before(z),
        one_after(z, layers),
        j,
    );
    assert(candidates_of(grid, locals, i).contains(j));
}

/// Tables that agree on the pairs of `i` give it the same neighbours.
proof fn lemma_nearby_agrees(a: Distances, b: Distances, h2: Single, i: int, candidates: Seq<u32>)
    requires
        forall|m: int|
            0 <= m < candidates.len() && (#[trigger] candidates[m]) != i ==> a[(
                i,
                candidates[m] as int,
            )] == b[(i, candidates[m] as int)],
    ensures
        nearby(a, h2, i, candidates) == nearby(b, h2, i, candidates),
    decreases candidates.len(),
{
    if candidates.len() > 0 {
        let rest = candidates.drop_last();
        assert forall|m: int| 0 <= m < rest.len() && (#[trigger] rest[m]) != i implies a[(
            i,
            rest[m] as int,
        )] == b[(i, rest[m] as int)] by {
            assert(rest[m] == candidates[m]);
        }
        lemma_nearby_agrees(a, b, h2, i, rest);
        assert(candidates.last() == candidates[candidates.len() - 1]);
    }
}

/// A neighbour is a candidate that is near, and the other way round.
pub proof fn lemma_nearby_contains(
    distances: Distances,
    h2: Single,
    i: int,
    candidates: Seq<u32>,
    j: u32,
)
    ensures
        nearby(distances, h2, i, candidates).contains(j) <==> candidates.contains(j) && near(
            distances,
            h2,
            i,
            j as int,
        ),
    decreases candidates.len(),
{
    if candidates.len() > 0 {
        let rest = candidates.drop_last();
        lemma_nearby_contains(distances, h2, i, rest, j);
        let list = nearby(distances, h2, i, candidates);
        let shorter = nearby(distances, h2, i, rest);
        if candidates.contains(j) && candidates.last() != j {
            let m = choose|m: int| 0 <= m < candidates.len() && candidates[m] == j;
            assert(rest[m] == j);
        }
        if rest.contains(j) {
            let m = choose|m: int| 0 <= m < rest.len() && rest[m] == j;
            assert(candidates[m] == j);
        }
        if candidates.last() == j {
            assert(candidates[candidates.len() - 1] == j);
        }
        if near(distances, h2, i, candidates.last() as int) {
            assert(list == shorter.push(candidates.last()));
            assert(list[shorter.len() as int] == candidates.last());
            if shorter.contains(j) {
                let m = choose|m: int| 0 <= m < shorter.len() && shorter[m] == j;
                assert(list[m] == j);
            }
            if list.contains(j) && j != candidates.last() {
                let m = choose|m: int| 0 <= m < list.len() && list[m] == j;
                assert(shorter[m] == j);
            }
        }
    }
}

/// Being neighbours is mutual: where distances are the same both ways, particle
/// `j` is listed for `i` just where `i` is listed for `j`.
pub proof fn lemma_neighbors_are_mutual(
    grid: Grid,
    locals: Seq<Point>,
    distances: Distances,
    h2: Single,
    i: u32,
    j: u32,
)
    requires
        dims_fit(grid.cols as int, grid.rows as int, grid.layers as int),
        locals.len() <= u32::MAX,
        i < locals.len(),
        j < locals.len(),
        distances[(i as int, j as int)] == distances[(j as int, i as int)],
    ensures
        nearby(distances, h2, i as int, candidates_of(grid, locals, i as int)).contains(j)
            <==> nearby(distances, h2, j as int, candidates_of(grid, locals, j as int)).contains(i),
{
    let (cols, rows, layers) = (grid.cols as int, grid.rows as int, grid.layers as int);
    let cells = cells_of(grid, locals);
    let (a, b) = (locals[i as int], locals[j as int]);
    let (ax, ay, az) = (along(a.x, cols), along(a.y, rows), along(a.z, layers));
    let (bx, by, bz) = (along(b.x, cols), along(b.y, rows), along(b.z, layers));
    lemma_cell_number(cols, rows, layers, ax, ay, az);
    lemma_cell_number(cols, rows, layers, bx, by, bz);
    lemma_candidates_are_the_adjacent(cells, cols, rows, layers, ax, ay, az, j, bx, by, bz);
    lemma_candidates_are_the_adjacent(cells, cols, rows, layers, bx, by, bz, i, ax, ay, az);
    lemma_nearby_contains(distances, h2, i as int, candidates_of(grid, locals, i as int), j);
    lemma_nearby_contains(distances, h2, j as int, candidates_of(grid, locals, j as int), i);
}

/// Two offsets into the grid are at most a cell apart.
pub open spec fn within_a_cell(a: Single, b: Single) -> bool {
    &&& !a.nan()
    &&& !b.nan()
    &&& -one_in_quanta() <= a.rank() - b.rank() <= one_in_quanta()
}

/// Offsets at most a cell apart lie in the same cell or in cells that touch, also
/// where they lie outside the grid.
pub proof fn lemma_close_offsets_touch(a: Single, b: Single, size: int)
    requires
        within_a_cell(a, b),
        1 <= size,
    ensures
        -1 <= along(a, size) - along(b, size) <= 1,
{
    vstd::arithmetic::power2::lemma_pow2_pos(149);
    lemma_along_is_whole(a, size);
    lemma_along_is_whole(b, size);
    let (p, q) = (positive_part(a.rank()), positive_part(b.rank()));
    let one = one_in_quanta();
    if p <= q {
        lemma_div_is_ordered(p, q, one);
        lemma_div_is_ordered(q, one + p, one);
        lemma_div_plus_one(p, one);
    } else {
        lemma_div_is_ordered(q, p, one);
        lemma_div_is_ordered(p, one + q, one);
        lemma_div_plus_one(q, one);
    }
}

/// A number, or zero in place of a negative one.
pub(crate) open spec fn positive_part(v: int) -> int {
    if v < 0 {
        0
    } else {
        v
    }
}

/// The cell along an axis is the whole part of the offset, held inside the grid.
pub(crate) proof fn lemma_along_is_whole(v: Single, size: int)
    requires
        !v.nan(),
        1 <= size,
    ensures
        ({
            let whole = positive_part(v.rank()) / one_in_quanta();
            let most = if i32::MAX < size - 1 {
                i32::MAX as int
            } else {
                size - 1
            };
            along(v, size) == if whole < most {
                whole
            } else {
                most
            }
        }),
{
    let one = one_in_quanta();
    vstd::arithmetic::power2::lemma_pow2_pos(149);
    crate::single::lemma_quanta_increases(v.magnitude(), v.magnitude() + 1);
    let q = crate::single::quanta(v.magnitude());
    lemma_div_is_ordered(0, q, one);
    assert(0int / one == 0) by (nonlinear_arith)
        requires
            one > 0,
    ;
}

/// No neighbour is missed: a particle that is nearer than the kernel radius, and
/// at most a cell away along each axis, is listed. Offsets are counted in cells.
pub proof fn lemma_near_is_listed(
    grid: Grid,
    locals: Seq<Point>,
    distances: Distances,
    h2: Single,
    i: u32,
    j: u32,
)
    requires
        dims_fit(grid.cols as int, grid.rows as int, grid.layers as int),
        locals.len() <= u32::MAX,
        i < locals.len(),
        j < locals.len(),
        near(distances, h2, i as int, j as int),
        within_a_cell(locals[i as int].x, locals[j as int].x),
        within_a_cell(locals[i as int].y, locals[j as int].y),
        within_a_cell(locals[i as int].z, locals[j as int].z),
    ensures
        nearby(distances, h2, i as int, candidates_of(grid, locals, i as int)).contains(j),
{
    let (cols, rows, layers) = (grid.cols as int, grid.rows as int, grid.layers as int);
    let cells = cells_of(grid, locals);
    let (a, b) = (locals[i as int], locals[j as int]);
    let (ax, ay, az) = (along(a.x, cols), along(a.y, rows), along(a.z, layers));
    let (bx, by, bz) = (along(b.x, cols), along(b.y, rows), along(b.z, layers));
    lemma_close_offsets_touch(a.x, b.x, cols);
    lemma_close_offsets_touch(a.y, b.y, rows);
    lemma_close_offsets_touch(a.z, b.z, layers);
    lemma_cell_number(cols, rows, layers, bx, by, bz);
    lemma_candidates_are_the_adjacent(cells, cols, rows, layers, ax, ay, az, j, bx, by, bz);
    lemma_nearby_contains(distances, h2, i as int, candidates_of(grid, locals, i as int), j);
}

/// The fluid's bookkeeping. Positions and velocities live with the caller.
pub struct Fluid {
    pub params: FluidParams,
    /// Particles in the tank.
    pub count: usize,
    /// Bumped whenever the tank is filled anew.
    pub generation: u64,
    pub grid: Grid,
    /// Neighbour lists, flattened.
    pub neighbors: Vec<u32>,
    pub neighbor_start: Vec<usize>,
}

impl Fluid {
    /// The grid can be rebuilt, and the neighbour lists, where there are any,
    /// lie end to end.
    pub open spec fn wf(&self) -> bool {
        &&& self.grid.wf()
        &&& self.grid.scratch_fits()
        &&& self.lists_valid() ==> forall|i: int|
            #![trigger self.neighbor_start@[i]]
            0 <= i < self.count ==> self.neighbor_start@[i] <= self.neighbor_start@[i + 1]
                <= self.neighbors@.len()
    }

    /// Whether there are neighbour lists for the particles in the tank.
    pub open spec fn lists_valid(&self) -> bool {
        self.neighbor_start@.len() == self.count + 1
    }

    /// The invariant speaks of the grid and the lists only.
    proof fn lemma_wf_kept(self, other: Fluid)
        requires
            self.wf(),
            other.grid == self.grid,
            other.count == self.count,
            other.neighbors == self.neighbors,
            other.neighbor_start == self.neighbor_start,
        ensures
            other.wf(),
    {
        if other.lists_valid() {
            assert forall|i: int|
                #![trigger other.neighbor_start@[i]]
                0 <= i < other.count implies other.neighbor_start@[i] <= other.neighbor_start@[i
                + 1] <= other.neighbors@.len() by {
                assert(self.neighbor_start@[i] <= self.neighbor_start@[i + 1]);
            }
        }
    }

    /// Changes gravity, and nothing else.
    pub fn set_gravity(&mut self, gravity: Point)
        requires
            old(self).wf(),
        ensures
            final(self).wf(),
            final(self).params == (FluidParams { gravity, ..old(self).params }),
            final(self).count == old(self).count,
            final(self).generation == old(self).generation,
            final(self).grid == old(self).grid,
            final(self).neighbors == old(self).neighbors,
            final(self).neighbor_start == old(self).neighbor_start,
    {
        let ghost before = *self;
        self.params.gravity = gravity;
        proof {
            before.lemma_wf_kept(*self);
        }
    }

    /// An empty tank, with a grid of cells over it.
    pub fn new(params: FluidParams, cols: usize, rows: usize, layers: usize) -> (fluid: Fluid)
        requires
            dims_fit(cols as int, rows as int, layers as int),
        ensures
            fluid.wf(),
            fluid.params == params,
            fluid.count == 0,
            fluid.generation == 0,
            fluid.grid.cols == cols,
            fluid.grid.rows == rows,
            fluid.grid.layers == layers,
            fluid.neighbors@.len() == 0,
            fluid.neighbor_start@.len() == 0,
    {
        Fluid {
            params,
            count: 0,
            generation: 0,
            grid: Grid::new(cols, rows, layers),
            neighbors: Vec::new(),
            neighbor_start: Vec::new(),
        }
    }

    /// Particles in the tank.
    pub fn len(&self) -> (n: usize)
        ensures
            n == self.count,
    {
        self.count
    }

    /// Forgets the configuration that was: neighbour lists describe particles
    /// that are gone, and would be measured, or indexed, for the new ones.
    fn refill(&mut self, count: usize)
        requires
            old(self).wf(),
        ensures
            final(self).wf(),
            final(self).params == old(self).params,
            final(self).grid == old(self).grid,
            final(self).count == count,
            final(self).generation == (if old(self).generation == u64::MAX {
                0
            } else {
                old(self).generation + 1
            }),
            final(self).neighbors@.len() == 0,
            final(self).neighbor_start@.len() == 0,
    {
        self.count = count;
        self.generation = self.generation.wrapping_add(1);
        self.neighbors.clear();
        self.neighbor_start.clear();
    }

    /// Fills the lower corner of the bounds with a lattice of particles, which
    /// then collapses into a dam break. Returns each particle's place in it.
    pub fn fill_block(&mut self, block: [usize; 3]) -> (start: Start)
        requires
            old(self).wf(),
            block_size(block) <= usize::MAX,
        ensures
            final(self).wf(),
            !final(self).lists_valid(),
            final(self).params == old(self).params,
            final(self).grid == old(self).grid,
            final(self).count == block_size(block),
            final(self).generation == (if old(self).generation == u64::MAX {
                0
            } else {
                old(self).generation + 1
            }),
            start.at_rest(),
            start.sites@.len() == block_size(block),
            forall|k: int|
                0 <= k < start.sites@.len() ==> #[trigger] start.sites@[k] == site(
                    block[0] as int,
                    block[2] as int,
                    k,
                ),
    {
        let sites: Vec<Site> = lattice(block);
        self.refill(sites.len());
        begin(sites)
    }

    /// Fills the tank with those sites of a lattice that `wet` says are under
    /// water, in lattice order.
    pub fn fill_wave<F: Fn(Site) -> bool>(&mut self, block: [usize; 3], wet: F) -> (start: Start)
        requires
            old(self).wf(),
            block_size(block) <= usize::MAX,
            forall|s: Site| call_requires(wet, (s,)),
        ensures
            final(self).wf(),
            !final(self).lists_valid(),
            final(self).params == old(self).params,
            final(self).grid == old(self).grid,
            final(self).count == start.sites@.len(),
            final(self).generation == (if old(self).generation == u64::MAX {
                0
            } else {
                old(self).generation + 1
            }),
            floods(wet, block[0] as int, block[2] as int, block_size(block), start.sites@),
            start.at_rest(),
    {
        let all: Vec<Site> = lattice(block);
        let mut sites: Vec<Site> = Vec::new();
        let ghost mut answers: Seq<bool> = Seq::empty();
        let mut k: usize = 0;
        while k < all.len()
            invariant
                k <= all@.len(),
                all@.len() == block_size(block),
                forall|k: int|
                    0 <= k < all@.len() ==> #[trigger] all@[k] == site(
                        block[0] as int,
                        block[2] as int,
                        k,
                    ),
                forall|s: Site| call_requires(wet, (s,)),
                answers.len() == k,
                forall|k: int|
                    0 <= k < answers.len() ==> call_ensures(
                        wet,
                        (site(block[0] as int, block[2] as int, k),),
                        #[trigger] answers[k],
                    ),
                sites@ == wet_sites(block[0] as int, block[2] as int, answers),
            decreases all@.len() - k,
        {
            let s: Site = all[k];
            let keep: bool = wet(s);
            if keep {
                sites.push(s);
            }
            proof {
                let grown = answers.push(keep);
                assert(grown.drop_last() =~= answers);
                answers = grown;
            }
            k += 1;
        }
        self.refill(sites.len());
        assert(answered(wet, block[0] as int, block[2] as int, answers));
        begin(sites)
    }

    /// The substeps a frame of `dt` seconds takes, or none if there is nothing
    /// to move or no time to move it in.
    pub fn substeps(&self, dt: Single) -> (steps: Option<u32>)
        ensures
            steps is None <==> self.count == 0 || dt.at_most(zero()),
            steps is Some ==> steps->0 == substeps_in(*self, dt),
            steps is Some <==> self.count > 0 && (dt.nan() || dt.rank() > 0),
            steps is Some ==> steps->0 == if self.params.substeps == 0 {
                1
            } else {
                self.params.substeps
            },
    {
        proof {
            crate::single::lemma_zero();
        }
        if self.count == 0 || dt.le(Single { bits: 0 }) {
            None
        } else if self.params.substeps < 1 {
            Some(1)
        } else {
            Some(self.params.substeps)
        }
    }

    /// Sorts the particles into the grid and lists each one's neighbours: those
    /// other than itself that are nearer than the kernel radius. `locals` holds
    /// each particle's offset into the grid in cells, `distance2` gives the
    /// squared distance of two particles, and `h2` is the radius squared.
    #[verifier::rlimit(60)]
    #[verifier::spinoff_prover]
    pub fn build_neighbors<F: Fn(usize, usize) -> Single>(
        &mut self,
        locals: &Vec<Point>,
        h2: Single,
        distance2: F,
    )
        requires
            old(self).wf(),
            locals@.len() == old(self).count,
            locals@.len() <= u32::MAX,
            forall|i: usize, j: usize|
                i < locals@.len() && j < locals@.len() ==> call_requires(distance2, (i, j)),
        ensures
            final(self).wf(),
            final(self).lists_valid(),
            final(self).params == old(self).params,
            final(self).count == old(self).count,
            final(self).generation == old(self).generation,
            final(self).grid.cols == old(self).grid.cols,
            final(self).grid.rows == old(self).grid.rows,
            final(self).grid.layers == old(self).grid.layers,
            final(self).grid.holds(cells_of(final(self).grid, locals@)),
            exists|distances: Distances|
                #![trigger measured(distance2, final(self).grid, locals@, distances)]
                measured(distance2, final(self).grid, locals@, distances) && lists(
                    final(self).grid,
                    locals@,
                    distances,
                    h2,
                    final(self).neighbor_start@,
                    final(self).neighbors@,
                    locals@.len() as int,
                ),
    {
        let n: usize = locals.len();
        let mut cells: Vec<usize> = Vec::new();
        let mut i: usize = 0;
        while i < n
            invariant
                i <= n,
                n == locals@.len(),
                dims_fit(
                    self.grid.cols as int,
                    self.grid.rows as int,
                    self.grid.layers as int,
                ),
                *self == *old(self),
                cells@.len() == i,
                forall|k: int| 0 <= k < i ==> #[trigger] cells@[k] == cell_at(self.grid, locals@[k]),
                forall|k: int| 0 <= k < i ==> (#[trigger] cells@[k]) < self.grid.count(),
            decreases n - i,
        {
            let p: Point = locals[i];
            let (x, y, z) = self.grid.cell_of(p.x, p.y, p.z);
            cells.push(self.grid.number(x, y, z));
            i += 1;
        }
        self.grid.rebuild(&cells);
        proof {
            assert(cells@ =~= cells_of(self.grid, locals@));
        }
        let ghost grid = self.grid;
        let mut neighbors: Vec<u32> = Vec::new();
        let mut starts: Vec<usize> = Vec::new();
        starts.push(0);
        let ghost mut distances: Distances = Map::empty();
        let mut i: usize = 0;
        while i < n
            invariant
                i <= n,
                n == locals@.len(),
                n <= u32::MAX,
                self.grid == grid,
                self.grid.wf(),
                self.grid.scratch_fits(),
                self.params == old(self).params,
                self.count == old(self).count,
                self.generation == old(self).generation,
                grid.holds(cells_of(grid, locals@)),
                forall|i: usize, j: usize|
                    i < locals@.len() && j < locals@.len() ==> call_requires(distance2, (i, j)),
                lists(grid, locals@, distances, h2, starts@, neighbors@, i as int),
                forall|a: int, b: int| #[trigger]
                    distances.contains_key((a, b)) ==> 0 <= a < i && call_ensures(
                        distance2,
                        (a as usize, b as usize),
                        distances[(a, b)],
                    ),
                forall|a: int, k: int|
                    #![trigger candidates_of(grid, locals@, a)[k]]
                    0 <= a < i && 0 <= k < candidates_of(grid, locals@, a).len() && candidates_of(
                        grid,
                        locals@,
                        a,
                    )[k] != a ==> distances.contains_key(
                        (a, candidates_of(grid, locals@, a)[k] as int),
                    ),
            decreases n - i,
        {
            let p: Point = locals[i];
            let (x, y, z) = self.grid.cell_of(p.x, p.y, p.z);
            let candidates: Vec<u32> = self.grid.candidates(x, y, z);
            let ghost cands = candidates@;
            let ghost before = neighbors@;
            let ghost known = distances;
            let ghost base = neighbors@.len() as int;
            proof {
                assert(cands == candidates_of(grid, locals@, i as int));
                assert forall|k: int| 0 <= k < cands.len() implies (#[trigger] cands[k]) < n by {
                    lemma_candidates_exist(grid, locals@, i as int, k);
                }
                lemma_candidates_once(
                    cells_of(grid, locals@),
                    grid.cols as int,
                    grid.rows as int,
                    grid.layers as int,
                    x as int,
                    y as int,
                    z as int,
                );
                assert(cands.take(0) =~= Seq::empty());
                assert(neighbors@.skip(base) =~= Seq::empty());
            }
            let mut k: usize = 0;
            while k < candidates.len()
                invariant
                    k <= cands.len(),
                    cands == candidates@,
                    i < n,
                    n == locals@.len(),
                    n <= u32::MAX,
                    forall|k: int| 0 <= k < cands.len() ==> (#[trigger] cands[k]) < n,
                    cands.no_duplicates(),
                    forall|i: usize, j: usize|
                        i < locals@.len() && j < locals@.len() ==> call_requires(distance2, (i, j)),
                    base == before.len(),
                    base <= neighbors@.len(),
                    neighbors@.take(base) == before,
                    neighbors@.skip(base) == nearby(distances, h2, i as int, cands.take(k as int)),
                    forall|a: int, b: int|
                        a < i && #[trigger] known.contains_key((a, b)) ==> distances.contains_key(
                            (a, b),
                        ) && distances[(a, b)] == known[(a, b)],
                    forall|a: int, b: int|
                        a < i && #[trigger] distances.contains_key((a, b)) ==> known.contains_key(
                            (a, b),
                        ),
                    forall|a: int, b: int| #[trigger]
                        distances.contains_key((a, b)) && a >= i ==> a == i && call_ensures(
                            distance2,
                            (a as usize, b as usize),
                            distances[(a, b)],
                        ),
                    forall|m: int|
                        0 <= m < k && (#[trigger] cands[m]) != i ==> distances.contains_key(
                            (i as int, cands[m] as int),
                        ),
                decreases cands.len() - k,
            {
                let j: u32 = candidates[k];
                let ghost upto = cands.take(k as int);
                let ghost next = cands.take(k + 1);
                let ghost old_distances = distances;
                proof {
                    assert(next.drop_last() =~= upto);
                    assert(next.last() == j);
                }
                if j as usize != i {
                    let d: Single = distance2(i, j as usize);
                    proof {
                        distances = distances.insert((i as int, j as int), d);
                        assert forall|m: int|
                            0 <= m < upto.len() && (#[trigger] upto[m]) != i implies old_distances[(
                            i as int,
                            upto[m] as int,
                        )] == distances[(i as int, upto[m] as int)] by {
                            assert(upto[m] == cands[m]);
                            assert(cands[m] != cands[k as int]);
                        }
                        lemma_nearby_agrees(old_distances, distances, h2, i as int, upto);
                    }
                    if d.lt(h2) {
                        neighbors.push(j);
                    }
                }
                proof {
                    if neighbors@.len() > base {
                        assert(neighbors@.take(base) =~= before);
                    }
                    assert(neighbors@.skip(base) =~= nearby(distances, h2, i as int, next));
                }
                k += 1;
            }
            starts.push(neighbors.len());
            proof {
                assert(cands.take(cands.len() as int) =~= cands);
                assert(neighbors@.subrange(base, neighbors@.len() as int) =~= neighbors@.skip(base));
                assert forall|a: int| 0 <= a < i + 1 implies {
                    &&& #[trigger] starts@[a] <= starts@[a + 1] <= neighbors@.len()
                    &&& neighbors@.subrange(starts@[a] as int, starts@[a + 1] as int) == nearby(
                        distances,
                        h2,
                        a,
                        candidates_of(grid, locals@, a),
                    )
                } by {
                    if a < i {
                        assert(neighbors@.subrange(starts@[a] as int, starts@[a + 1] as int)
                            =~= before.subrange(starts@[a] as int, starts@[a + 1] as int)) by {
                            assert forall|m: int| 0 <= m < base implies neighbors@[m]
                                == before[m] by {
                                assert(neighbors@.take(base)[m] == before[m]);
                            }
                        }
                        lemma_nearby_agrees(
                            known,
                            distances,
                            h2,
                            a,
                            candidates_of(grid, locals@, a),
                        );
                    }
                }
            }
            i += 1;
        }
        self.neighbors = neighbors;
        self.neighbor_start = starts;
        proof {
            assert(measured(distance2, self.grid, locals@, distances));
        }
    }

    /// The neighbours of particle `i`.
    pub fn neighbors_of(&self, i: usize) -> (list: &[u32])
        requires
            self.wf(),
            self.lists_valid(),
            i < self.count,
        ensures
            list@ == self.neighbors@.subrange(
                self.neighbor_start@[i as int] as int,
                self.neighbor_start@[i + 1] as int,
            ),
    {
        let from: usize = self.neighbor_start[i];
        let to: usize = self.neighbor_start[i + 1];
        vstd::slice::slice_subrange(self.neighbors.as_slice(), from, to)
    }

    /// Whether density can be measured: neighbour lists are only valid between
    /// a step and the next fill; without them there is nothing to measure.
    pub fn measurable(&self) -> (r: bool)
        requires
            self.count < usize::MAX,
        ensures
            r == self.lists_valid(),
    {
        self.neighbor_start.len() == self.count + 1
    }
}

} // verus!
