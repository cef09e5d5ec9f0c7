//! How a scene starts: where its particles stand, and that nothing moves.
use vstd::prelude::*;
use crate::config::{refills, Config, Measures};
use crate::sim::{answered, floods, lemma_site, lemma_wet_sites_are_wet, site, wet_sites};
use crate::sim::{Site, Start};

verus! {

/// The number of a place in a lattice: along x first, then z, then y.
pub open spec fn place_number(cols: int, layers: int, s: Site) -> int {
    (s.row * layers + s.layer) * cols + s.col
}

/// A place of a lattice: inside the block, and nudged in every other row.
pub open spec fn in_block(cols: int, rows: int, layers: int, s: Site) -> bool {
    &&& s.col < cols
    &&& s.row < rows
    &&& s.layer < layers
    &&& s.staggered == (s.row % 2 == 1)
}

/// A place of the lattice has its own number there, and a number its place.
pub proof fn lemma_places(cols: int, rows: int, layers: int, s: Site)
    requires
        in_block(cols, rows, layers, s),
        0 <= cols <= usize::MAX,
        0 <= rows <= usize::MAX,
        0 <= layers <= usize::MAX,
    ensures
        0 <= place_number(cols, layers, s) < cols * layers * rows,
        site(cols, layers, place_number(cols, layers, s)) == s,
{
    lemma_site(cols, layers, s.row as int, s.layer as int, s.col as int);
    let (r, l, c) = (s.row as int, s.layer as int, s.col as int);
    let w = r * layers + l;
    assert(0 <= w < layers * rows) by (nonlinear_arith)
        requires
            w == r * layers + l,
            0 <= l < layers,
            0 <= r < rows,
    ;
    assert(0 <= w * cols + c < cols * (layers * rows)) by (nonlinear_arith)
        requires
            0 <= w < layers * rows,
            0 <= c < cols,
    ;
    assert(cols * (layers * rows) == cols * layers * rows) by (nonlinear_arith);
}

/// And the other way round.
pub proof fn lemma_numbers(cols: int, rows: int, layers: int, k: int)
    requires
        0 <= k < cols * layers * rows,
        1 <= cols <= usize::MAX,
        1 <= rows <= usize::MAX,
        1 <= layers <= usize::MAX,
    ensures
        in_block(cols, rows, layers, site(cols, layers, k)),
        place_number(cols, layers, site(cols, layers, k)) == k,
{
    let (col, line) = (k % cols, k / cols);
    let (layer, row) = (line % layers, line / layers);
    vstd::arithmetic::div_mod::lemma_fundamental_div_mod(k, cols);
    vstd::arithmetic::div_mod::lemma_fundamental_div_mod(line, layers);
    vstd::arithmetic::div_mod::lemma_mod_bound(k, cols);
    vstd::arithmetic::div_mod::lemma_mod_bound(line, layers);
    vstd::arithmetic::div_mod::lemma_div_pos_is_pos(k, cols);
    vstd::arithmetic::div_mod::lemma_div_pos_is_pos(line, layers);
    vstd::arithmetic::div_mod::lemma_div_denominator(k, cols, layers);
    assert(layers * row == row * layers && cols * line == line * cols) by (nonlinear_arith);
    assert(row < rows) by (nonlinear_arith)
        requires
            k == line * cols + col,
            line == row * layers + layer,
            0 <= col,
            0 <= layer,
            0 <= row,
            k < cols * layers * rows,
            cols >= 1,
            layers >= 1,
    ;
}

/// A dam break starts with its whole block, each place of it once and in order; a
/// wave tank with those of the largest block that are under water. `s` is any
/// place.
pub proof fn lemma_reset_fills<F: Fn(Site) -> bool>(
    c: Config,
    m: Measures,
    wet: F,
    sites: Seq<Site>,
    s: Site,
)
    requires
        refills(c, m, wet, sites),
    ensures
        c.scene.scenario is DamBreak ==> {
            let (cols, rows, layers) = (
                c.fluid.block[0] as int,
                c.fluid.block[1] as int,
                c.fluid.block[2] as int,
            );
            &&& sites.len() == cols * layers * rows
            &&& in_block(cols, rows, layers, s) ==> sites[place_number(cols, layers, s)] == s
        },
        c.scene.scenario is Wave ==> floods(
            wet,
            m.room_x.floor_as_usize(),
            m.room_z.floor_as_usize(),
            m.room_x.floor_as_usize() * m.room_z.floor_as_usize() * m.room_y.floor_as_usize(),
            sites,
        ),
{
    let (cols, rows, layers) = (
        c.fluid.block[0] as int,
        c.fluid.block[1] as int,
        c.fluid.block[2] as int,
    );
    if in_block(cols, rows, layers, s) {
        lemma_places(cols, rows, layers, s);
    }
}

/// The water of a wave tank stands at the places that are under water, and at no
/// others, in the order of the lattice. `s` is any place of it; `wet` is asked of
/// it once.
pub proof fn lemma_flood_fills<F: Fn(Site) -> bool>(
    wet: F,
    cols: int,
    rows: int,
    layers: int,
    sites: Seq<Site>,
    s: Site,
    under: bool,
)
    requires
        1 <= cols <= usize::MAX,
        1 <= rows <= usize::MAX,
        1 <= layers <= usize::MAX,
        cols * layers * rows <= usize::MAX,
        floods(wet, cols, layers, cols * layers * rows, sites),
        in_block(cols, rows, layers, s),
        forall|a: bool| #[trigger] call_ensures(wet, (s,), a) ==> a == under,
    ensures
        sites.contains(s) <==> under,
        sites.no_duplicates(),
        forall|i: int| 0 <= i < sites.len() ==> in_block(cols, rows, layers, #[trigger] sites[i]),
        forall|i: int, j: int|
            0 <= i < j < sites.len() ==> place_number(cols, layers, #[trigger] sites[i])
                < place_number(cols, layers, #[trigger] sites[j]),
{
    let answers = choose|answers: Seq<bool>|
        {
            &&& answers.len() == cols * layers * rows
            &&& #[trigger] answered(wet, cols, layers, answers)
            &&& sites == wet_sites(cols, layers, answers)
        };
    lemma_wet_sites_are_wet(wet, cols, layers, answers);
    lemma_places(cols, rows, layers, s);
    let k = place_number(cols, layers, s);
    assert(call_ensures(wet, (site(cols, layers, k),), answers[k]));
    if sites.contains(s) {
        let i = choose|i: int| 0 <= i < sites.len() && sites[i] == s;
        assert(call_ensures(wet, (wet_sites(cols, layers, answers)[i],), true));
    }
    lemma_in_order(cols, rows, layers, answers);
}

/// What is picked from the lattice keeps its order.
proof fn lemma_in_order(cols: int, rows: int, layers: int, answers: Seq<bool>)
    requires
        1 <= cols <= usize::MAX,
        1 <= rows <= usize::MAX,
        1 <= layers <= usize::MAX,
        answers.len() <= cols * layers * rows,
    ensures
        forall|i: int|
            0 <= i < wet_sites(cols, layers, answers).len() ==> {
                let s = #[trigger] wet_sites(cols, layers, answers)[i];
                in_block(cols, rows, layers, s) && place_number(cols, layers, s) < answers.len()
            },
        forall|i: int, j: int|
            0 <= i < j < wet_sites(cols, layers, answers).len() ==> place_number(
                cols,
                layers,
                #[trigger] wet_sites(cols, layers, answers)[i],
            ) < place_number(cols, layers, #[trigger] wet_sites(cols, layers, answers)[j]),
    decreases answers.len(),
{
    if answers.len() > 0 {
        let (before, last) = (answers.drop_last(), answers.len() - 1);
        lemma_in_order(cols, rows, layers, before);
        lemma_numbers(cols, rows, layers, last);
        let (rest, all) = (
            wet_sites(cols, layers, before),
            wet_sites(cols, layers, answers),
        );
        assert forall|i: int| 0 <= i < all.len() implies in_block(
            cols,
            rows,
            layers,
            #[trigger] all[i],
        ) && place_number(cols, layers, all[i]) < answers.len() by {
            if i < rest.len() {
                assert(all[i] == rest[i]);
            }
        }
        assert forall|i: int, j: int| 0 <= i < j < all.len() implies place_number(
            cols,
            layers,
            #[trigger] all[i],
        ) < place_number(cols, layers, #[trigger] all[j]) by {
            assert(all[i] == rest[i]);
            if j < rest.len() {
                assert(all[j] == rest[j]);
            }
        }
    }
}

/// Nothing moves or foams at the start, and no time has passed.
pub proof fn lemma_starts_at_rest(start: Start, k: int)
    requires
        start.at_rest(),
    ensures
        start.vel@.len() == start.sites@.len(),
        start.foam@.len() == start.sites@.len(),
        start.spray@.len() == start.sites@.len(),
        start.elapsed.bits == 0,
        0 <= k < start.sites@.len() ==> {
            &&& start.vel@[k].x.bits == 0 && start.vel@[k].y.bits == 0 && start.vel@[k].z.bits == 0
            &&& start.foam@[k].bits == 0
            &&& start.spray@[k].bits == 0
        },
{
}

} // verus!
