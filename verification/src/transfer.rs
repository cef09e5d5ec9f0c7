//! Particle state on its way to the device and back: points go four words each,
//! the fourth one zero, and come back in the fluid's own numbering.
use vstd::prelude::*;
use crate::gpu::{cast, padded, spells, Buffer, Command};
use crate::gpu_fluid::{downloaded, read_back};
use crate::gpu_params::Quad;
use crate::numbering::{carries, complete, gather, occurs, restore, restored_at};
use crate::single::{Point, Single};

verus! {

/// The words of some points.
pub open spec fn packed(points: Seq<Point>) -> Seq<u32> {
    Seq::new(
        4 * points.len(),
        |i: int|
            {
                let p = points[i / 4];
                if i % 4 == 0 {
                    p.x.bits
                } else if i % 4 == 1 {
                    p.y.bits
                } else if i % 4 == 2 {
                    p.z.bits
                } else {
                    0
                }
            },
    )
}

/// The words of some points, each with a fourth word of zero.
pub fn pack(points: &Vec<Point>) -> (words: Vec<u32>)
    ensures
        words@ == packed(points@),
        words@.len() == 4 * points@.len(),
        forall|k: int|
            #![trigger points@[k]]
            0 <= k < points@.len() ==> {
                &&& words@[4 * k] == points@[k].x.bits
                &&& words@[4 * k + 1] == points@[k].y.bits
                &&& words@[4 * k + 2] == points@[k].z.bits
                &&& words@[4 * k + 3] == 0
            },
{
    let mut words: Vec<u32> = Vec::new();
    let mut k: usize = 0;
    while k < points.len()
        invariant
            k <= points@.len(),
            words@ == packed(points@.take(k as int)),
        decreases points@.len() - k,
    {
        let p: Point = points[k];
        let ghost before = words@;
        words.push(p.x.bits);
        words.push(p.y.bits);
        words.push(p.z.bits);
        words.push(0);
        proof {
            let next = points@.take(k + 1);
            assert forall|i: int| 0 <= i < 4 * (k + 1) implies #[trigger] words@[i] == packed(
                next,
            )[i] by {
                if i < 4 * k {
                    assert(before[i] == packed(points@.take(k as int))[i]);
                    assert(next[i / 4] == points@.take(k as int)[i / 4]);
                } else {
                    assert(i / 4 == k);
                    assert(next[k as int] == p);
                }
            }
            assert(words@ =~= packed(next));
        }
        k += 1;
    }
    proof {
        assert(points@.take(points@.len() as int) =~= points@);
    }
    words
}

/// The point that four words from `at` on stand for; the fourth is ignored.
pub open spec fn point_at(words: Seq<u32>, at: int) -> Point {
    Point {
        x: Single { bits: words[at] },
        y: Single { bits: words[at + 1] },
        z: Single { bits: words[at + 2] },
    }
}

/// Reads `n` points, four words each, from word `at` on.
pub fn unpack(words: &Vec<u32>, at: usize, n: usize) -> (points: Vec<Point>)
    requires
        at + 4 * n <= words@.len(),
    ensures
        points@.len() == n,
        forall|k: int| 0 <= k < n ==> #[trigger] points@[k] == point_at(words@, at + 4 * k),
        forall|k: int|
            0 <= k < n ==> {
                &&& (#[trigger] points@[k]).x.bits == words@[at + 4 * k]
                &&& points@[k].y.bits == words@[at + 4 * k + 1]
                &&& points@[k].z.bits == words@[at + 4 * k + 2]
            },
{
    let total: usize = words.len();
    let mut points: Vec<Point> = Vec::new();
    let mut k: usize = 0;
    while k < n
        invariant
            k <= n,
            total == words@.len(),
            at + 4 * n <= total,
            points@.len() == k,
            forall|m: int| 0 <= m < k ==> #[trigger] points@[m] == point_at(words@, at + 4 * m),
        decreases n - k,
    {
        let i: usize = at + 4 * k;
        points.push(
            Point {
                x: Single { bits: words[i] },
                y: Single { bits: words[i + 1] },
                z: Single { bits: words[i + 2] },
            },
        );
        k += 1;
    }
    points
}

/// Points that are packed are read back as they were.
pub proof fn lemma_unpack_undoes_pack(points: Seq<Point>, k: int)
    requires
        0 <= k < points.len(),
    ensures
        point_at(packed(points), 4 * k) == points[k],
{
    assert((4 * k) / 4 == k && (4 * k) % 4 == 0);
    assert((4 * k + 1) / 4 == k && (4 * k + 1) % 4 == 1);
    assert((4 * k + 2) / 4 == k && (4 * k + 2) % 4 == 2);
}

/// Reads `n` numbers from word `at` on.
pub fn numbers(words: &Vec<u32>, at: usize, n: usize) -> (values: Vec<Single>)
    requires
        at + n <= words@.len(),
    ensures
        values@.len() == n,
        forall|k: int| 0 <= k < n ==> (#[trigger] values@[k]).bits == words@[at + k],
{
    let total: usize = words.len();
    let mut values: Vec<Single> = Vec::new();
    let mut k: usize = 0;
    while k < n
        invariant
            k <= n,
            total == words@.len(),
            at + n <= total,
            values@.len() == k,
            forall|m: int| 0 <= m < k ==> (#[trigger] values@[m]).bits == words@[at + m],
        decreases n - k,
    {
        values.push(Single { bits: words[at + k] });
        k += 1;
    }
    values
}

/// The words of some numbers.
pub fn words_of(values: &Vec<Single>) -> (words: Vec<u32>)
    ensures
        words@.len() == values@.len(),
        forall|k: int| 0 <= k < words@.len() ==> #[trigger] words@[k] == values@[k].bits,
{
    let mut words: Vec<u32> = Vec::new();
    let mut k: usize = 0;
    while k < values.len()
        invariant
            k <= values@.len(),
            words@.len() == k,
            forall|m: int| 0 <= m < k ==> #[trigger] words@[m] == values@[m].bits,
        decreases values@.len() - k,
    {
        words.push(values[k].bits);
        k += 1;
    }
    words
}

/// The first word of what was read back, if there is one.
pub fn first_word(bytes: &[u8]) -> (word: Option<u32>)
    ensures
        word is None <==> bytes@.len() == 0,
        word is Some ==> exists|words: Seq<u32>| #[trigger]
            spells(padded(bytes@), words) && words[0] == word->0,
{
    let words: Vec<u32> = cast(bytes);
    if words.len() == 0 {
        None
    } else {
        assert(spells(padded(bytes@), words@));
        Some(words[0])
    }
}

/// The first four words of what was read back, if there are as many.
pub fn first_quad(bytes: &[u8]) -> (quad: Option<Quad>)
    ensures
        quad is None <==> bytes@.len() <= 12,
        quad is Some ==> exists|words: Seq<u32>| #[trigger]
            spells(padded(bytes@), words) && words.len() >= 4 && quad->0.x.bits == words[0]
                && quad->0.y.bits == words[1] && quad->0.z.bits == words[2] && quad->0.w.bits
                == words[3],
{
    let words: Vec<u32> = cast(bytes);
    if words.len() < 4 {
        None
    } else {
        assert(spells(padded(bytes@), words@));
        Some(
            Quad {
                x: Single { bits: words[0] },
                y: Single { bits: words[1] },
                z: Single { bits: words[2] },
                w: Single { bits: words[3] },
            },
        )
    }
}

/// The particle state as it was read back.
pub struct Particles {
    pub pos: Vec<Point>,
    pub previous: Vec<Point>,
    pub vel: Vec<Point>,
    pub foam: Vec<Single>,
    pub spray: Vec<Single>,
}

/// The ids of what was read back: they lie after the three buffers of points and
/// the two of numbers.
pub open spec fn ids_of(words: Seq<u32>, n: int) -> Seq<u32> {
    words.subrange(14 * n, 15 * n)
}

/// The points from word `at` on.
pub open spec fn points_from(words: Seq<u32>, at: int, n: int) -> Seq<Point> {
    Seq::new(n as nat, |k: int| point_at(words, at + 4 * k))
}

/// The numbers from word `at` on.
pub open spec fn numbers_from(words: Seq<u32>, at: int, n: int) -> Seq<Single> {
    Seq::new(n as nat, |k: int| Single { bits: words[at + k] })
}

/// Some values back in the fluid's numbering.
pub open spec fn put_back<T>(ids: Seq<u32>, values: Seq<T>, blank: T) -> Seq<T> {
    Seq::new(values.len(), |i: int| restored_at(ids, values, blank, i, ids.len() as int))
}

/// A point at the origin.
pub open spec fn origin() -> Point {
    Point {
        x: Single { bits: 0 },
        y: Single { bits: 0 },
        z: Single { bits: 0 },
    }
}

/// Takes apart the words of `n` particles, and puts each value back at the
/// particle it belongs to. None if a slot names a particle that there is not.
pub fn take_apart(words: &Vec<u32>, n: usize) -> (particles: Option<Particles>)
    requires
        words@.len() == 15 * n,
    ensures
        particles is None <==> exists|k: int|
            0 <= k < n && (#[trigger] ids_of(words@, n as int)[k]) >= n,
        particles is Some ==> {
            let ids = ids_of(words@, n as int);
            let p = particles->0;
            &&& p.pos@ == put_back(ids, points_from(words@, 0, n as int), origin())
            &&& p.previous@ == put_back(ids, points_from(words@, 4 * n, n as int), origin())
            &&& p.vel@ == put_back(ids, points_from(words@, 8 * n, n as int), origin())
            &&& p.foam@ == put_back(ids, numbers_from(words@, 12 * n, n as int), origin().x)
            &&& p.spray@ == put_back(ids, numbers_from(words@, 13 * n, n as int), origin().x)
        },
{
    let total: usize = words.len();
    let mut ids: Vec<u32> = Vec::new();
    let mut k: usize = 0;
    while k < n
        invariant
            k <= n,
            total == words@.len(),
            total == 15 * n,
            ids@.len() == k,
            forall|m: int| 0 <= m < k ==> #[trigger] ids@[m] == words@[14 * n + m] && ids@[m] < n,
        decreases n - k,
    {
        let id: u32 = words[14 * n + k];
        if id as usize >= n {
            assert(ids_of(words@, n as int)[k as int] >= n);
            return None;
        }
        ids.push(id);
        k += 1;
    }
    assert(ids@ =~= ids_of(words@, n as int));
    let none = Single { bits: 0 };
    let blank = Point { x: none, y: none, z: none };
    let pos: Vec<Point> = unpack(words, 0, n);
    let previous: Vec<Point> = unpack(words, 4 * n, n);
    let vel: Vec<Point> = unpack(words, 8 * n, n);
    let foam: Vec<Single> = numbers(words, 12 * n, n);
    let spray: Vec<Single> = numbers(words, 13 * n, n);
    proof {
        assert(pos@ =~= points_from(words@, 0, n as int));
        assert(previous@ =~= points_from(words@, 4 * n, n as int));
        assert(vel@ =~= points_from(words@, 8 * n, n as int));
        assert(foam@ =~= numbers_from(words@, 12 * n, n as int));
        assert(spray@ =~= numbers_from(words@, 13 * n, n as int));
    }
    let out = Particles {
        pos: restore(&ids, &pos, blank),
        previous: restore(&ids, &previous, blank),
        vel: restore(&ids, &vel, blank),
        foam: restore(&ids, &foam, none),
        spray: restore(&ids, &spray, none),
    };
    proof {
        assert(out.pos@ =~= put_back(ids@, pos@, blank));
        assert(out.previous@ =~= put_back(ids@, previous@, blank));
        assert(out.vel@ =~= put_back(ids@, vel@, blank));
        assert(out.foam@ =~= put_back(ids@, foam@, none));
        assert(out.spray@ =~= put_back(ids@, spray@, none));
    }
    Some(out)
}

/// What was read back is what every particle had, however the slots had been
/// renumbered in between.
pub proof fn lemma_readback_is_faithful<T>(
    ids: Seq<u32>,
    values: Seq<T>,
    original: Seq<T>,
    blank: T,
)
    requires
        carries(ids, values, original),
    ensures
        put_back(ids, values, blank) == original,
{
    assert forall|i: int| 0 <= i < original.len() implies #[trigger] put_back(
        ids,
        values,
        blank,
    )[i] == original[i] by {
        crate::numbering::lemma_restore_gives_back(ids, values, original, blank, i);
    }
    assert(put_back(ids, values, blank) =~= original);
}

/// The words of each buffer on the device.
pub type Contents = spec_fn(Buffer) -> Seq<u32>;

/// What a program leaves in the buffer that is read back, copy after copy, where
/// `words` was in it before.
pub open spec fn read_back_after(contents: Contents, program: Seq<Command>, words: Seq<u32>) -> Seq<
    u32,
>
    decreases program.len(),
{
    if program.len() == 0 {
        words
    } else {
        let before = read_back_after(contents, program.drop_last(), words);
        match program.last() {
            Command::Copy { from, at, to: Buffer::Readback, to_at, bytes: Some(bytes) } => Seq::new(
                before.len(),
                |i: int|
                    if to_at / 4 <= i < to_at / 4 + bytes / 4 {
                        contents(from)[at / 4 + i - to_at / 4]
                    } else {
                        before[i]
                    },
            ),
            _ => before,
        }
    }
}

/// The words of some numbers.
pub open spec fn bits_of(values: Seq<Single>) -> Seq<u32> {
    Seq::new(values.len(), |k: int| values[k].bits)
}

/// The particle state as it lies on the device, slot by slot.
pub struct Slots {
    pub pos: Seq<Point>,
    pub previous: Seq<Point>,
    pub vel: Seq<Point>,
    pub foam: Seq<Single>,
    pub spray: Seq<Single>,
    pub ids: Seq<u32>,
}

impl Slots {
    /// There are `n` slots.
    pub open spec fn sized(self, n: int) -> bool {
        &&& self.pos.len() == n
        &&& self.previous.len() == n
        &&& self.vel.len() == n
        &&& self.foam.len() == n
        &&& self.spray.len() == n
        &&& self.ids.len() == n
    }

    /// The device's buffers hold the slots, as they are packed.
    pub open spec fn lie_in(self, contents: Contents) -> bool {
        &&& contents(Buffer::Positions) == packed(self.pos)
        &&& contents(Buffer::Previous) == packed(self.previous)
        &&& contents(Buffer::Velocities) == packed(self.vel)
        &&& contents(Buffer::Foam) == bits_of(self.foam)
        &&& contents(Buffer::Spray) == bits_of(self.spray)
        &&& contents(Buffer::Ids) == self.ids
    }
}

/// The slots' words laid end to end.
pub open spec fn laid_out(slots: Slots) -> Seq<u32> {
    packed(slots.pos) + packed(slots.previous) + packed(slots.vel) + bits_of(slots.foam) + bits_of(
        slots.spray,
    ) + slots.ids
}

/// What one more copy for reading back does to the words.
proof fn lemma_one_more_copy(
    contents: Contents,
    program: Seq<Command>,
    words: Seq<u32>,
    from: Buffer,
    at: int,
    count: int,
)
    requires
        program.len() > 0,
        program.last() == read_back(from, 4 * at, 4 * count),
        0 <= at <= 0x10_0000_0000,
        0 <= count <= 0x10_0000_0000,
    ensures
        ({
            let before = read_back_after(contents, program.drop_last(), words);
            let after = read_back_after(contents, program, words);
            &&& after.len() == before.len()
            &&& forall|i: int|
                0 <= i < before.len() ==> #[trigger] after[i] == if at <= i < at + count {
                    contents(from)[i - at]
                } else {
                    before[i]
                }
        }),
{
}

/// What is read back after a download is the slots laid end to end, whatever was
/// in the buffer before.
pub proof fn lemma_download_lays_out(slots: Slots, contents: Contents, words: Seq<u32>, n: int)
    requires
        1 <= n <= 0x8000_0000,
        slots.sized(n),
        slots.lie_in(contents),
        words.len() == 15 * n,
    ensures
        read_back_after(contents, downloaded(n), words) == laid_out(slots),
{
    let p = downloaded(n);
    assert(p.take(0) =~= Seq::empty());
    assert(p.take(1).drop_last() =~= p.take(0));
    assert(p.take(2).drop_last() =~= p.take(1));
    assert(p.take(3).drop_last() =~= p.take(2));
    assert(p.take(4).drop_last() =~= p.take(3));
    assert(p.take(5).drop_last() =~= p.take(4));
    assert(p.take(6).drop_last() =~= p.take(5));
    assert(p.drop_last() =~= p.take(6));
    lemma_one_more_copy(contents, p.take(1), words, Buffer::Positions, 0, 4 * n);
    lemma_one_more_copy(contents, p.take(2), words, Buffer::Previous, 4 * n, 4 * n);
    lemma_one_more_copy(contents, p.take(3), words, Buffer::Velocities, 8 * n, 4 * n);
    lemma_one_more_copy(contents, p.take(4), words, Buffer::Foam, 12 * n, n);
    lemma_one_more_copy(contents, p.take(5), words, Buffer::Spray, 13 * n, n);
    lemma_one_more_copy(contents, p.take(6), words, Buffer::Ids, 14 * n, n);
    let (w, all) = (read_back_after(contents, p.take(6), words), laid_out(slots));
    assert(read_back_after(contents, p.take(0), words) == words);
    assert(read_back_after(contents, p, words) == w);
    assert(forall|i: int| 0 <= i < 15 * n ==> #[trigger] w[i] == all[i]);
    assert(w =~= all);
}

/// Slots laid end to end are taken apart into what was laid out.
proof fn lemma_laid_out_comes_apart(slots: Slots, n: int)
    requires
        0 <= n,
        slots.sized(n),
    ensures
        laid_out(slots).len() == 15 * n,
        points_from(laid_out(slots), 0, n) == slots.pos,
        points_from(laid_out(slots), 4 * n, n) == slots.previous,
        points_from(laid_out(slots), 8 * n, n) == slots.vel,
        numbers_from(laid_out(slots), 12 * n, n) == slots.foam,
        numbers_from(laid_out(slots), 13 * n, n) == slots.spray,
        ids_of(laid_out(slots), n) == slots.ids,
{
    let w = laid_out(slots);
    assert forall|k: int| 0 <= k < n implies #[trigger] points_from(w, 0, n)[k]
        == slots.pos[k] by {
        lemma_unpack_undoes_pack(slots.pos, k);
    }
    assert forall|k: int| 0 <= k < n implies #[trigger] points_from(w, 4 * n, n)[k]
        == slots.previous[k] by {
        lemma_unpack_undoes_pack(slots.previous, k);
    }
    assert forall|k: int| 0 <= k < n implies #[trigger] points_from(w, 8 * n, n)[k]
        == slots.vel[k] by {
        lemma_unpack_undoes_pack(slots.vel, k);
    }
    assert(points_from(w, 0, n) =~= slots.pos);
    assert(points_from(w, 4 * n, n) =~= slots.previous);
    assert(points_from(w, 8 * n, n) =~= slots.vel);
    assert(numbers_from(w, 12 * n, n) =~= slots.foam);
    assert(numbers_from(w, 13 * n, n) =~= slots.spray);
    assert(ids_of(w, n) =~= slots.ids);
}

/// A download gives every particle its own state back, however its slots are
/// numbered: the words that the download leaves to be read are taken apart, no
/// slot names a particle that there is not, and each of the five arrays is the
/// fluid's in its own numbering.
pub proof fn lemma_download_gives_back(
    slots: Slots,
    contents: Contents,
    words: Seq<u32>,
    fluid: Slots,
    n: int,
)
    requires
        1 <= n <= 0x8000_0000,
        slots.sized(n),
        slots.lie_in(contents),
        words.len() == 15 * n,
        carries(slots.ids, slots.pos, fluid.pos),
        carries(slots.ids, slots.previous, fluid.previous),
        carries(slots.ids, slots.vel, fluid.vel),
        carries(slots.ids, slots.foam, fluid.foam),
        carries(slots.ids, slots.spray, fluid.spray),
    ensures
        ({
            let read = read_back_after(contents, downloaded(n), words);
            let ids = ids_of(read, n);
            &&& read.len() == 15 * n
            &&& forall|k: int| 0 <= k < n ==> (#[trigger] ids[k]) < n
            &&& put_back(ids, points_from(read, 0, n), origin()) == fluid.pos
            &&& put_back(ids, points_from(read, 4 * n, n), origin()) == fluid.previous
            &&& put_back(ids, points_from(read, 8 * n, n), origin()) == fluid.vel
            &&& put_back(ids, numbers_from(read, 12 * n, n), origin().x) == fluid.foam
            &&& put_back(ids, numbers_from(read, 13 * n, n), origin().x) == fluid.spray
        }),
{
    lemma_download_lays_out(slots, contents, words, n);
    lemma_laid_out_comes_apart(slots, n);
    lemma_readback_is_faithful(slots.ids, slots.pos, fluid.pos, origin());
    lemma_readback_is_faithful(slots.ids, slots.previous, fluid.previous, origin());
    lemma_readback_is_faithful(slots.ids, slots.vel, fluid.vel, origin());
    lemma_readback_is_faithful(slots.ids, slots.foam, fluid.foam, origin().x);
    lemma_readback_is_faithful(slots.ids, slots.spray, fluid.spray, origin().x);
}

/// One of the particle buffers at some time: what the slots hold, whose it is,
/// and the same in the fluid's own numbering.
pub struct Moment<T> {
    pub ids: Seq<u32>,
    pub values: Seq<T>,
    pub fluid: Seq<T>,
}

/// Just uploaded: the slots are numbered as the fluid is.
pub open spec fn just_uploaded<T>(m: Moment<T>) -> bool {
    &&& m.values == m.fluid
    &&& m.ids.len() == m.fluid.len()
    &&& forall|k: int| 0 <= k < m.ids.len() ==> #[trigger] m.ids[k] == k
}

/// The slots were taken in another order, ids along with them.
pub open spec fn renumbers<T>(a: Moment<T>, b: Moment<T>, order: Seq<u32>) -> bool {
    &&& complete(order, a.fluid.len() as int)
    &&& b.ids == gather(a.ids, order)
    &&& b.values == gather(a.values, order)
    &&& b.fluid == a.fluid
}

/// Each slot's value was moved on, for the particle whose it is.
pub open spec fn moves_on<T>(a: Moment<T>, b: Moment<T>) -> bool {
    &&& b.ids == a.ids
    &&& b.fluid.len() == a.fluid.len()
    &&& b.values.len() == a.values.len()
    &&& forall|k: int|
        0 <= k < b.values.len() ==> #[trigger] b.values[k] == b.fluid[b.ids[k] as int]
}

/// What may happen to the slots from one moment to the next.
pub open spec fn follows<T>(a: Moment<T>, b: Moment<T>) -> bool {
    moves_on(a, b) || exists|order: Seq<u32>| #[trigger] renumbers(a, b, order)
}

/// From an upload on, every particle stays its own: after any number of steps and
/// renumberings, a readback puts each value back at the particle it belongs to.
/// With none of either, that is what was uploaded.
pub proof fn lemma_particles_stay_their_own<T>(history: Seq<Moment<T>>, blank: T)
    requires
        history.len() >= 1,
        just_uploaded(history[0]),
        forall|k: int|
            0 <= k < history.len() - 1 ==> follows(#[trigger] history[k], history[k + 1]),
    ensures
        carries(history.last().ids, history.last().values, history.last().fluid),
        put_back(history.last().ids, history.last().values, blank) == history.last().fluid,
    decreases history.len(),
{
    let last = history.last();
    if history.len() == 1 {
        assert forall|i: int| 0 <= i < last.fluid.len() implies #[trigger] occurs(last.ids, i) by {
            assert(last.ids[i] == i);
        }
    } else {
        let rest = history.drop_last();
        let was = rest.last();
        assert forall|k: int| 0 <= k < rest.len() - 1 implies follows(
            #[trigger] rest[k],
            rest[k + 1],
        ) by {
            assert(rest[k] == history[k] && rest[k + 1] == history[k + 1]);
        }
        lemma_particles_stay_their_own(rest, blank);
        assert(was == history[history.len() - 2]);
        assert(follows(was, history[history.len() - 2 + 1]));
        if !moves_on(was, last) {
            let order = choose|order: Seq<u32>| #[trigger] renumbers(was, last, order);
            crate::numbering::lemma_renumbering_carries(was.ids, was.values, was.fluid, order);
        }
    }
    lemma_readback_is_faithful(last.ids, last.values, last.fluid, blank);
}

} // verus!
