//! The particles' numbering on the device, and the way back.
//!
//! Renumbering takes every particle buffer, and the buffer of ids along with
//! them, in the cell order of the last grid. The ids say which particle each
//! slot holds, so a readback can put the values in their old places.
use vstd::prelude::*;
use crate::grid::{below, cell_members, Grid};
use crate::grid::{lemma_below_ends, lemma_members_complete, lemma_members_len, lemma_members_sound};

verus! {

/// A buffer taken in another order.
pub open spec fn gather<T>(a: Seq<T>, order: Seq<u32>) -> Seq<T> {
    Seq::new(order.len(), |k: int| a[order[k] as int])
}

/// `i` is somewhere in the order.
pub open spec fn occurs(order: Seq<u32>, i: int) -> bool {
    exists|k: int| 0 <= k < order.len() && #[trigger] order[k] == i
}

/// Every number below `n` occurs, and no other.
pub open spec fn complete(order: Seq<u32>, n: int) -> bool {
    &&& order.len() == n
    &&& forall|k: int| 0 <= k < order.len() ==> (#[trigger] order[k]) < n
    &&& forall|i: int| 0 <= i < n ==> #[trigger] occurs(order, i)
}

/// Slot `k` holds the value of particle `ids[k]`, and every particle has a slot.
pub open spec fn carries<T>(ids: Seq<u32>, values: Seq<T>, original: Seq<T>) -> bool {
    &&& complete(ids, original.len() as int)
    &&& values.len() == original.len()
    &&& forall|k: int| 0 <= k < values.len() ==> #[trigger] values[k] == original[ids[k] as int]
}

/// The value that the first `m` slots leave at particle `i`: the last one meant
/// for it.
pub open spec fn restored_at<T>(ids: Seq<u32>, values: Seq<T>, blank: T, i: int, m: int) -> T
    decreases m,
{
    if m <= 0 {
        blank
    } else if ids[m - 1] == i {
        values[m - 1]
    } else {
        restored_at(ids, values, blank, i, m - 1)
    }
}

/// Slots back into the fluid's own numbering.
pub fn restore<T: Copy>(ids: &Vec<u32>, values: &Vec<T>, blank: T) -> (out: Vec<T>)
    requires
        ids@.len() == values@.len(),
        forall|k: int| 0 <= k < ids@.len() ==> (#[trigger] ids@[k]) < values@.len(),
    ensures
        out@.len() == values@.len(),
        forall|i: int|
            0 <= i < out@.len() ==> #[trigger] out@[i] == restored_at(
                ids@,
                values@,
                blank,
                i,
                ids@.len() as int,
            ),
{
    let n: usize = values.len();
    let mut out: Vec<T> = Vec::new();
    let mut i: usize = 0;
    while i < n
        invariant
            i <= n,
            out@.len() == i,
            forall|j: int| 0 <= j < i ==> #[trigger] out@[j] == blank,
        decreases n - i,
    {
        out.push(blank);
        i += 1;
    }
    let mut k: usize = 0;
    while k < n
        invariant
            k <= n,
            n == values@.len(),
            ids@.len() == n,
            out@.len() == n,
            forall|k: int| 0 <= k < ids@.len() ==> (#[trigger] ids@[k]) < n,
            forall|i: int|
                0 <= i < n ==> #[trigger] out@[i] == restored_at(ids@, values@, blank, i, k as int),
        decreases n - k,
    {
        let id: usize = ids[k] as usize;
        out.set(id, values[k]);
        k += 1;
    }
    out
}

/// A particle gets the value of the last slot that names it, or none where no slot
/// does.
pub proof fn lemma_restored_last<T>(ids: Seq<u32>, values: Seq<T>, blank: T, i: int, m: int, k: int)
    requires
        0 <= m,
        -1 <= k < m,
        forall|l: int| k < l < m ==> (#[trigger] ids[l]) != i,
        k >= 0 ==> ids[k] == i,
    ensures
        restored_at(ids, values, blank, i, m) == if k >= 0 {
            values[k]
        } else {
            blank
        },
    decreases m,
{
    if m > k + 1 {
        assert(ids[m - 1] != i);
        lemma_restored_last(ids, values, blank, i, m - 1, k);
    }
}

/// The numbers from zero, in order.
pub fn identity(n: u32) -> (ids: Vec<u32>)
    ensures
        ids@.len() == n,
        forall|k: int| 0 <= k < n ==> #[trigger] ids@[k] == k,
        complete(ids@, n as int),
{
    let mut ids: Vec<u32> = Vec::new();
    let mut k: u32 = 0;
    while k < n
        invariant
            k <= n,
            ids@.len() == k,
            forall|m: int| 0 <= m < k ==> #[trigger] ids@[m] == m,
        decreases n - k,
    {
        ids.push(k);
        k += 1;
    }
    proof {
        assert forall|i: int| 0 <= i < n implies #[trigger] occurs(ids@, i) by {
            assert(ids@[i] == i);
        }
    }
    ids
}

/// A readback gives every particle its own value back, however the slots are
/// numbered.
pub proof fn lemma_restore_gives_back<T>(
    ids: Seq<u32>,
    values: Seq<T>,
    original: Seq<T>,
    blank: T,
    i: int,
)
    requires
        carries(ids, values, original),
        0 <= i < original.len(),
    ensures
        restored_at(ids, values, blank, i, ids.len() as int) == original[i],
{
    assert(occurs(ids, i));
    let k = choose|k: int| 0 <= k < ids.len() && #[trigger] ids[k] == i;
    lemma_restored_from(ids, values, original, blank, i, k, ids.len() as int);
}

proof fn lemma_restored_from<T>(
    ids: Seq<u32>,
    values: Seq<T>,
    original: Seq<T>,
    blank: T,
    i: int,
    k: int,
    m: int,
)
    requires
        carries(ids, values, original),
        0 <= k < m <= ids.len(),
        ids[k] == i,
    ensures
        restored_at(ids, values, blank, i, m) == original[i],
    decreases m,
{
    if ids[m - 1] == i {
        assert(values[m - 1] == original[ids[m - 1] as int]);
    } else {
        lemma_restored_from(ids, values, original, blank, i, k, m - 1);
    }
}

/// Renumbering keeps slots and ids together.
pub proof fn lemma_renumbering_carries<T>(
    ids: Seq<u32>,
    values: Seq<T>,
    original: Seq<T>,
    order: Seq<u32>,
)
    requires
        carries(ids, values, original),
        complete(order, original.len() as int),
    ensures
        carries(gather(ids, order), gather(values, order), original),
{
    let n = original.len() as int;
    let to = gather(ids, order);
    assert forall|i: int| 0 <= i < n implies #[trigger] occurs(to, i) by {
        assert(occurs(ids, i));
        let m = choose|m: int| 0 <= m < ids.len() && #[trigger] ids[m] == i;
        assert(occurs(order, m));
        let k = choose|k: int| 0 <= k < order.len() && #[trigger] order[k] == m;
        assert(to[k] == i);
    }
    assert forall|k: int| 0 <= k < order.len() implies #[trigger] gather(values, order)[k]
        == original[to[k] as int] by {
        assert(values[order[k] as int] == original[ids[order[k] as int] as int]);
    }
}

/// The order a grid lists its particles in has every one of them, and nothing
/// else.
pub proof fn lemma_grid_order_is_complete(grid: Grid, cells: Seq<usize>)
    requires
        grid.holds(cells),
    ensures
        complete(grid.sorted@, cells.len() as int),
{
    let n = cells.len() as int;
    let order = grid.sorted@;
    let count = grid.count();
    lemma_below_ends(cells, count, n);
    assert forall|k: int| 0 <= k < n implies (#[trigger] order[k]) < n by {
        let c = lemma_stretch(cells, k, count);
        lemma_members_len(cells, c, n);
        lemma_members_sound(cells, c, n);
        let at = k - below(cells, c, n);
        assert(order[below(cells, c, n) + at] == cell_members(cells, c)[at]);
    }
    assert forall|i: int| 0 <= i < n implies #[trigger] occurs(order, i) by {
        let c = cells[i] as int;
        lemma_members_complete(cells, n, i);
        lemma_members_len(cells, c, n);
        lemma_members_len(cells, c + 1, n);
        let list = cell_members(cells, c);
        let m = choose|m: int| 0 <= m < list.len() && list[m] == i as u32;
        assert(order[below(cells, c, n) + m] == list[m]);
    }
}

/// The cell whose stretch of the order holds position `k`.
pub(crate) proof fn lemma_stretch(cells: Seq<usize>, k: int, c: int) -> (found: int)
    requires
        0 <= k < below(cells, c, cells.len() as int),
        0 <= c,
    ensures
        0 <= found < c,
        below(cells, found, cells.len() as int) <= k < below(
            cells,
            found + 1,
            cells.len() as int,
        ),
    decreases c,
{
    let n = cells.len() as int;
    if c == 0 {
        lemma_none_below(cells, n);
        0
    } else if k < below(cells, c - 1, n) {
        lemma_stretch(cells, k, c - 1)
    } else {
        c - 1
    }
}

proof fn lemma_none_below(cells: Seq<usize>, n: int)
    requires
        0 <= n <= cells.len(),
    ensures
        below(cells, 0, n) == 0,
    decreases n,
{
    if n > 0 {
        lemma_none_below(cells, n - 1);
    }
}

} // verus!
