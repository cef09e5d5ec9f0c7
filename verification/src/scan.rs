//! The schedule of a work-efficient scan.
//!
//! An up-sweep combines ever wider pairs until the last entry holds the total;
//! a down-sweep then hands each entry what came before it. A level is one
//! dispatch: `count` invocations, one for each pair of blocks `stride` wide.
use vstd::prelude::*;
use vstd::arithmetic::power2::{
    lemma2_to64, lemma_pow2_adds, lemma_pow2_pos, lemma_pow2_strictly_increases,
    lemma_pow2_unfold, pow2,
};
use crate::num::is_power_of_two;

verus! {

/// One level of a sweep, as the shader is told of it.
#[derive(Clone, Copy, PartialEq, Eq, Structural, Debug)]
pub struct Level {
    /// Width of each half of a pair.
    pub stride: u32,
    /// Pairs at this level.
    pub count: u32,
    /// The widest stride, at which the down-sweep starts from nothing.
    pub top: u32,
    /// One for a level of the down-sweep.
    pub down: u32,
}

/// The bytes a level takes in a uniform buffer.
pub const LEVEL_BYTES: u32 = 16;

/// The level of stride `2^k` over `size` entries.
pub open spec fn level(size: int, k: nat, down: u32) -> Level {
    Level {
        stride: pow2(k) as u32,
        count: (size / (2 * pow2(k)) as int) as u32,
        top: (size / 2) as u32,
        down,
    }
}

/// The first `n` levels of an up-sweep: strides 1, 2, 4 and so on.
pub open spec fn rising(size: int, n: nat) -> Seq<Level> {
    Seq::new(n, |k: int| level(size, k as nat, 0))
}

/// A down-sweep from stride `2^(n-1)`, to the level before stride `2^(m-1)`.
pub open spec fn falling(size: int, n: nat, m: nat) -> Seq<Level> {
    Seq::new((n - m) as nat, |k: int| level(size, (n - 1 - k) as nat, 1))
}

/// The levels of a sweep over `2^n` entries, in the order they run.
pub open spec fn schedule(n: nat, down_sweep: bool) -> Seq<Level> {
    if down_sweep {
        rising(pow2(n) as int, n) + falling(pow2(n) as int, n, 0)
    } else {
        rising(pow2(n) as int, n)
    }
}

/// The levels of a sweep over a power-of-two `size`: the up-sweep, and the
/// down-sweep if asked.
pub fn levels(size: u32, down_sweep: bool) -> (levels: Vec<Level>)
    requires
        is_power_of_two(size as int),
    ensures
        forall|n: nat| #[trigger] pow2(n) == size ==> levels@ == schedule(n, down_sweep),
        levels@.len() <= 62,
{
    let ghost n: nat = choose|n: nat| pow2(n) == size;
    let top: u32 = size / 2;
    let mut levels: Vec<Level> = Vec::new();
    let mut stride: u32 = 1;
    let ghost mut k: nat = 0;
    proof {
        lemma2_to64();
        if n >= 32 {
            if n > 32 {
                lemma_pow2_strictly_increases(32, n);
            }
        }
    }
    while stride < size
        invariant
            k <= n <= 31,
            size == pow2(n),
            top == size / 2,
            stride == pow2(k),
            levels@ == rising(size as int, k),
        decreases n - k,
    {
        proof {
            if k >= n {
                assert(stride >= size);
            }
            lemma_pow2_pos(k);
            lemma_pow2_unfold((k + 1) as nat);
            if k + 1 < n {
                lemma_pow2_strictly_increases((k + 1) as nat, n);
            }
        }
        levels.push(Level { stride, count: size / (2 * stride), top, down: 0 });
        stride = stride * 2;
        proof {
            assert(levels@ =~= rising(size as int, (k + 1) as nat));
            k = k + 1;
        }
    }
    proof {
        if k < n {
            lemma_pow2_strictly_increases(k, n);
        }
    }
    if down_sweep {
        let mut stride: u32 = top;
        let ghost mut m: nat = n;
        proof {
            if n > 0 {
                lemma_pow2_unfold(n);
            }
            assert(levels@ =~= rising(size as int, n) + falling(size as int, n, n));
        }
        while stride >= 1
            invariant
                m <= n <= 31,
                size == pow2(n),
                top == size / 2,
                m > 0 ==> stride == pow2((m - 1) as nat),
                m == 0 ==> stride == 0,
                levels@ == rising(size as int, n) + falling(size as int, n, m),
            decreases m,
        {
            proof {
                lemma_pow2_unfold(m);
                if m < n {
                    lemma_pow2_strictly_increases(m, n);
                }
                if m > 1 {
                    lemma_pow2_unfold((m - 1) as nat);
                }
                lemma2_to64();
            }
            levels.push(Level { stride, count: size / (2 * stride), top, down: 1 });
            stride = stride / 2;
            proof {
                assert(levels@ =~= rising(size as int, n) + falling(
                    size as int,
                    n,
                    (m - 1) as nat,
                ));
                m = (m - 1) as nat;
            }
        }
    }
    proof {
        assert forall|o: nat| #[trigger] pow2(o) == size implies o == n by {
            if o < n {
                lemma_pow2_strictly_increases(o, n);
            } else if n < o {
                lemma_pow2_strictly_increases(n, o);
            }
        }
    }
    levels
}

/// `op` gives the same however its operands are bracketed.
pub open spec fn associative<T>(op: spec_fn(T, T) -> T) -> bool {
    forall|x: T, y: T, z: T| #[trigger] op(op(x, y), z) == op(x, op(y, z))
}

/// `zero` changes nothing it is combined with.
pub open spec fn neutral<T>(op: spec_fn(T, T) -> T, zero: T) -> bool {
    forall|x: T| #[trigger] op(zero, x) == x
}

/// The entries from `lo` to before `hi`, combined from the left.
pub open spec fn total<T>(op: spec_fn(T, T) -> T, a: Seq<T>, lo: int, hi: int) -> T
    decreases hi - lo,
{
    if hi <= lo + 1 {
        a[lo]
    } else {
        op(total(op, a, lo, hi - 1), a[hi - 1])
    }
}

/// All the entries before `i`, combined from the left.
pub open spec fn before<T>(op: spec_fn(T, T) -> T, zero: T, a: Seq<T>, i: int) -> T
    decreases i,
{
    if i <= 0 {
        zero
    } else {
        op(before(op, zero, a, i - 1), a[i - 1])
    }
}

/// What a level does: its invocation `p` takes the pair of blocks that ends at
/// entry `(2p + 2) * stride - 1`. Going up, it adds the left block's end to the
/// right block's. Coming down, it hands the right end, or nothing at the top,
/// to the left one, and adds the two for the right.
pub open spec fn run_level<T>(op: spec_fn(T, T) -> T, zero: T, a: Seq<T>, level: Level) -> Seq<T> {
    let s = level.stride as int;
    Seq::new(
        a.len(),
        |i: int|
            {
                let pair = i / (2 * s);
                if pair < level.count && (i + 1) % (2 * s) == 0 {
                    if level.down == 0 {
                        op(a[i - s], a[i])
                    } else {
                        op(handed(zero, a, level, i), a[i - s])
                    }
                } else if pair < level.count && (i + 1) % (2 * s) == s && level.down != 0 {
                    handed(zero, a, level, i + s)
                } else {
                    a[i]
                }
            },
    )
}

/// What a level of the down-sweep takes from the right end of a pair.
pub open spec fn handed<T>(zero: T, a: Seq<T>, level: Level, right: int) -> T {
    if level.stride == level.top {
        zero
    } else {
        a[right]
    }
}

/// The entries after every level has run.
pub open spec fn run<T>(
    op: spec_fn(T, T) -> T,
    zero: T,
    a: Seq<T>,
    levels: Seq<Level>,
) -> Seq<T>
    decreases levels.len(),
{
    if levels.len() == 0 {
        a
    } else {
        run_level(op, zero, run(op, zero, a, levels.drop_last()), levels.last())
    }
}

proof fn lemma_total_joins<T>(op: spec_fn(T, T) -> T, a: Seq<T>, lo: int, mid: int, hi: int)
    requires
        associative(op),
        lo < mid < hi,
    ensures
        total(op, a, lo, hi) == op(total(op, a, lo, mid), total(op, a, mid, hi)),
    decreases hi - mid,
{
    if mid + 1 < hi {
        lemma_total_joins(op, a, lo, mid, hi - 1);
        assert(op(op(total(op, a, lo, mid), total(op, a, mid, hi - 1)), a[hi - 1]) == op(
            total(op, a, lo, mid),
            op(total(op, a, mid, hi - 1), a[hi - 1]),
        ));
    }
}

proof fn lemma_before_joins<T>(
    op: spec_fn(T, T) -> T,
    zero: T,
    a: Seq<T>,
    lo: int,
    hi: int,
)
    requires
        associative(op),
        0 <= lo < hi,
    ensures
        before(op, zero, a, hi) == op(before(op, zero, a, lo), total(op, a, lo, hi)),
    decreases hi - lo,
{
    if lo + 1 < hi {
        lemma_before_joins(op, zero, a, lo, hi - 1);
        assert(op(op(before(op, zero, a, lo), total(op, a, lo, hi - 1)), a[hi - 1]) == op(
            before(op, zero, a, lo),
            op(total(op, a, lo, hi - 1), a[hi - 1]),
        ));
    } else {
        assert(total(op, a, lo, hi) == a[lo]);
    }
}

/// An entry whose number is a multiple of the double stride is the right end of
/// one of the level's pairs, and one whose number is an odd multiple of the
/// stride the left end.
proof fn lemma_pairs(n: nat, k: nat, i: int)
    requires
        k < n <= 31,
        0 <= i < pow2(n),
    ensures
        ({
            let s = pow2(k) as int;
            let l = level(pow2(n) as int, k, 0);
            &&& 0 < s
            &&& l.stride == s
            &&& l.count == pow2(n) as int / (2 * s)
            &&& i / (2 * s) < l.count
            &&& pow2((k + 1) as nat) == 2 * s
            &&& l.top == pow2((n - 1) as nat)
            &&& pow2(n) == l.count * (2 * s)
        }),
{
    let s = pow2(k) as int;
    lemma_pow2_pos(k);
    lemma_pow2_unfold((k + 1) as nat);
    lemma_pow2_unfold(n);
    lemma2_to64();
    lemma_pow2_strictly_increases(k, n);
    if n < 32 {
        lemma_pow2_strictly_increases(n, 32);
    }
    let rest = (n - (k + 1)) as nat;
    lemma_pow2_adds((k + 1) as nat, rest);
    lemma_pow2_pos(rest);
    let c = pow2(rest) as int;
    assert(pow2(n) == c * (2 * s)) by (nonlinear_arith)
        requires
            pow2(n) == pow2((k + 1) as nat) * pow2(rest),
            pow2((k + 1) as nat) == 2 * s,
            c == pow2(rest),
    ;
    vstd::arithmetic::div_mod::lemma_div_multiples_vanish(c, 2 * s);
    assert(c * (2 * s) == (2 * s) * c) by (nonlinear_arith);
    assert(c <= pow2(n)) by (nonlinear_arith)
        requires
            pow2(n) == c * (2 * s),
            s > 0,
            c > 0,
    ;
    assert(i / (2 * s) < c) by (nonlinear_arith)
        requires
            0 <= i < c * (2 * s),
            s > 0,
    ;
}

/// Numbers that `2^(k+1)` divides, `2^k` divides too; the others that `2^k`
/// divides are odd multiples of it.
proof fn lemma_multiples(k: nat, m: int)
    ensures
        m % (2 * pow2(k) as int) == 0 ==> m % (pow2(k) as int) == 0 && (m - pow2(k)) % (pow2(
            k,
        ) as int) == 0 && (m - pow2(k)) % (2 * pow2(k) as int) == pow2(k),
        m % (pow2(k) as int) == 0 && m % (2 * pow2(k) as int) != 0 ==> m % (2 * pow2(k) as int)
            == pow2(k) && (m + pow2(k)) % (2 * pow2(k) as int) == 0,
        m % (2 * pow2(k) as int) == pow2(k) ==> m % (pow2(k) as int) == 0 && (m + pow2(k)) % (2
            * pow2(k) as int) == 0,
{
    let s = pow2(k) as int;
    lemma_pow2_pos(k);
    let q = m / (2 * s);
    let r = m % (2 * s);
    vstd::arithmetic::div_mod::lemma_fundamental_div_mod(m, 2 * s);
    assert((2 * s) * q == s * (2 * q)) by (nonlinear_arith);
    if r < s {
        vstd::arithmetic::div_mod::lemma_fundamental_div_mod_converse(m, s, 2 * q, r);
    } else {
        assert(s * (2 * q) + r == s * (2 * q + 1) + (r - s)) by (nonlinear_arith);
        vstd::arithmetic::div_mod::lemma_fundamental_div_mod_converse(m, s, 2 * q + 1, r - s);
    }
    if r == 0 {
        assert((2 * s) * q - s == (2 * s) * (q - 1) + s) by (nonlinear_arith);
        vstd::arithmetic::div_mod::lemma_fundamental_div_mod_converse(m - s, 2 * s, q - 1, s);
        assert((2 * s) * q - s == s * (2 * q - 1)) by (nonlinear_arith);
        vstd::arithmetic::div_mod::lemma_fundamental_div_mod_converse(m - s, s, 2 * q - 1, 0);
    }
    if r == s {
        assert((2 * s) * q + s + s == (2 * s) * (q + 1)) by (nonlinear_arith);
        vstd::arithmetic::div_mod::lemma_fundamental_div_mod_converse(m + s, 2 * s, q + 1, 0);
    }
}

/// What `2^j` does not divide, no greater power of two does.
proof fn lemma_indivisible(j: nat, k: nat, m: int)
    requires
        j <= k,
        m % (pow2(j) as int) != 0,
    ensures
        m % (pow2(k) as int) != 0,
    decreases k - j,
{
    if j < k {
        lemma_indivisible(j, (k - 1) as nat, m);
        lemma_multiples((k - 1) as nat, m);
        lemma_pow2_unfold(k);
    }
}

/// A block's last entry holds the block's total once every narrower level of
/// the up-sweep has run.
proof fn lemma_rising<T>(op: spec_fn(T, T) -> T, zero: T, a: Seq<T>, n: nat, k: nat)
    requires
        associative(op),
        k <= n <= 31,
        a.len() == pow2(n),
    ensures
        run(op, zero, a, rising(pow2(n) as int, k)).len() == a.len(),
        forall|i: int|
            0 <= i < a.len() && (i + 1) % (pow2(k) as int) == 0 ==> #[trigger] run(
                op,
                zero,
                a,
                rising(pow2(n) as int, k),
            )[i] == total(op, a, i + 1 - pow2(k), i + 1),
    decreases k,
{
    let up = rising(pow2(n) as int, k);
    if k == 0 {
        lemma2_to64();
        assert(up =~= Seq::empty());
    } else {
        let j = (k - 1) as nat;
        lemma_rising(op, zero, a, n, j);
        let shorter = rising(pow2(n) as int, j);
        assert(up.drop_last() =~= shorter);
        let b = run(op, zero, a, shorter);
        let c = run(op, zero, a, up);
        let s = pow2(j) as int;
        lemma_pow2_unfold(k);
        assert(up.last() == level(pow2(n) as int, j, 0));
        assert forall|i: int| 0 <= i < a.len() && (i + 1) % (pow2(k) as int)
            == 0 implies #[trigger] c[i] == total(op, a, i + 1 - pow2(k), i + 1) by {
            lemma_pairs(n, j, i);
            lemma_multiples(j, i + 1);
            assert(i + 1 >= 2 * s) by {
                vstd::arithmetic::div_mod::lemma_fundamental_div_mod(i + 1, 2 * s);
                let q = (i + 1) / (2 * s);
                assert(i + 1 >= 2 * s) by (nonlinear_arith)
                    requires
                        i + 1 == (2 * s) * q,
                        i + 1 > 0,
                        s > 0,
                ;
            }
            assert(c[i] == op(b[i - s], b[i]));
            assert(b[i - s] == total(op, a, i - s + 1 - s, i - s + 1));
            assert(b[i] == total(op, a, i + 1 - s, i + 1));
            lemma_total_joins(op, a, i + 1 - 2 * s, i + 1 - s, i + 1);
        }
    }
}

/// The up-sweep's last word on an entry is the total of the widest block that
/// ends there: wider levels leave it be.
proof fn lemma_risen<T>(op: spec_fn(T, T) -> T, zero: T, a: Seq<T>, n: nat, k: nat, m: nat, i: int)
    requires
        associative(op),
        k < m <= n <= 31,
        a.len() == pow2(n),
        0 <= i < a.len(),
        (i + 1) % (pow2(k) as int) == 0,
        (i + 1) % (pow2((k + 1) as nat) as int) != 0,
    ensures
        run(op, zero, a, rising(pow2(n) as int, m))[i] == total(op, a, i + 1 - pow2(k), i + 1),
    decreases m,
{
    let up = rising(pow2(n) as int, m);
    let j = (m - 1) as nat;
    let shorter = rising(pow2(n) as int, j);
    assert(up.drop_last() =~= shorter);
    assert(up.last() == level(pow2(n) as int, j, 0));
    lemma_rising(op, zero, a, n, j);
    lemma_pairs(n, j, i);
    lemma_indivisible((k + 1) as nat, m, i + 1);
    if m > k + 1 {
        lemma_risen(op, zero, a, n, k, j, i);
    }
}

/// As the down-sweep narrows, a block's last entry holds what came before the
/// block, and the rest is as the up-sweep left it.
proof fn lemma_falling<T>(op: spec_fn(T, T) -> T, zero: T, a: Seq<T>, n: nat, m: nat)
    requires
        associative(op),
        neutral(op, zero),
        m < n <= 31,
        a.len() == pow2(n),
    ensures
        ({
            let up = rising(pow2(n) as int, n);
            let done = run(op, zero, a, up + falling(pow2(n) as int, n, m));
            &&& done.len() == a.len()
            &&& forall|i: int|
                0 <= i < a.len() && (i + 1) % (pow2(m) as int) == 0 ==> #[trigger] done[i]
                    == before(op, zero, a, i + 1 - pow2(m))
            &&& forall|i: int|
                0 <= i < a.len() && (i + 1) % (pow2(m) as int) != 0 ==> #[trigger] done[i] == run(
                    op,
                    zero,
                    a,
                    up,
                )[i]
        }),
    decreases n - m,
{
    let up = rising(pow2(n) as int, n);
    let levels = up + falling(pow2(n) as int, n, m);
    let earlier = up + falling(pow2(n) as int, n, (m + 1) as nat);
    let risen = run(op, zero, a, up);
    lemma_rising(op, zero, a, n, n);
    assert(levels.drop_last() =~= earlier);
    assert(levels.last() == level(pow2(n) as int, m, 1));
    let b = run(op, zero, a, earlier);
    let c = run(op, zero, a, levels);
    if m + 1 < n {
        lemma_falling(op, zero, a, n, (m + 1) as nat);
    } else {
        assert(earlier =~= up);
    }
    let s = pow2(m) as int;
    let l = level(pow2(n) as int, m, 1);
    lemma_pow2_unfold((m + 1) as nat);
    lemma_pow2_pos(m);
    lemma_pow2_pos(n);
    lemma_pairs(n, m, 0);
    if m + 1 < n {
        lemma_pow2_strictly_increases(m, (n - 1) as nat);
    }
    // What the right end of a pair hands on is all that came before the pair.
    assert forall|j: int| 0 <= j < a.len() && (j + 1) % (2 * s) == 0 implies handed(zero, b, l, j)
        == #[trigger] before(op, zero, a, j + 1 - 2 * s) && j + 1 >= 2 * s by {
        vstd::arithmetic::div_mod::lemma_fundamental_div_mod(j + 1, 2 * s);
        let q = (j + 1) / (2 * s);
        assert(j + 1 >= 2 * s) by (nonlinear_arith)
            requires
                j + 1 == (2 * s) * q,
                j + 1 > 0,
                s > 0,
        ;
        if m + 1 == n {
            assert(j + 1 == 2 * s);
        } else {
            assert(b[j] == before(op, zero, a, j + 1 - pow2((m + 1) as nat)));
        }
    }
    assert forall|i: int| 0 <= i < a.len() && (i + 1) % s != 0 implies #[trigger] c[i]
        == risen[i] by {
        lemma_pairs(n, m, i);
        lemma_multiples(m, i + 1);
        assert((i + 1) % (2 * s) != 0 && (i + 1) % (2 * s) != s);
        assert(c[i] == b[i]);
    }
    assert forall|i: int| 0 <= i < a.len() && (i + 1) % s == 0 implies #[trigger] c[i] == before(
        op,
        zero,
        a,
        i + 1 - s,
    ) by {
        lemma_pairs(n, m, i);
        lemma_multiples(m, i + 1);
        if (i + 1) % (2 * s) == 0 {
            assert(handed(zero, b, l, i) == before(op, zero, a, i + 1 - 2 * s));
            let left = i - s;
            lemma_multiples(m, left + 1);
            lemma_risen(op, zero, a, n, m, n, left);
            assert(b[left] == risen[left]);
            assert(c[i] == op(handed(zero, b, l, i), b[left]));
            lemma_before_joins(op, zero, a, i + 1 - 2 * s, i + 1 - s);
        } else {
            let right = i + s;
            assert(right < a.len()) by {
                vstd::arithmetic::div_mod::lemma_fundamental_div_mod(right + 1, 2 * s);
                let q = (right + 1) / (2 * s);
                let count = l.count as int;
                assert(right + 1 <= count * (2 * s)) by (nonlinear_arith)
                    requires
                        right + 1 == (2 * s) * q,
                        right + 1 - s <= count * (2 * s),
                        s > 0,
                ;
            }
            assert(c[i] == handed(zero, b, l, right));
            assert(handed(zero, b, l, right) == before(op, zero, a, right + 1 - 2 * s));
        }
    }
}

/// A scan over `2^n` entries, at least two, leaves in each entry the
/// combination of the ones before it.
pub proof fn lemma_scan_is_the_exclusive_prefix<T>(
    op: spec_fn(T, T) -> T,
    zero: T,
    a: Seq<T>,
    n: nat,
)
    requires
        associative(op),
        neutral(op, zero),
        1 <= n <= 31,
        a.len() == pow2(n),
    ensures
        run(op, zero, a, schedule(n, true)) == Seq::new(
            a.len(),
            |i: int| before(op, zero, a, i),
        ),
{
    lemma_falling(op, zero, a, n, 0);
    lemma2_to64();
    let done = run(op, zero, a, schedule(n, true));
    assert forall|i: int| 0 <= i < a.len() implies done[i] == before(op, zero, a, i) by {
        assert((i + 1) % (pow2(0) as int) == 0);
    }
    assert(done =~= Seq::new(a.len(), |i: int| before(op, zero, a, i)));
}

/// An up-sweep over `2^n` entries leaves the combination of them all in the
/// last one.
pub proof fn lemma_reduction_is_the_total<T>(op: spec_fn(T, T) -> T, zero: T, a: Seq<T>, n: nat)
    requires
        associative(op),
        n <= 31,
        a.len() == pow2(n),
    ensures
        run(op, zero, a, schedule(n, false))[a.len() - 1] == total(op, a, 0, a.len() as int),
{
    lemma_rising(op, zero, a, n, n);
    lemma_pow2_pos(n);
    let up = rising(pow2(n) as int, n);
    vstd::arithmetic::div_mod::lemma_mod_self_0(pow2(n) as int);
    assert(run(op, zero, a, up)[a.len() - 1] == total(
        op,
        a,
        a.len() - 1 + 1 - pow2(n),
        a.len() - 1 + 1,
    ));
}

/// A sweep over `2^n` entries goes up through the strides 1, 2, 4 and so on to half
/// the entries, and back down through the same strides if it is asked to. At each
/// level as many pairs as fit are combined, each of two blocks of the stride.
pub proof fn lemma_schedule(n: nat, down_sweep: bool, k: int)
    requires
        n <= 31,
        0 <= k < n || down_sweep && n <= k < 2 * n,
    ensures
        schedule(n, down_sweep).len() == if down_sweep {
            2 * n
        } else {
            n
        },
        ({
            let level = schedule(n, down_sweep)[k];
            &&& k < n ==> level.stride == pow2(k as nat) && level.down == 0
            &&& k >= n ==> level.stride == pow2((2 * n - 1 - k) as nat) && level.down == 1
            &&& level.count * (2 * level.stride) == pow2(n)
            &&& 2 * level.top == pow2(n)
        }),
{
    let j: nat = if k < n {
        k as nat
    } else {
        (2 * n - 1 - k) as nat
    };
    lemma_pow2_pos(n);
    lemma_pow2_unfold(n);
    lemma_pairs(n, j, 0);
}

} // verus!
