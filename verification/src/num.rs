//! Integer rounding used to size buffers and dispatches.
use vstd::prelude::*;
use vstd::arithmetic::power2::pow2;

verus! {

/// `a / b`, rounded up.
pub open spec fn ceil_div(a: int, b: int) -> int {
    (a + b - 1) / b
}

/// The least multiple of `m` that is at least `a`.
pub open spec fn ceil_to(a: int, m: int) -> int {
    ceil_div(a, m) * m
}

/// `n` is a power of two.
pub open spec fn is_power_of_two(n: int) -> bool {
    exists|k: nat| #[trigger] pow2(k) == n
}

/// The quotient of `a` by `b`, rounded up.
pub fn div_ceil(a: u32, b: u32) -> (r: u32)
    requires
        b > 0,
    ensures
        r == ceil_div(a as int, b as int),
        r <= a,
        (r - 1) * b < a <= r * b,
{
    let q: u32 = a / b;
    proof {
        lemma_ceil_div(a as int, b as int);
        assert(q * b + a % b == a && 0 <= a % b < b) by (nonlinear_arith)
            requires
                q == a / b,
                b > 0,
        ;
        let r = ceil_div(a as int, b as int);
        if a % b == 0 {
            assert(r == q) by (nonlinear_arith)
                requires
                    (r - 1) * b < a <= r * b,
                    q * b == a,
                    b > 0,
            ;
        } else {
            assert(r == q + 1) by (nonlinear_arith)
                requires
                    (r - 1) * b < a <= r * b,
                    q * b < a < q * b + b,
                    b > 0,
            ;
        }
        assert(r <= a) by (nonlinear_arith)
            requires
                (r - 1) * b < a,
                b > 0,
                a >= 0,
        ;
    }
    if a % b == 0 {
        q
    } else {
        q + 1
    }
}

/// Rounding up leaves less than one divisor over.
pub proof fn lemma_ceil_div(a: int, b: int)
    requires
        b > 0,
    ensures
        (ceil_div(a, b) - 1) * b < a <= ceil_div(a, b) * b,
{
    let q = ceil_div(a, b);
    vstd::arithmetic::div_mod::lemma_fundamental_div_mod(a + b - 1, b);
    assert((q - 1) * b < a <= q * b) by (nonlinear_arith)
        requires
            b > 0,
            a + b - 1 == b * q + (a + b - 1) % b,
            0 <= (a + b - 1) % b < b,
    ;
}

/// The least multiple of `m` that is at least `a`.
pub fn next_multiple_of(a: u32, m: u32) -> (r: u32)
    requires
        m > 0,
        a + m - 1 <= u32::MAX,
    ensures
        r == ceil_to(a as int, m as int),
        a <= r < a + m,
        r % m == 0,
{
    let q: u32 = div_ceil(a, m);
    proof {
        assert(q * m < a + m) by (nonlinear_arith)
            requires
                (q - 1) * m < a,
        ;
        assert((q * m) % m as int == 0) by {
            vstd::arithmetic::div_mod::lemma_mod_multiples_basic(q as int, m as int);
        }
    }
    q * m
}

/// As [`next_multiple_of`], for byte counts.
pub fn next_multiple_of_4(bytes: u64) -> (r: u64)
    requires
        bytes + 3 <= u64::MAX,
    ensures
        r == ceil_to(bytes as int, 4),
        bytes <= r < bytes + 4,
        r % 4 == 0,
{
    let q: u64 = (bytes + 3) / 4;
    q * 4
}

/// The least power of two that is at least `n`.
pub fn next_power_of_two(n: u32) -> (p: u32)
    requires
        n <= 0x8000_0000,
    ensures
        is_power_of_two(p as int),
        n <= p,
        p >= 1,
        n >= 1 ==> p < 2 * n,
        p == 1 || p % 2 == 0,
        forall|q: int| is_power_of_two(q) && n <= q ==> p <= q,
{
    let mut p: u32 = 1;
    let ghost mut k: nat = 0;
    proof {
        vstd::arithmetic::power2::lemma_pow2(0);
        assert(pow2(0) == 1) by {
            reveal(vstd::arithmetic::power2::pow2);
            reveal(vstd::arithmetic::power::pow);
        }
        assert forall|q: int| is_power_of_two(q) implies q > 0 by {
            let j = choose|j: nat| #[trigger] pow2(j) == q;
            vstd::arithmetic::power2::lemma_pow2_pos(j);
        }
    }
    while p < n
        invariant
            1 <= p <= 0x8000_0000,
            n <= 0x8000_0000,
            p == pow2(k),
            n >= 1 ==> p < 2 * n,
            p == 1 || p % 2 == 0,
            forall|q: int| is_power_of_two(q) && n <= q ==> p <= q,
        decreases 0x8000_0000 - p,
    {
        proof {
            vstd::arithmetic::power2::lemma_pow2_unfold(k + 1);
            assert(p <= 0x4000_0000) by {
                if p > 0x4000_0000 {
                    vstd::arithmetic::power2::lemma2_to64();
                    if k <= 30 {
                        if k < 30 {
                            vstd::arithmetic::power2::lemma_pow2_strictly_increases(k, 30);
                        }
                    } else {
                        if k > 31 {
                            vstd::arithmetic::power2::lemma_pow2_strictly_increases(31, k);
                        }
                    }
                    assert(false);
                }
            }
            assert forall|q: int| is_power_of_two(q) && n <= q implies 2 * p <= q by {
                let j = choose|j: nat| #[trigger] pow2(j) == q;
                if j <= k {
                    if j < k {
                        vstd::arithmetic::power2::lemma_pow2_strictly_increases(j, k);
                    }
                } else {
                    if j > k + 1 {
                        vstd::arithmetic::power2::lemma_pow2_strictly_increases(k + 1, j);
                    }
                }
            }
            k = k + 1;
        }
        p = p * 2;
    }
    p
}

} // verus!
