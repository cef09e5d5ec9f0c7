//! Single-precision numbers, held by their bits.
//!
//! The library compares, negates, clamps and truncates measured quantities, all
//! of which are exact; it never rounds. Whatever rounds is worked out by the
//! caller and handed over as a [`Single`].
use vstd::prelude::*;
use vstd::arithmetic::power2::{
    lemma2_to64, lemma_pow2_adds, lemma_pow2_pos, lemma_pow2_strictly_increases,
    lemma_pow2_unfold, pow2,
};

verus! {

/// The bits of positive infinity; a greater magnitude is not a number.
pub const INFINITE: u32 = 0x7f80_0000;

/// The sign bit.
pub const SIGN: u32 = 0x8000_0000;

/// Bits of the fraction, plus one: the weight of the exponent field.
pub const UNIT: u32 = 0x0080_0000;

/// The size of a magnitude, counted in the smallest positive single, `2^-149`.
/// Infinity ranks where the next number up would be.
#[verifier::opaque]
pub open spec fn quanta(magnitude: int) -> int {
    let exponent = magnitude / UNIT as int;
    let fraction = magnitude % UNIT as int;
    if exponent <= 0 {
        fraction
    } else {
        (UNIT + fraction) * pow2((exponent - 1) as nat)
    }
}

/// `one` as a count of quanta.
pub open spec fn one_in_quanta() -> int {
    pow2(149) as int
}

/// Greater magnitudes stand for greater numbers.
pub proof fn lemma_quanta_increases(a: int, b: int)
    requires
        0 <= a < b,
    ensures
        0 <= quanta(a) < quanta(b),
{
    reveal(quanta);
    let (ea, fa) = (a / UNIT as int, a % UNIT as int);
    let (eb, fb) = (b / UNIT as int, b % UNIT as int);
    assert(ea <= eb);
    if ea == eb {
        assert(fa < fb);
        if ea > 0 {
            let p = pow2((ea - 1) as nat) as int;
            lemma_pow2_pos((ea - 1) as nat);
            assert(0 <= (UNIT + fa) * p < (UNIT + fb) * p) by (nonlinear_arith)
                requires
                    0 <= fa < fb,
                    p > 0,
            ;
        }
    } else {
        let p = pow2((eb - 1) as nat) as int;
        lemma_pow2_pos((eb - 1) as nat);
        assert((UNIT + fb) * p >= UNIT * p) by (nonlinear_arith)
            requires
                fb >= 0,
                p > 0,
        ;
        if ea == 0 {
            assert(UNIT * p >= UNIT) by (nonlinear_arith)
                requires
                    p >= 1,
            ;
        } else {
            let o = pow2((ea - 1) as nat) as int;
            lemma_pow2_pos((ea - 1) as nat);
            lemma_pow2_unfold(ea as nat);
            if ea < eb - 1 {
                lemma_pow2_strictly_increases(ea as nat, (eb - 1) as nat);
            }
            assert(2 * o <= p);
            assert(0 <= (UNIT + fa) * o < UNIT * p) by (nonlinear_arith)
                requires
                    0 <= fa < UNIT,
                    o > 0,
                    2 * o <= p,
            ;
        }
    }
}

/// A number is what its bits spell: a sign, eight bits of exponent and twenty-three
/// of fraction, counted in quanta of `2^-149`. With all the exponent's bits set it
/// is infinite, or not a number.
pub proof fn lemma_bits(x: Single)
    ensures
        ({
            let exponent = (x.bits as int / 0x80_0000) % 0x100;
            let fraction = x.bits as int % 0x80_0000;
            let size = if exponent == 0 {
                fraction
            } else {
                (0x80_0000 + fraction) * pow2((exponent - 1) as nat)
            };
            &&& x.finite() <==> exponent < 255
            &&& x.nan() <==> exponent == 255 && fraction > 0
            &&& x.rank() == if x.bits as int / 0x8000_0000 == 1 {
                -size
            } else {
                size
            }
        }),
{
    reveal(quanta);
    let bits = x.bits as int;
    let m = bits % 0x8000_0000;
    assert(m / 0x80_0000 == (bits / 0x80_0000) % 0x100);
    assert(m % 0x80_0000 == bits % 0x80_0000);
}

/// Zero has no size.
pub proof fn lemma_zero()
    ensures
        !zero().nan(),
        zero().rank() == 0,
{
    reveal(quanta);
}

/// A comparison is that of the numbers themselves, and false of what is none.
pub proof fn lemma_comparisons(a: Single, b: Single)
    ensures
        a.below(b) <==> !a.nan() && !b.nan() && a.rank() < b.rank(),
        a.at_most(b) <==> !a.nan() && !b.nan() && a.rank() <= b.rank(),
        a.same(b) <==> !a.nan() && !b.nan() && a.rank() == b.rank(),
{
}

/// A normal number, from its exponent and fraction.
pub proof fn lemma_normal(bits: u32, exponent: nat, fraction: int)
    requires
        1 <= exponent < 255,
        0 <= fraction < 0x80_0000,
        bits == exponent * 0x80_0000 + fraction,
    ensures
        (Single { bits }).finite(),
        (Single { bits }).rank() == (0x80_0000 + fraction) * pow2((exponent - 1) as nat),
{
    lemma_bits(Single { bits });
}

/// A single-precision number.
#[derive(Clone, Copy, PartialEq, Eq, Structural, Debug)]
pub struct Single {
    pub bits: u32,
}

/// Zero.
pub open spec fn zero() -> Single {
    Single { bits: 0 }
}

impl Single {
    pub open spec fn magnitude(self) -> int {
        self.bits as int % SIGN as int
    }

    pub open spec fn is_negative(self) -> bool {
        self.bits >= SIGN
    }

    /// Not a number.
    pub open spec fn nan(self) -> bool {
        self.magnitude() > INFINITE
    }

    /// Neither infinite nor not a number.
    pub open spec fn finite(self) -> bool {
        self.magnitude() < INFINITE
    }

    /// The number itself, counted in the smallest positive single.
    pub open spec fn rank(self) -> int {
        if self.is_negative() {
            -quanta(self.magnitude())
        } else {
            quanta(self.magnitude())
        }
    }

    /// `self < other`; a comparison with what is not a number is false.
    pub open spec fn below(self, other: Single) -> bool {
        !self.nan() && !other.nan() && self.rank() < other.rank()
    }

    /// `self <= other`, likewise.
    pub open spec fn at_most(self, other: Single) -> bool {
        !self.nan() && !other.nan() && self.rank() <= other.rank()
    }

    /// `self == other` as numbers, likewise: the two zeros are equal.
    pub open spec fn same(self, other: Single) -> bool {
        !self.nan() && !other.nan() && self.rank() == other.rank()
    }

    /// `low <= self <= high`.
    pub open spec fn within(self, low: Single, high: Single) -> bool {
        low.at_most(self) && self.at_most(high)
    }

    /// The whole part of the number's size.
    pub open spec fn whole(self) -> int {
        quanta(self.magnitude()) / one_in_quanta()
    }

    pub fn is_nan(self) -> (r: bool)
        ensures
            r == self.nan(),
    {
        self.bits % SIGN > INFINITE
    }

    pub fn is_finite(self) -> (r: bool)
        ensures
            r == self.finite(),
    {
        self.bits % SIGN < INFINITE
    }

    /// Whether `self < other`.
    pub fn lt(self, other: Single) -> (r: bool)
        ensures
            r == self.below(other),
    {
        let a: u32 = self.bits % SIGN;
        let b: u32 = other.bits % SIGN;
        proof {
            lemma_compare(self, other);
        }
        if a > INFINITE || b > INFINITE {
            false
        } else if self.bits >= SIGN {
            if other.bits >= SIGN {
                b < a
            } else {
                a > 0 || b > 0
            }
        } else if other.bits >= SIGN {
            false
        } else {
            a < b
        }
    }

    /// Whether `self <= other`.
    pub fn le(self, other: Single) -> (r: bool)
        ensures
            r == self.at_most(other),
    {
        !self.is_nan() && !other.is_nan() && !other.lt(self)
    }

    /// Whether `self > other`.
    pub fn gt(self, other: Single) -> (r: bool)
        ensures
            r == other.below(self),
    {
        other.lt(self)
    }

    /// Whether `self >= other`.
    pub fn ge(self, other: Single) -> (r: bool)
        ensures
            r == other.at_most(self),
    {
        other.le(self)
    }

    /// Whether the two are the same number.
    pub fn equals(self, other: Single) -> (r: bool)
        ensures
            r == self.same(other),
    {
        self.le(other) && other.le(self)
    }

    /// Whether the number lies in `[low, high]`.
    pub fn is_within(self, low: Single, high: Single) -> (r: bool)
        ensures
            r == self.within(low, high),
    {
        self.ge(low) && self.le(high)
    }

    /// The number without its sign.
    pub fn abs(self) -> (r: Single)
        ensures
            r.magnitude() == self.magnitude(),
            !r.is_negative(),
            r.rank() == quanta(self.magnitude()),
            r == (Single { bits: self.magnitude() as u32 }),
    {
        Single { bits: self.bits % SIGN }
    }

    /// The number with its sign turned round.
    pub open spec fn negated(self) -> Single {
        Single {
            bits: if self.bits >= SIGN {
                (self.bits - SIGN) as u32
            } else {
                (self.bits + SIGN) as u32
            },
        }
    }

    /// The number with the opposite sign.
    pub fn neg(self) -> (r: Single)
        ensures
            r.magnitude() == self.magnitude(),
            r.is_negative() == !self.is_negative(),
            r.rank() == -self.rank(),
            r == self.negated(),
    {
        if self.bits >= SIGN {
            Single { bits: self.bits - SIGN }
        } else {
            Single { bits: self.bits + SIGN }
        }
    }

    /// The lesser of the two; a number beats what is not one.
    pub fn min(self, other: Single) -> (r: Single)
        ensures
            r == self || r == other,
            self.nan() && !other.nan() ==> r == other,
            !self.nan() && other.nan() ==> r == self,
            !self.nan() && !other.nan() ==> r.at_most(self) && r.at_most(other),
    {
        if self.is_nan() || other.lt(self) {
            other
        } else {
            self
        }
    }

    /// The greater of the two; a number beats what is not one.
    pub fn max(self, other: Single) -> (r: Single)
        ensures
            r == self || r == other,
            self.nan() && !other.nan() ==> r == other,
            !self.nan() && other.nan() ==> r == self,
            !self.nan() && !other.nan() ==> self.at_most(r) && other.at_most(r),
    {
        if self.is_nan() || self.lt(other) {
            other
        } else {
            self
        }
    }

    /// The whole part of the number's size, up to the largest `u64`.
    pub fn whole_part(self) -> (r: u64)
        requires
            !self.nan(),
        ensures
            r == (if self.whole() > u64::MAX {
                u64::MAX as int
            } else {
                self.whole()
            }),
    {
        let m: u32 = self.bits % SIGN;
        let exponent: u32 = m / UNIT;
        let fraction: u32 = m % UNIT;
        proof {
            reveal(quanta);
            lemma_pow2_pos(149);
        }
        if exponent < 127 {
            proof {
                lemma_small(m as int);
            }
            return 0;
        }
        let mantissa: u64 = (UNIT + fraction) as u64;
        proof {
            assert(quanta(m as int) == mantissa * pow2((exponent - 1) as nat));
        }
        if exponent >= 150 {
            let shift: u32 = exponent - 150;
            proof {
                lemma_pow2_adds(shift as nat, 149);
                assert(quanta(m as int) == (mantissa * pow2(shift as nat)) * pow2(149))
                    by (nonlinear_arith)
                    requires
                        quanta(m as int) == mantissa * pow2((exponent - 1) as nat),
                        pow2((exponent - 1) as nat) == pow2(shift as nat) * pow2(149),
                ;
                vstd::arithmetic::div_mod::lemma_div_multiples_vanish(
                    (mantissa * pow2(shift as nat)) as int,
                    one_in_quanta(),
                );
                assert(one_in_quanta() * (mantissa * pow2(shift as nat)) == quanta(m as int))
                    by (nonlinear_arith)
                    requires
                        quanta(m as int) == (mantissa * pow2(shift as nat)) * pow2(149),
                        one_in_quanta() == pow2(149),
                ;
                assert(self.whole() == mantissa * pow2(shift as nat));
            }
            if shift > 40 {
                proof {
                    lemma2_to64();
                    lemma_pow2_adds(32, 9);
                    if shift > 41 {
                        lemma_pow2_strictly_increases(41, shift as nat);
                    }
                    assert(mantissa * pow2(shift as nat) > u64::MAX) by (nonlinear_arith)
                        requires
                            mantissa >= 0x80_0000,
                            pow2(shift as nat) >= 0x200_0000_0000,
                    ;
                }
                return u64::MAX;
            }
            proof {
                lemma2_to64();
                lemma_pow2_adds(32, 8);
                if shift < 40 {
                    lemma_pow2_strictly_increases(shift as nat, 40);
                }
                assert(mantissa * pow2(shift as nat) <= u64::MAX) by (nonlinear_arith)
                    requires
                        mantissa < 0x100_0000,
                        pow2(shift as nat) <= 0x100_0000_0000,
                ;
                vstd::bits::lemma_u64_shl_is_mul(mantissa, shift as u64);
            }
            mantissa << (shift as u64)
        } else {
            let shift: u32 = 150 - exponent;
            proof {
                lemma_pow2_adds((exponent - 1) as nat, shift as nat);
                let low = pow2((exponent - 1) as nat) as int;
                let high = pow2(shift as nat) as int;
                lemma_pow2_pos((exponent - 1) as nat);
                lemma_pow2_pos(shift as nat);
                vstd::arithmetic::div_mod::lemma_div_denominator(
                    mantissa * low,
                    low,
                    high,
                );
                vstd::arithmetic::div_mod::lemma_div_multiples_vanish(mantissa as int, low);
                assert(low * mantissa == mantissa * low) by (nonlinear_arith);
                assert(self.whole() == mantissa as int / high);
                vstd::bits::lemma_u64_shr_is_div(mantissa, shift as u64);
                assert(mantissa as int / high <= mantissa) by (nonlinear_arith)
                    requires
                        high >= 1,
                        mantissa >= 0,
                ;
            }
            mantissa >> (shift as u64)
        }
    }

    /// The least whole number that is at least the number's size.
    pub open spec fn ceiling(self) -> int {
        crate::num::ceil_div(quanta(self.magnitude()), one_in_quanta())
    }

    /// The number rounded towards zero.
    pub open spec fn truncated(self) -> int {
        if self.is_negative() {
            -self.whole()
        } else {
            self.whole()
        }
    }

    /// The least whole number that is at least the number's size, up to the
    /// largest `u64`.
    pub fn ceiling_part(self) -> (r: u64)
        requires
            !self.nan(),
        ensures
            r == (if self.ceiling() > u64::MAX {
                u64::MAX as int
            } else {
                self.ceiling()
            }),
    {
        let m: u32 = self.bits % SIGN;
        let exponent: u32 = m / UNIT;
        let fraction: u32 = m % UNIT;
        let whole: u64 = self.whole_part();
        let q: Ghost<int> = Ghost(quanta(m as int));
        proof {
            reveal(quanta);
            lemma_pow2_pos(149);
            if m > 0 {
                lemma_quanta_increases(0, m as int);
            }
            lemma_ceiling_from_whole(q@, one_in_quanta());
        }
        if exponent < 127 {
            proof {
                lemma_small(m as int);
                vstd::arithmetic::div_mod::lemma_fundamental_div_mod(q@, one_in_quanta());
            }
            return if m == 0 {
                0
            } else {
                1
            };
        }
        if exponent >= 150 {
            proof {
                let shift = (exponent - 150) as nat;
                let mantissa = (UNIT + fraction) as int;
                lemma_pow2_adds(shift, 149);
                assert(q@ == (mantissa * pow2(shift)) * one_in_quanta()) by (nonlinear_arith)
                    requires
                        q@ == mantissa * pow2((exponent - 1) as nat),
                        pow2((exponent - 1) as nat) == pow2(shift) * pow2(149),
                        one_in_quanta() == pow2(149),
                ;
                vstd::arithmetic::div_mod::lemma_mod_multiples_basic(
                    mantissa * pow2(shift),
                    one_in_quanta(),
                );
            }
            return whole;
        }
        let mantissa: u64 = (UNIT + fraction) as u64;
        let shift: u32 = 150 - exponent;
        proof {
            let low = pow2((exponent - 1) as nat) as int;
            let high = pow2(shift as nat) as int;
            lemma_pow2_adds((exponent - 1) as nat, shift as nat);
            lemma_pow2_pos((exponent - 1) as nat);
            lemma_pow2_pos(shift as nat);
            vstd::arithmetic::div_mod::lemma_truncate_middle(mantissa as int, low, high);
            assert(low * mantissa == q@) by (nonlinear_arith)
                requires
                    q@ == mantissa * low,
            ;
            assert(q@ % one_in_quanta() == low * (mantissa as int % high));
            assert(q@ % one_in_quanta() == 0 <==> mantissa as int % high == 0) by (nonlinear_arith)
                requires
                    q@ % one_in_quanta() == low * (mantissa as int % high),
                    low > 0,
            ;
            lemma2_to64();
            assert(shift <= 23);
            if shift < 23 {
                lemma_pow2_strictly_increases(shift as nat, 23);
            }
            vstd::bits::lemma_u64_shl_is_mul(1u64, shift as u64);
            assert(self.whole() <= mantissa) by {
                vstd::arithmetic::div_mod::lemma_div_denominator(mantissa * low, low, high);
                vstd::arithmetic::div_mod::lemma_div_multiples_vanish(mantissa as int, low);
                assert(mantissa as int / high <= mantissa) by (nonlinear_arith)
                    requires
                        high >= 1,
                        mantissa >= 0,
                ;
            }
        }
        if mantissa % (1u64 << (shift as u64)) == 0 {
            whole
        } else {
            whole + 1
        }
    }

    /// The number rounded towards zero, as near as an `i32` comes to it; zero
    /// for what is not a number.
    pub open spec fn as_i32(self) -> int {
        if self.nan() {
            0
        } else if self.truncated() > i32::MAX {
            i32::MAX as int
        } else if self.truncated() < i32::MIN {
            i32::MIN as int
        } else {
            self.truncated()
        }
    }

    /// The number rounded towards zero, into an `i32`.
    pub fn to_i32(self) -> (r: i32)
        ensures
            r == self.as_i32(),
    {
        if self.is_nan() {
            return 0;
        }
        let w: u64 = self.whole_part();
        if self.bits >= SIGN {
            if w > 0x8000_0000 {
                i32::MIN
            } else {
                (-(w as i64)) as i32
            }
        } else if w > 0x7fff_ffff {
            i32::MAX
        } else {
            w as i32
        }
    }

    /// The number rounded up, as near as an `i32` comes to it; zero for what is
    /// not a number.
    pub open spec fn ceil_as_i32(self) -> int {
        if self.nan() || self.is_negative() {
            self.as_i32()
        } else if self.ceiling() > i32::MAX {
            i32::MAX as int
        } else {
            self.ceiling()
        }
    }

    /// The number rounded up, into an `i32`.
    pub fn ceil_i32(self) -> (r: i32)
        ensures
            r == self.ceil_as_i32(),
    {
        if self.is_nan() || self.bits >= SIGN {
            return self.to_i32();
        }
        let w: u64 = self.ceiling_part();
        if w > 0x7fff_ffff {
            i32::MAX
        } else {
            w as i32
        }
    }

    /// The number rounded down, not below zero, as near as a `usize` comes to
    /// it; zero for what is not a number.
    pub open spec fn floor_as_usize(self) -> int {
        if self.nan() || self.is_negative() {
            0
        } else if self.whole() > usize::MAX {
            usize::MAX as int
        } else {
            self.whole()
        }
    }

    /// The number rounded down, into a `usize`.
    pub fn floor_usize(self) -> (r: usize)
        ensures
            r == self.floor_as_usize(),
    {
        if self.is_nan() || self.bits >= SIGN {
            return 0;
        }
        let w: u64 = self.whole_part();
        if w > usize::MAX as u64 {
            usize::MAX
        } else {
            w as usize
        }
    }

    /// The number rounded down, not below zero, as near as a `u32` comes to it;
    /// zero for what is not a number.
    pub open spec fn floor_as_u32(self) -> int {
        if self.nan() || self.is_negative() {
            0
        } else if self.whole() > u32::MAX {
            u32::MAX as int
        } else {
            self.whole()
        }
    }

    /// The number rounded down, into a `u32`.
    pub fn floor_u32(self) -> (r: u32)
        ensures
            r == self.floor_as_u32(),
    {
        if self.is_nan() || self.bits >= SIGN {
            return 0;
        }
        let w: u64 = self.whole_part();
        if w > 0xffff_ffff {
            u32::MAX
        } else {
            w as u32
        }
    }

    /// The number rounded up, not below zero, as near as a `u32` comes to it;
    /// zero for what is not a number.
    pub open spec fn ceil_as_u32(self) -> int {
        if self.nan() || self.is_negative() {
            0
        } else if self.ceiling() > u32::MAX {
            u32::MAX as int
        } else {
            self.ceiling()
        }
    }

    /// The number rounded up, into a `u32`.
    pub fn ceil_u32(self) -> (r: u32)
        ensures
            r == self.ceil_as_u32(),
    {
        if self.is_nan() || self.bits >= SIGN {
            return 0;
        }
        let w: u64 = self.ceiling_part();
        if w > 0xffff_ffff {
            u32::MAX
        } else {
            w as u32
        }
    }
}

/// Three numbers along the x, y and z axes.
#[derive(Clone, Copy, PartialEq, Eq, Structural, Debug)]
pub struct Point {
    pub x: Single,
    pub y: Single,
    pub z: Single,
}

/// Rounding up adds one where rounding down dropped something.
proof fn lemma_ceiling_from_whole(a: int, b: int)
    requires
        b > 0,
    ensures
        crate::num::ceil_div(a, b) == a / b + if a % b == 0 {
            0int
        } else {
            1int
        },
{
    crate::num::lemma_ceil_div(a, b);
    vstd::arithmetic::div_mod::lemma_fundamental_div_mod(a, b);
    let c = crate::num::ceil_div(a, b);
    let q = a / b;
    if a % b == 0 {
        assert(c == q) by (nonlinear_arith)
            requires
                (c - 1) * b < a <= c * b,
                a == b * q,
                b > 0,
        ;
    } else {
        assert(c == q + 1) by (nonlinear_arith)
            requires
                (c - 1) * b < a <= c * b,
                b * q < a < b * q + b,
                b > 0,
        ;
    }
}

/// A magnitude below that of one stands for less than one.
proof fn lemma_small(m: int)
    requires
        0 <= m,
        m / (UNIT as int) < 127,
    ensures
        quanta(m) / one_in_quanta() == 0,
{
    reveal(quanta);
    lemma_quanta_increases(m, 127 * UNIT as int);
    assert((127 * UNIT as int) / (UNIT as int) == 127 && (127 * UNIT as int) % (UNIT as int) == 0);
    lemma_pow2_adds(23, 126);
    lemma2_to64();
    assert(quanta(127 * UNIT as int) == UNIT * pow2(126));
    lemma_pow2_pos(149);
    if m > 0 {
        lemma_quanta_increases(0, m);
    }
    vstd::arithmetic::div_mod::lemma_basic_div(quanta(m), one_in_quanta());
}

/// Magnitudes order as the numbers they stand for.
proof fn lemma_compare(a: Single, b: Single)
    ensures
        a.magnitude() < b.magnitude() <==> quanta(a.magnitude()) < quanta(b.magnitude()),
        b.magnitude() < a.magnitude() <==> quanta(b.magnitude()) < quanta(a.magnitude()),
        quanta(a.magnitude()) >= 0,
        quanta(b.magnitude()) >= 0,
        quanta(a.magnitude()) > 0 <==> a.magnitude() > 0,
        quanta(b.magnitude()) > 0 <==> b.magnitude() > 0,
{
    reveal(quanta);
    let (x, y) = (a.magnitude(), b.magnitude());
    if x < y {
        lemma_quanta_increases(x, y);
    }
    if y < x {
        lemma_quanta_increases(y, x);
    }
    if x > 0 {
        lemma_quanta_increases(0, x);
    }
    if y > 0 {
        lemma_quanta_increases(0, y);
    }
}

/// Rounding down gives the whole numbers that lie in a number: `k` from `k` on to
/// before the next, none below zero, and the largest there is past that.
pub proof fn lemma_rounds_down(v: Single, k: int)
    requires
        0 <= k,
    ensures
        v.nan() ==> v.floor_as_usize() == 0 && v.floor_as_u32() == 0 && v.as_i32() == 0,
        !v.nan() && v.rank() < 0 ==> v.floor_as_usize() == 0 && v.floor_as_u32() == 0,
        !v.nan() && k * pow2(149) <= v.rank() < (k + 1) * pow2(149) ==> {
            &&& v.floor_as_usize() == if k <= usize::MAX {
                k
            } else {
                usize::MAX as int
            }
            &&& v.floor_as_u32() == if k <= u32::MAX {
                k
            } else {
                u32::MAX as int
            }
            &&& v.as_i32() == if k <= i32::MAX {
                k
            } else {
                i32::MAX as int
            }
        },
        !v.nan() && k * pow2(149) <= -v.rank() < (k + 1) * pow2(149) ==> {
            &&& v.as_i32() == if -k >= i32::MIN {
                -k
            } else {
                i32::MIN as int
            }
        },
{
    let one = pow2(149) as int;
    lemma_pow2_pos(149);
    let q = quanta(v.magnitude());
    lemma_quanta_increases(v.magnitude(), v.magnitude() + 1);
    assert((k + 1) * one == k * one + one) by (nonlinear_arith);
    assert(k * one >= 0) by (nonlinear_arith)
        requires
            k >= 0,
            one > 0,
    ;
    if !v.nan() && k * one <= q < (k + 1) * one {
        vstd::arithmetic::div_mod::lemma_fundamental_div_mod_converse(q, one, k, q - k * one);
    }
    if q == 0 {
        vstd::arithmetic::div_mod::lemma_basic_div(0, one);
    }
}

/// Rounding up gives the least whole number that a number does not exceed, none
/// from zero down, and the largest there is past that.
pub proof fn lemma_rounds_up(v: Single, k: int)
    requires
        1 <= k,
    ensures
        v.nan() ==> v.ceil_as_u32() == 0 && v.ceil_as_i32() == 0,
        !v.nan() && v.rank() <= 0 ==> v.ceil_as_u32() == 0,
        !v.nan() && v.rank() == 0 ==> v.ceil_as_i32() == 0,
        !v.nan() && (k - 1) * pow2(149) < v.rank() <= k * pow2(149) ==> {
            &&& v.ceil_as_u32() == if k <= u32::MAX {
                k
            } else {
                u32::MAX as int
            }
            &&& v.ceil_as_i32() == if k <= i32::MAX {
                k
            } else {
                i32::MAX as int
            }
        },
        !v.nan() && (k - 1) * pow2(149) <= -v.rank() < k * pow2(149) && k <= i32::MAX
            ==> v.ceil_as_i32() == -(k - 1),
{
    let one = pow2(149) as int;
    lemma_pow2_pos(149);
    let q = quanta(v.magnitude());
    lemma_quanta_increases(v.magnitude(), v.magnitude() + 1);
    lemma_rounds_down(v, k - 1);
    let c = v.ceiling();
    crate::num::lemma_ceil_div(q, one);
    assert((k - 1) * one >= 0) by (nonlinear_arith)
        requires
            k >= 1,
            one > 0,
    ;
    if !v.nan() && (k - 1) * one < q <= k * one {
        assert(c == k) by (nonlinear_arith)
            requires
                (c - 1) * one < q <= c * one,
                (k - 1) * one < q <= k * one,
                one > 0,
        ;
    }
    if q == 0 {
        assert(c == 0) by (nonlinear_arith)
            requires
                (c - 1) * one < 0 <= c * one,
                one > 0,
        ;
        vstd::arithmetic::div_mod::lemma_basic_div(0, one);
        assert(v.whole() == 0);
    }
}

} // verus!
