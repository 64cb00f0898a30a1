//! Binary fixed-point scalar: a real number is held as `bits / 2^32`.
//!
//! All arithmetic is exact integer arithmetic on the bit patterns, with
//! truncation toward zero where a quotient is not exact, so every operation
//! has a complete mathematical description.

use vstd::prelude::*;

verus! {

/// Number of bit units that make up the value one: 2^32.
pub const SCALE: i64 = 0x1_0000_0000;

/// Truncated-toward-zero quotient, the convention of Rust's `/` on integers.
pub open spec fn tdiv(a: int, b: int) -> int
    recommends
        b != 0,
{
    if a >= 0 {
        if b >= 0 {
            a / b
        } else {
            -(a / -b)
        }
    } else {
        if b >= 0 {
            -(-a / b)
        } else {
            -a / -b
        }
    }
}

/// The bit pattern of the product of two fixed-point values.
pub open spec fn mul_bits(a: int, b: int) -> int {
    tdiv(a * b, SCALE as int)
}

/// The bit pattern of the quotient of two fixed-point values.
pub open spec fn div_bits(a: int, b: int) -> int
    recommends
        b != 0,
{
    tdiv(a * (SCALE as int), b)
}

pub open spec fn i64_fits(x: int) -> bool {
    i64::MIN <= x <= i64::MAX
}

/// A fixed-point number; the real value represented is `bits / 2^32`.
#[derive(Clone, Copy, Debug, PartialEq, Eq, Structural)]
pub struct Fx {
    pub bits: i64,
}

impl Fx {
    pub fn from_bits(bits: i64) -> (r: Fx)
        ensures
            r.bits == bits,
    {
        Fx { bits }
    }

    /// The fixed-point representation of a small integer.
    pub fn from_int(n: i64) -> (r: Fx)
        requires
            -0x8000_0000 <= n < 0x8000_0000,
        ensures
            r.bits == n * SCALE,
    {
        Fx { bits: n * SCALE }
    }

    pub fn zero() -> (r: Fx)
        ensures
            r.bits == 0,
    {
        Fx { bits: 0 }
    }

    pub fn one() -> (r: Fx)
        ensures
            r.bits == SCALE,
    {
        Fx { bits: SCALE }
    }

    pub fn neg(self) -> (r: Fx)
        requires
            self.bits != i64::MIN,
        ensures
            r.bits == -self.bits,
    {
        Fx { bits: -self.bits }
    }

    pub fn add(self, o: Fx) -> (r: Fx)
        requires
            i64_fits(self.bits + o.bits),
        ensures
            r.bits == self.bits + o.bits,
    {
        Fx { bits: self.bits + o.bits }
    }

    pub fn sub(self, o: Fx) -> (r: Fx)
        requires
            i64_fits(self.bits - o.bits),
        ensures
            r.bits == self.bits - o.bits,
    {
        Fx { bits: self.bits - o.bits }
    }

    pub fn checked_add(self, o: Fx) -> (r: Option<Fx>)
        ensures
            i64_fits(self.bits + o.bits) ==> r == Some(Fx { bits: (self.bits + o.bits) as i64 }),
            !i64_fits(self.bits + o.bits) ==> r is None,
    {
        match self.bits.checked_add(o.bits) {
            Some(b) => Some(Fx { bits: b }),
            None => None,
        }
    }

    /// Fixed-point product, truncated toward zero.
    pub fn mul(self, o: Fx) -> (r: Fx)
        requires
            i64_fits(mul_bits(self.bits as int, o.bits as int)),
        ensures
            r.bits == mul_bits(self.bits as int, o.bits as int),
    {
        proof {
            lemma_i64_product_fits(self.bits as int, o.bits as int);
        }
        let p: i128 = (self.bits as i128) * (o.bits as i128);
        let q: i128 = if p >= 0 {
            ((p as u128) / (SCALE as u128)) as i128
        } else {
            proof {
                assert((-p) as u128 / (SCALE as u128) <= (-p) as u128 / 1) by (nonlinear_arith);
            }
            -(((-p) as u128 / (SCALE as u128)) as i128)
        };
        Fx { bits: q as i64 }
    }

    /// Fixed-point product that reports instead of overflowing.
    pub fn checked_mul(self, o: Fx) -> (r: Option<Fx>)
        ensures
            i64_fits(mul_bits(self.bits as int, o.bits as int)) ==> r == Some(
                Fx { bits: mul_bits(self.bits as int, o.bits as int) as i64 },
            ),
            !i64_fits(mul_bits(self.bits as int, o.bits as int)) ==> r is None,
    {
        proof {
            lemma_i64_product_fits(self.bits as int, o.bits as int);
        }
        let p: i128 = (self.bits as i128) * (o.bits as i128);
        let q: i128 = tdiv_by_scale(p);
        if -0x8000_0000_0000_0000i128 <= q && q <= 0x7fff_ffff_ffff_ffffi128 {
            Some(Fx { bits: q as i64 })
        } else {
            None
        }
    }

    /// Fixed-point quotient, truncated toward zero.
    pub fn div(self, o: Fx) -> (r: Fx)
        requires
            o.bits != 0,
            i64_fits(div_bits(self.bits as int, o.bits as int)),
        ensures
            r.bits == div_bits(self.bits as int, o.bits as int),
    {
        let n: i128 = (self.bits as i128) * (SCALE as i128);
        let na: u128 = if n >= 0 {
            n as u128
        } else {
            (-n) as u128
        };
        let da: u128 = if o.bits >= 0 {
            o.bits as u128
        } else {
            proof {
                assert(o.bits as i128 != i128::MIN);
            }
            (-(o.bits as i128)) as u128
        };
        let qa: u128 = na / da;
        proof {
            lemma_tdiv_abs(self.bits as int * SCALE as int, o.bits as int);
            assert(qa <= na) by (nonlinear_arith)
                requires
                    da >= 1,
                    qa == na / da,
            ;
        }
        let q: i128 = if (self.bits >= 0) == (o.bits >= 0) {
            qa as i128
        } else {
            -(qa as i128)
        };
        Fx { bits: q as i64 }
    }

    /// Fixed-point quotient that reports instead of overflowing.
    pub fn checked_div(self, o: Fx) -> (r: Option<Fx>)
        requires
            o.bits != 0,
        ensures
            i64_fits(div_bits(self.bits as int, o.bits as int)) ==> r == Some(
                Fx { bits: div_bits(self.bits as int, o.bits as int) as i64 },
            ),
            !i64_fits(div_bits(self.bits as int, o.bits as int)) ==> r is None,
    {
        let n: i128 = (self.bits as i128) * (SCALE as i128);
        let na: u128 = if n >= 0 {
            n as u128
        } else {
            (-n) as u128
        };
        let da: u128 = if o.bits >= 0 {
            o.bits as u128
        } else {
            proof {
                assert(o.bits as i128 != i128::MIN);
            }
            (-(o.bits as i128)) as u128
        };
        let qa: u128 = na / da;
        proof {
            lemma_tdiv_abs(self.bits as int * SCALE as int, o.bits as int);
            assert(qa <= na) by (nonlinear_arith)
                requires
                    da >= 1,
                    qa == na / da,
            ;
        }
        let q: i128 = if (self.bits >= 0) == (o.bits >= 0) {
            qa as i128
        } else {
            -(qa as i128)
        };
        if -0x8000_0000_0000_0000i128 <= q && q <= 0x7fff_ffff_ffff_ffffi128 {
            Some(Fx { bits: q as i64 })
        } else {
            None
        }
    }

    /// Magnitude of the held value.
    pub fn abs(self) -> (r: Fx)
        requires
            self.bits != i64::MIN,
        ensures
            r.bits == if self.bits >= 0 { self.bits as int } else { -self.bits },
    {
        if self.bits >= 0 {
            self
        } else {
            Fx { bits: -self.bits }
        }
    }

    /// Clamp into `[lo, hi]`.
    pub fn clamp(self, lo: Fx, hi: Fx) -> (r: Fx)
        requires
            lo.bits <= hi.bits,
        ensures
            r.bits == clamp_bits(self.bits as int, lo.bits as int, hi.bits as int),
    {
        if self.bits < lo.bits {
            lo
        } else if self.bits > hi.bits {
            hi
        } else {
            self
        }
    }

    /// Euclidean remainder of the bit patterns: the result is in `[0, m)`.
    pub fn rem_euclid(self, m: Fx) -> (r: Fx)
        requires
            m.bits > 0,
        ensures
            r.bits == (self.bits as int) % (m.bits as int),
    {
        let n: i128 = self.bits as i128;
        let md: i128 = m.bits as i128;
        if n >= 0 {
            let rr: u128 = (n as u128) % (md as u128);
            proof {
                assert(rr == (self.bits as int) % (m.bits as int));
            }
            Fx { bits: (rr as i128) as i64 }
        } else {
            let rr: u128 = ((-n) as u128) % (md as u128);
            proof {
                lemma_neg_mod(self.bits as int, m.bits as int);
            }
            if rr == 0 {
                Fx { bits: 0i64 }
            } else {
                Fx { bits: (md - rr as i128) as i64 }
            }
        }
    }
}

/// The integer square root: the greatest `r` with `r * r <= n`.
pub open spec fn isqrt_int(n: int) -> int
    recommends
        n >= 0,
{
    choose|r: int| r >= 0 && #[trigger] (r * r) <= n < (r + 1) * (r + 1)
}

/// `isqrt_int` is pinned down by its defining property.
pub proof fn lemma_isqrt_int(n: int, r: int)
    requires
        0 <= r,
        r * r <= n,
        n < (r + 1) * (r + 1),
    ensures
        isqrt_int(n) == r,
{
    assert(r >= 0 && r * r <= n < (r + 1) * (r + 1));
    let c = isqrt_int(n);
    assert(c >= 0 && c * c <= n < (c + 1) * (c + 1));
    assert(c == r) by (nonlinear_arith)
        requires
            r >= 0,
            r * r <= n,
            n < (r + 1) * (r + 1),
            c >= 0,
            c * c <= n,
            n < (c + 1) * (c + 1),
    ;
}

/// Every nonnegative integer has an integer square root, and `isqrt_int`
/// satisfies its defining bounds.
pub proof fn lemma_isqrt_bounds(n: int)
    requires
        n >= 0,
    ensures
        isqrt_int(n) >= 0,
        isqrt_int(n) * isqrt_int(n) <= n,
        n < (isqrt_int(n) + 1) * (isqrt_int(n) + 1),
    decreases n,
{
    if n == 0 {
        lemma_isqrt_int(0, 0);
    } else {
        lemma_isqrt_bounds(n - 1);
        let r = isqrt_int(n - 1);
        if (r + 1) * (r + 1) <= n {
            assert((r + 1) * (r + 1) == n);
            assert(n < (r + 2) * (r + 2)) by (nonlinear_arith)
                requires
                    n == (r + 1) * (r + 1),
                    r >= 0,
            ;
            lemma_isqrt_int(n, r + 1);
        } else {
            lemma_isqrt_int(n, r);
        }
    }
}

/// The integer square root of a 128-bit value, by bisection.
pub fn isqrt_u128(n: u128) -> (r: u64)
    ensures
        r as int == isqrt_int(n as int),
        (r as int) * (r as int) <= n as int,
        (n as int) < ((r as int + 1) * (r as int + 1)),
{
    let mut lo: u128 = 0;
    let mut hi: u128 = 0x1_0000_0000_0000_0000;
    proof {
        assert((n as int) < (hi as int) * (hi as int)) by (nonlinear_arith)
            requires
                n <= u128::MAX,
                hi == 0x1_0000_0000_0000_0000u128,
        ;
    }
    while lo + 1 < hi
        invariant
            lo < hi <= 0x1_0000_0000_0000_0000,
            (lo as int) * (lo as int) <= n as int,
            (n as int) < (hi as int) * (hi as int),
        decreases hi - lo,
    {
        let mid: u128 = lo + (hi - lo) / 2;
        proof {
            assert((mid as int) * (mid as int) < 0x1_0000_0000_0000_0000_0000_0000_0000_0000)
                by (nonlinear_arith)
                requires
                    mid < 0x1_0000_0000_0000_0000u128,
            ;
        }
        let sq: u128 = mid * mid;
        if sq <= n {
            lo = mid;
        } else {
            hi = mid;
        }
    }
    proof {
        lemma_isqrt_int(n as int, lo as int);
    }
    lo as u64
}

impl Fx {
    /// The square root of a nonnegative value, rounded down to the
    /// representation's granularity.
    pub fn sqrt(self) -> (r: Fx)
        requires
            self.bits >= 0,
        ensures
            r.bits >= 0,
            r.bits as int == isqrt_int(self.bits as int * (SCALE as int)),
    {
        let m: u128 = (self.bits as u128) * (SCALE as u128);
        let root: u64 = isqrt_u128(m);
        proof {
            assert(root < 0x1_0000_0000_0000u64) by (nonlinear_arith)
                requires
                    (root as int) * (root as int) <= m as int,
                    m < 0x1_0000_0000_0000_0000_0000_0000u128,
            ;
        }
        Fx { bits: root as i64 }
    }
}

/// The fixed-point product does not depend on the order of its factors.
pub proof fn lemma_mul_bits_comm(a: int, b: int)
    ensures
        mul_bits(a, b) == mul_bits(b, a),
{
    assert(a * b == b * a) by (nonlinear_arith);
}

/// Multiplying by the fixed-point image of a whole number is the plain
/// integer product.
pub proof fn lemma_mul_by_whole(x: int, k: int)
    requires
        k >= 0,
    ensures
        mul_bits(x, k * (SCALE as int)) == k * x,
{
    if x >= 0 {
        assert(x * (k * (SCALE as int)) == (SCALE as int) * (k * x)) by (nonlinear_arith);
        assert(k * x >= 0) by (nonlinear_arith)
            requires
                x >= 0,
                k >= 0,
        ;
        vstd::arithmetic::div_mod::lemma_div_multiples_vanish(k * x, SCALE as int);
    } else {
        assert(x * (k * (SCALE as int)) == -((SCALE as int) * (k * -x))) by (nonlinear_arith);
        assert(k * -x >= 0) by (nonlinear_arith)
            requires
                x < 0,
                k >= 0,
        ;
        vstd::arithmetic::div_mod::lemma_div_multiples_vanish(k * -x, SCALE as int);
        assert(k * -x == -(k * x)) by (nonlinear_arith);
    }
}

/// A product's fixed-point bit pattern is bounded by the product of the
/// factors' bounds, scaled down.
pub proof fn lemma_mul_bits_range(x: int, y: int, bx: int, by: int)
    requires
        abs_int(x) <= bx,
        abs_int(y) <= by,
        0 <= bx,
        0 <= by,
    ensures
        abs_int(mul_bits(x, y)) <= (bx * by) / (SCALE as int),
{
    let p = x * y;
    assert(-(bx * by) <= p <= bx * by) by (nonlinear_arith)
        requires
            abs_int(x) <= bx,
            abs_int(y) <= by,
            0 <= bx,
            0 <= by,
            p == x * y,
    ;
    if p >= 0 {
        vstd::arithmetic::div_mod::lemma_div_is_ordered(p, bx * by, SCALE as int);
        vstd::arithmetic::div_mod::lemma_div_pos_is_pos(p, SCALE as int);
    } else {
        vstd::arithmetic::div_mod::lemma_div_is_ordered(-p, bx * by, SCALE as int);
        vstd::arithmetic::div_mod::lemma_div_pos_is_pos(-p, SCALE as int);
    }
    vstd::arithmetic::div_mod::lemma_div_pos_is_pos(bx * by, SCALE as int);
}

/// Divide a wide intermediate by the scale, truncating toward zero.
pub(crate) fn tdiv_by_scale(p: i128) -> (q: i128)
    requires
        -0x4000_0000_0000_0000_0000_0000_0000_0000 <= p
            <= 0x4000_0000_0000_0000_0000_0000_0000_0000,
    ensures
        q == tdiv(p as int, SCALE as int),
{
    if p >= 0 {
        ((p as u128) / (SCALE as u128)) as i128
    } else {
        proof {
            assert((-p) as u128 / (SCALE as u128) <= (-p) as u128 / 1) by (nonlinear_arith);
        }
        -(((-p) as u128 / (SCALE as u128)) as i128)
    }
}

pub open spec fn clamp_bits(x: int, lo: int, hi: int) -> int
    recommends
        lo <= hi,
{
    if x < lo {
        lo
    } else if x > hi {
        hi
    } else {
        x
    }
}

proof fn lemma_i64_product_fits(a: int, b: int)
    by (nonlinear_arith)
    requires
        i64::MIN <= a <= i64::MAX,
        i64::MIN <= b <= i64::MAX,
    ensures
        -0x4000_0000_0000_0000_0000_0000_0000_0000 <= a * b
            <= 0x4000_0000_0000_0000_0000_0000_0000_0000,
{
}

/// Truncated division expressed through magnitudes.
proof fn lemma_tdiv_abs(a: int, b: int)
    requires
        b != 0,
    ensures
        tdiv(a, b) == if (a >= 0) == (b >= 0) {
            abs_int(a) / abs_int(b)
        } else {
            -(abs_int(a) / abs_int(b))
        },
{
}

pub open spec fn abs_int(a: int) -> int {
    if a >= 0 {
        a
    } else {
        -a
    }
}

/// For negative `n` and positive `m`, the Euclidean remainder of `n` is
/// `m - (-n) % m`, folded to `0` when `(-n) % m == 0`.
proof fn lemma_neg_mod(n: int, m: int)
    requires
        n < 0,
        m > 0,
    ensures
        (-n) % m == 0 ==> n % m == 0,
        (-n) % m != 0 ==> n % m == m - (-n) % m,
{
    vstd::arithmetic::div_mod::lemma_fundamental_div_mod(-n, m);
    vstd::arithmetic::div_mod::lemma_mod_division_less_than_divisor(-n, m);
    let q = (-n) / m;
    let r = (-n) % m;
    assert(-n == q * m + r) by {
        assert(m * q == q * m) by (nonlinear_arith);
    }
    if r == 0 {
        assert(n == (-q) * m + 0) by {
            assert((-q) * m == -(q * m)) by (nonlinear_arith);
        }
        vstd::arithmetic::div_mod::lemma_fundamental_div_mod_converse_mod(n, m, -q, 0);
    } else {
        assert(n == (-q - 1) * m + (m - r)) by {
            assert((-q - 1) * m == -(q * m) - m) by (nonlinear_arith);
        }
        vstd::arithmetic::div_mod::lemma_fundamental_div_mod_converse_mod(n, m, -q - 1, m - r);
    }
}

} // verus!
