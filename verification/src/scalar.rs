use vstd::arithmetic::div_mod::{lemma_div_nonincreasing, lemma_div_pos_is_pos};
use vstd::prelude::*;

verus! {

/// Number of raw units in one whole unit: a `Scalar` holds the value
/// `raw / SCALE` in binary fixed-point representation.
pub const SCALE: i64 = 1048576;

/// Raw representation of one half, `SCALE / 2`.
pub const HALF_RAW: i64 = 524288;

/// One scalar quantity (a mass, a coordinate, a force component), held as a
/// fixed-point number: the value is `raw / SCALE`. Arithmetic saturates at
/// the `i64` bounds instead of wrapping, so an overflowing magnitude sticks
/// at an extreme value rather than silently changing sign.
#[derive(Clone, Copy, PartialEq, Eq, Structural, Debug)]
pub struct Scalar {
    pub raw: i64,
}

impl View for Scalar {
    type V = int;

    open spec fn view(&self) -> int {
        self.raw as int
    }
}

/// Saturation of a mathematical integer into the `i64` range.
pub open spec fn clamp(x: int) -> int {
    if x > i64::MAX {
        i64::MAX as int
    } else if x < i64::MIN {
        i64::MIN as int
    } else {
        x
    }
}

/// Quotient rounded toward zero (the rounding of Rust's `/` on signed
/// integers), written over the Euclidean `/` of `int`. Meaningful only for
/// `d != 0`.
pub open spec fn tdiv(x: int, d: int) -> int {
    if x == 0 {
        0
    } else if x > 0 && d > 0 {
        x / d
    } else if x < 0 && d < 0 {
        (x * -1) / (d * -1)
    } else if x < 0 {
        ((x * -1) / d) * -1
    } else {
        (x / (d * -1)) * -1
    }
}

/// Raw result of fixed-point addition: exact sum, saturated.
pub open spec fn fx_add(a: int, b: int) -> int {
    clamp(a + b)
}

/// Raw result of fixed-point subtraction: exact difference, saturated.
pub open spec fn fx_sub(a: int, b: int) -> int {
    clamp(a - b)
}

/// Raw result of fixed-point multiplication: the exact product rescaled by
/// `SCALE` with truncation toward zero, then saturated.
pub open spec fn fx_mul(a: int, b: int) -> int {
    clamp(tdiv(a * b, SCALE as int))
}

/// Raw result of fixed-point division: the exact quotient rescaled by
/// `SCALE` with truncation toward zero, then saturated. Division by zero
/// saturates by the sign of the dividend, mirroring the infinities the
/// underlying formula would produce, and `0 / 0` is `0`.
pub open spec fn fx_div(a: int, b: int) -> int {
    if b == 0 {
        if a > 0 {
            i64::MAX as int
        } else if a < 0 {
            i64::MIN as int
        } else {
            0
        }
    } else {
        clamp(tdiv(a * (SCALE as int), b))
    }
}

/// Integer square root: the largest `r` with `r * r <= n`
/// (see `lemma_isqrt_bounds`).
pub open spec fn isqrt(n: nat) -> nat
    decreases n,
{
    if n == 0 {
        0
    } else {
        let r = isqrt((n - 1) as nat);
        if (r + 1) * (r + 1) <= n {
            r + 1
        } else {
            r
        }
    }
}

/// Raw result of the fixed-point square root of a nonnegative scalar:
/// `isqrt(raw * SCALE)`, so that the value of the result approximates the
/// square root of the value of the argument from below. A nonpositive
/// argument yields zero.
pub open spec fn fx_sqrt(a: int) -> int {
    if a <= 0 {
        0
    } else {
        isqrt((a * (SCALE as int)) as nat) as int
    }
}

pub proof fn lemma_isqrt_bounds(n: nat)
    ensures
        isqrt(n) * isqrt(n) <= n,
        n < (isqrt(n) + 1) * (isqrt(n) + 1),
    decreases n,
{
    if n == 0 {
        assert(isqrt(0) == 0);
        assert((isqrt(n) + 1) * (isqrt(n) + 1) == 1) by (nonlinear_arith)
            requires
                isqrt(n) == 0,
        ;
    } else {
        lemma_isqrt_bounds((n - 1) as nat);
        let r = isqrt((n - 1) as nat);
        assert(r * r <= n - 1);
        assert(n - 1 < (r + 1) * (r + 1));
        if (r + 1) * (r + 1) <= n {
            assert(isqrt(n) == r + 1);
            assert((r + 2) * (r + 2) > (r + 1) * (r + 1)) by (nonlinear_arith);
            assert(n < (r + 2) * (r + 2));
        } else {
            assert(isqrt(n) == r);
        }
    }
}

pub proof fn lemma_isqrt_unique(n: nat, y: nat)
    requires
        y * y <= n,
        n < (y + 1) * (y + 1),
    ensures
        y == isqrt(n),
{
    lemma_isqrt_bounds(n);
    let r = isqrt(n);
    if y < r {
        assert((y + 1) * (y + 1) <= r * r) by (nonlinear_arith)
            requires
                y + 1 <= r,
        ;
    }
    if y > r {
        assert((r + 1) * (r + 1) <= y * y) by (nonlinear_arith)
            requires
                r + 1 <= y,
        ;
    }
}

/// Truncating division shrinks the magnitude: `|tdiv(x, d)| <= |x|` for
/// `d != 0`.
pub proof fn lemma_tdiv_magnitude(x: int, d: int)
    requires
        d != 0,
    ensures
        x >= 0 ==> -x <= tdiv(x, d) <= x,
        x < 0 ==> x <= tdiv(x, d) <= -x,
{
    let m = if d > 0 {
        d
    } else {
        d * -1
    };
    if x > 0 {
        lemma_div_pos_is_pos(x, m);
        lemma_div_nonincreasing(x, m);
    } else if x < 0 {
        lemma_div_pos_is_pos(x * -1, m);
        lemma_div_nonincreasing(x * -1, m);
    }
}

/// Fixed-point multiplication by a nonnegative factor keeps the sign of the
/// other factor.
pub proof fn lemma_fx_mul_sign(a: int, b: int)
    requires
        a >= 0,
    ensures
        b >= 0 ==> fx_mul(a, b) >= 0,
        b <= 0 ==> fx_mul(a, b) <= 0,
        b == 0 ==> fx_mul(a, b) == 0,
{
    if b >= 0 {
        assert(a * b >= 0) by (nonlinear_arith)
            requires
                a >= 0,
                b >= 0,
        ;
        if a * b > 0 {
            lemma_div_pos_is_pos(a * b, SCALE as int);
        }
    }
    if b <= 0 {
        assert(a * b <= 0) by (nonlinear_arith)
            requires
                a >= 0,
                b <= 0,
        ;
        if a * b < 0 {
            let n = (a * b) * -1;
            assert(n > 0) by (nonlinear_arith)
                requires
                    a * b < 0,
                    n == (a * b) * -1,
            ;
            lemma_div_pos_is_pos(n, SCALE as int);
        }
    }
}

/// Fixed-point division of a nonnegative dividend by a nonnegative divisor
/// yields a nonnegative quotient; division of a positive dividend by zero
/// saturates high.
pub proof fn lemma_fx_div_nonneg(a: int, b: int)
    requires
        a >= 0,
        b >= 0,
    ensures
        fx_div(a, b) >= 0,
{
    if b != 0 && a > 0 {
        assert(a * (SCALE as int) > 0) by (nonlinear_arith)
            requires
                a > 0,
                SCALE as int > 0,
        ;
        lemma_div_pos_is_pos(a * (SCALE as int), b);
    }
}

/// Saturation of an exact `i128` intermediate into the raw `i64` range.
fn clamp_to_raw(x: i128) -> (r: i64)
    ensures
        r as int == clamp(x as int),
{
    if x > i64::MAX as i128 {
        i64::MAX
    } else if x < i64::MIN as i128 {
        i64::MIN
    } else {
        x as i64
    }
}

impl Scalar {
    /// The scalar zero.
    pub fn zero() -> (r: Scalar)
        ensures
            r@ == 0,
    {
        Scalar { raw: 0 }
    }

    /// The scalar of a whole number, saturated at the representable range.
    pub fn from_int(n: i64) -> (r: Scalar)
        ensures
            r@ == clamp(n * (SCALE as int)),
    {
        proof {
            let nn = n as int;
            assert(nn * (SCALE as int) <= 0x8_0000_0000_0000_0000_0000
                && nn * (SCALE as int) >= -0x8_0000_0000_0000_0000_0000) by (nonlinear_arith)
                requires
                    -0x8000_0000_0000_0000 <= nn <= 0x8000_0000_0000_0000,
                    SCALE as int == 1048576,
            ;
        }
        Scalar { raw: clamp_to_raw(n as i128 * SCALE as i128) }
    }

    /// Saturating addition.
    pub fn add(self, rhs: Scalar) -> (r: Scalar)
        ensures
            r@ == fx_add(self@, rhs@),
    {
        Scalar { raw: clamp_to_raw(self.raw as i128 + rhs.raw as i128) }
    }

    /// Saturating subtraction.
    pub fn sub(self, rhs: Scalar) -> (r: Scalar)
        ensures
            r@ == fx_sub(self@, rhs@),
    {
        Scalar { raw: clamp_to_raw(self.raw as i128 - rhs.raw as i128) }
    }

    /// Saturating fixed-point multiplication.
    pub fn mul(self, rhs: Scalar) -> (r: Scalar)
        ensures
            r@ == fx_mul(self@, rhs@),
    {
        proof {
            let a = self.raw as int;
            let b = rhs.raw as int;
            assert(a * b <= 0x4000_0000_0000_0000_0000_0000_0000_0000
                && a * b >= -0x4000_0000_0000_0000_0000_0000_0000_0000) by (nonlinear_arith)
                requires
                    -0x8000_0000_0000_0000 <= a < 0x8000_0000_0000_0000,
                    -0x8000_0000_0000_0000 <= b < 0x8000_0000_0000_0000,
            ;
        }
        let p: i128 = self.raw as i128 * rhs.raw as i128;
        proof {
            lemma_tdiv_magnitude(p as int, SCALE as int);
        }
        match p.checked_div(SCALE as i128) {
            Some(q) => Scalar { raw: clamp_to_raw(q) },
            None => Scalar { raw: 0 },
        }
    }

    /// Saturating fixed-point division; division by zero saturates by the
    /// sign of the dividend (see `fx_div`).
    pub fn div(self, rhs: Scalar) -> (r: Scalar)
        ensures
            r@ == fx_div(self@, rhs@),
    {
        if rhs.raw == 0 {
            if self.raw > 0 {
                Scalar { raw: i64::MAX }
            } else if self.raw < 0 {
                Scalar { raw: i64::MIN }
            } else {
                Scalar { raw: 0 }
            }
        } else {
            proof {
                let nn = self.raw as int;
                assert(nn * (SCALE as int) <= 0x8_0000_0000_0000_0000_0000
                    && nn * (SCALE as int) >= -0x8_0000_0000_0000_0000_0000) by (nonlinear_arith)
                    requires
                        -0x8000_0000_0000_0000 <= nn <= 0x8000_0000_0000_0000,
                        SCALE as int == 1048576,
                ;
            }
            let p: i128 = self.raw as i128 * SCALE as i128;
            proof {
                lemma_tdiv_magnitude(p as int, rhs.raw as int);
            }
            match p.checked_div(rhs.raw as i128) {
                Some(q) => Scalar { raw: clamp_to_raw(q) },
                None => Scalar { raw: 0 },
            }
        }
    }

    /// Fixed-point square root of a nonnegative scalar, by binary search
    /// over the raw integer square root; a nonpositive argument yields zero.
    pub fn sqrt(self) -> (r: Scalar)
        ensures
            r@ == fx_sqrt(self@),
    {
        if self.raw <= 0 {
            return Scalar { raw: 0 };
        }
        proof {
            let nn = self.raw as int;
            assert(nn * (SCALE as int) < 0x8_0000_0000_0000_0000_0000) by (nonlinear_arith)
                requires
                    0 < nn < 0x8000_0000_0000_0000,
                    SCALE as int == 1048576,
            ;
        }
        let n: u128 = self.raw as u128 * SCALE as u128;
        let mut lo: u128 = 0;
        let mut hi: u128 = 0x400_0000_0000;
        while lo + 1 < hi
            invariant
                lo < hi <= 0x400_0000_0000,
                lo * lo <= n,
                n < hi * hi,
            decreases hi - lo,
        {
            let mid = lo + (hi - lo) / 2;
            proof {
                assert(mid * mid <= 0x10_0000_0000_0000_0000_0000) by (nonlinear_arith)
                    requires
                        mid <= 0x400_0000_0000,
                ;
            }
            if mid * mid <= n {
                lo = mid;
            } else {
                hi = mid;
            }
        }
        proof {
            lemma_isqrt_unique(n as nat, lo as nat);
        }
        Scalar { raw: lo as i64 }
    }
}

} // verus!
