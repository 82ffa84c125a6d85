//! Fixed-point scalar arithmetic.
//!
//! Every geometric quantity in this crate is a signed 16.16 fixed-point
//! number: an `i64` holding the real value multiplied by `FX_ONE` (65536).
//! All operations are exact integer computations, so every contract below
//! pins the result down to the last bit.

use vstd::prelude::*;

verus! {

use vstd::arithmetic::div_mod::lemma_div_is_ordered;
use vstd::arithmetic::div_mod::lemma_div_multiples_vanish;
use vstd::arithmetic::mul::lemma_mul_upper_bound;
use vstd::arithmetic::mul::lemma_mul_inequality;

/// The fixed-point unit: 1.0 is represented as 65536.
pub const FX_ONE: i64 = 65536;

/// Half a turn (pi) in fixed-point radians.
pub const FX_PI: i64 = 205887;

/// A quarter turn (pi / 2) in fixed-point radians.
pub const FX_HALF_PI: i64 = 102944;

/// A full turn (2 * pi) in fixed-point radians.
pub const FX_TAU: i64 = 411774;

/// Largest coordinate magnitude the geometry accepts (4096 world units).
pub const FX_LIM: i64 = 0x1000_0000;

/// Magnitude of an integer.
pub open spec fn fx_abs(a: int) -> int {
    if a >= 0 {
        a
    } else {
        -a
    }
}

/// Division truncating toward zero, as Rust's `/` computes it on signed
/// integers. Defined for `b != 0`.
pub open spec fn tdiv(a: int, b: int) -> int {
    if (a >= 0) == (b >= 0) {
        fx_abs(a) / fx_abs(b)
    } else {
        -(fx_abs(a) / fx_abs(b))
    }
}

/// Fixed-point product: the real product, truncated toward zero.
pub open spec fn fx_mul_spec(a: int, b: int) -> int {
    tdiv(a * b, FX_ONE as int)
}

/// Fixed-point quotient: the real quotient, truncated toward zero.
pub open spec fn fx_div_spec(a: int, b: int) -> int {
    tdiv(a * FX_ONE, b)
}

/// Clamp `v` into `[lo, hi]`.
pub open spec fn fx_clamp(v: int, lo: int, hi: int) -> int {
    if v < lo {
        lo
    } else if v > hi {
        hi
    } else {
        v
    }
}

/// A quotient is no larger than `c` when the dividend is at most `b * c`.
pub proof fn lemma_tdiv_abs_le(a: int, b: int, c: int)
    requires
        b > 0,
        c >= 0,
        fx_abs(a) <= b * c,
    ensures
        fx_abs(tdiv(a, b)) <= c,
{
    lemma_div_is_ordered(fx_abs(a), b * c, b);
    lemma_div_multiples_vanish(c, b);
}

/// Fixed-point multiplication. Exact: returns the truncated real product.
pub fn fx_mul(a: i64, b: i64) -> (r: i64)
    requires
        -0x4000_0000_0000_0000_0000 <= a as int * b as int <= 0x4000_0000_0000_0000_0000,
    ensures
        r == fx_mul_spec(a as int, b as int),
{
    let p: i128 = (a as i128) * (b as i128);
    proof {
        lemma_div_is_ordered(fx_abs(p as int), 0x4000_0000_0000_0000_0000, 65536);
    }
    let neg: bool = p < 0;
    let m: u128 = if p < 0 {
        (-p) as u128
    } else {
        p as u128
    };
    let q: u128 = m / 65536;
    let s: i128 = if neg {
        -(q as i128)
    } else {
        q as i128
    };
    s as i64
}

/// Fixed-point division. Exact: returns the truncated real quotient.
pub fn fx_div(a: i64, b: i64) -> (r: i64)
    requires
        b != 0,
        -0x1000_0000_0000 <= a <= 0x1000_0000_0000,
    ensures
        r == fx_div_spec(a as int, b as int),
{
    let p: i128 = (a as i128) * 65536;
    let neg: bool = (p < 0) != (b < 0);
    let m: u128 = if p < 0 {
        (-p) as u128
    } else {
        p as u128
    };
    let d: u128 = if b < 0 {
        (-(b as i128)) as u128
    } else {
        b as u128
    };
    let q: u128 = m / d;
    proof {
        lemma_div_is_ordered(m as int, 0x1000_0000_0000_0000_0000 as int, d as int);
    }
    let s: i128 = if neg {
        -(q as i128)
    } else {
        q as i128
    };
    s as i64
}

/// Truncating signed division by a positive divisor.
pub fn tdiv64(a: i64, b: i64) -> (r: i64)
    requires
        b > 0,
        a > i64::MIN,
    ensures
        r == tdiv(a as int, b as int),
{
    let m: u64 = if a < 0 {
        (-a) as u64
    } else {
        a as u64
    };
    let q: u64 = m / (b as u64);
    proof {
        vstd::arithmetic::div_mod::lemma_div_nonincreasing(m as int, b as int);
    }
    if a < 0 {
        -(q as i64)
    } else {
        q as i64
    }
}

/// Truncating signed division.
pub fn tdiv_i64(a: i64, b: i64) -> (r: i64)
    requires
        b != 0,
        a > i64::MIN,
        b > i64::MIN,
    ensures
        r == tdiv(a as int, b as int),
{
    let m: u64 = if a < 0 {
        (-a) as u64
    } else {
        a as u64
    };
    let d: u64 = if b < 0 {
        (-b) as u64
    } else {
        b as u64
    };
    let q: u64 = m / d;
    proof {
        vstd::arithmetic::div_mod::lemma_div_nonincreasing(m as int, d as int);
    }
    if (a < 0) != (b < 0) {
        -(q as i64)
    } else {
        q as i64
    }
}

/// Clamp a value into `[lo, hi]`.
pub fn clamp64(v: i64, lo: i64, hi: i64) -> (r: i64)
    requires
        lo <= hi,
    ensures
        r == fx_clamp(v as int, lo as int, hi as int),
{
    if v < lo {
        lo
    } else if v > hi {
        hi
    } else {
        v
    }
}

/// The integer square root: the largest `r` with `r * r <= n`.
pub open spec fn isqrt_spec(n: nat) -> nat
    decreases n,
{
    if n == 0 {
        0
    } else {
        let p = isqrt_spec((n - 1) as nat);
        if (p + 1) * (p + 1) <= n {
            p + 1
        } else {
            p
        }
    }
}

/// `isqrt_spec` is bracketed by the two neighbouring squares.
pub proof fn lemma_isqrt_bounds(n: nat)
    ensures
        isqrt_spec(n) * isqrt_spec(n) <= n,
        n < (isqrt_spec(n) + 1) * (isqrt_spec(n) + 1),
    decreases n,
{
    if n == 0 {
        let s = isqrt_spec(0);
        assert(s == 0);
        assert((s + 1) * (s + 1) == 1) by (nonlinear_arith)
            requires
                s == 0,
        ;
    } else {
        lemma_isqrt_bounds((n - 1) as nat);
        let p = isqrt_spec((n - 1) as nat);
        assert(isqrt_spec(n) == if (p + 1) * (p + 1) <= n {
            p + 1
        } else {
            p
        });
        if (p + 1) * (p + 1) <= n {
            assert(isqrt_spec(n) == p + 1);
            assert(n < (p + 2) * (p + 2)) by (nonlinear_arith)
                requires
                    n <= (p + 1) * (p + 1),
                    p >= 0,
            ;
            assert((isqrt_spec(n) + 1) * (isqrt_spec(n) + 1) == (p + 2) * (p + 2));
        } else {
            assert(isqrt_spec(n) == p);
            assert(p * p <= n);
            assert((isqrt_spec(n) + 1) * (isqrt_spec(n) + 1) == (p + 1) * (p + 1));
        }
    }
}

/// The bracketing property determines the square root uniquely.
pub proof fn lemma_isqrt_unique(n: nat, r: nat)
    requires
        r * r <= n,
        n < (r + 1) * (r + 1),
    ensures
        r == isqrt_spec(n),
{
    let s = isqrt_spec(n);
    lemma_isqrt_bounds(n);
    if r < s {
        lemma_mul_inequality(r as int + 1, s as int, r as int + 1);
        lemma_mul_inequality(r as int + 1, s as int, s as int);
    }
    if s < r {
        lemma_mul_inequality(s as int + 1, r as int, s as int + 1);
        lemma_mul_inequality(s as int + 1, r as int, r as int);
    }
}

/// Integer square root by bisection.
pub fn isqrt64(n: u64) -> (r: u64)
    ensures
        r == isqrt_spec(n as nat),
        r * r <= n < (r + 1) * (r + 1),
{
    let mut lo: u64 = 0;
    let mut hi: u64 = 0x1_0000_0000;
    proof {
        assert((0x1_0000_0000 as int) * (0x1_0000_0000 as int) > n as int) by (nonlinear_arith)
            requires
                n <= 0xffff_ffff_ffff_ffff,
        ;
    }
    while lo + 1 < hi
        invariant
            lo < hi <= 0x1_0000_0000,
            lo as int * lo as int <= n as int,
            hi as int * hi as int > n as int,
        decreases hi - lo,
    {
        let mid: u64 = lo + (hi - lo) / 2;
        proof {
            assert(mid as int * mid as int <= 0x1_0000_0000_0000_0000) by (nonlinear_arith)
                requires
                    0 <= mid as int <= 0x1_0000_0000,
            ;
        }
        let sq: u128 = (mid as u128) * (mid as u128);
        if sq <= n as u128 {
            lo = mid;
        } else {
            hi = mid;
        }
    }
    proof {
        lemma_isqrt_unique(n as nat, lo as nat);
    }
    lo
}

/// Sine of `x` for `x` in `[0, FX_HALF_PI]`, by a truncated power series,
/// clamped into `[-FX_ONE, FX_ONE]`.
pub open spec fn sin_core_spec(x: int) -> int {
    let x2: int = x * x / 65536;
    let x3: int = x * x2 / 65536;
    let x5: int = x3 * x2 / 65536;
    let x7: int = x5 * x2 / 65536;
    let x9: int = x7 * x2 / 65536;
    fx_clamp(x + x5 / 120 + x9 / 362880 - x3 / 6 - x7 / 5040, -65536, 65536)
}

/// Cosine of `x` for `x` in `[0, FX_HALF_PI]`, by a truncated power series,
/// clamped into `[-FX_ONE, FX_ONE]`.
pub open spec fn cos_core_spec(x: int) -> int {
    let x2: int = x * x / 65536;
    let x4: int = x2 * x2 / 65536;
    let x6: int = x4 * x2 / 65536;
    let x8: int = x6 * x2 / 65536;
    let x10: int = x8 * x2 / 65536;
    fx_clamp(65536 + x4 / 24 + x8 / 40320 - x2 / 2 - x6 / 720 - x10 / 3628800, -65536, 65536)
}

/// Sine over one full turn, by quadrant folding of `sin_core_spec`.
pub open spec fn sin_fold_spec(a: int) -> int {
    if a <= 102944 {
        sin_core_spec(a)
    } else if a <= 205887 {
        sin_core_spec(205887 - a)
    } else if a <= 308831 {
        -sin_core_spec(a - 205887)
    } else {
        -sin_core_spec(411774 - a)
    }
}

/// Cosine over one full turn, by quadrant folding of `cos_core_spec`.
pub open spec fn cos_fold_spec(a: int) -> int {
    if a <= 102944 {
        cos_core_spec(a)
    } else if a <= 205887 {
        -cos_core_spec(205887 - a)
    } else if a <= 308831 {
        -cos_core_spec(a - 205887)
    } else {
        cos_core_spec(411774 - a)
    }
}

/// Sine of a fixed-point angle in radians; odd by construction.
pub open spec fn sin_fx_spec(x: int) -> int {
    if x < 0 {
        -sin_fold_spec((-x) % 411774)
    } else {
        sin_fold_spec(x % 411774)
    }
}

/// Cosine of a fixed-point angle in radians; even by construction.
pub open spec fn cos_fx_spec(x: int) -> int {
    if x < 0 {
        cos_fold_spec((-x) % 411774)
    } else {
        cos_fold_spec(x % 411774)
    }
}

fn sin_core(x: u64) -> (r: i64)
    requires
        x <= 102944,
    ensures
        r == sin_core_spec(x as int),
        -65536 <= r <= 65536,
{
    proof {
        lemma_mul_upper_bound(x as int, 102944int, x as int, 102944int);
        lemma_div_is_ordered(x as int * x as int, 102944int * 102944int, 65536int);
    }
    let x2: u64 = x * x / 65536;
    proof {
        lemma_mul_upper_bound(x as int, 102944int, x2 as int, 161704int);
        lemma_div_is_ordered(x as int * x2 as int, 102944int * 161704int, 65536int);
    }
    let x3: u64 = x * x2 / 65536;
    proof {
        lemma_mul_upper_bound(x3 as int, 260000int, x2 as int, 161704int);
        lemma_div_is_ordered(x3 as int * x2 as int, 260000int * 161704int, 65536int);
    }
    let x5: u64 = x3 * x2 / 65536;
    proof {
        lemma_mul_upper_bound(x5 as int, 650000int, x2 as int, 161704int);
        lemma_div_is_ordered(x5 as int * x2 as int, 650000int * 161704int, 65536int);
    }
    let x7: u64 = x5 * x2 / 65536;
    proof {
        lemma_mul_upper_bound(x7 as int, 1700000int, x2 as int, 161704int);
        lemma_div_is_ordered(x7 as int * x2 as int, 1700000int * 161704int, 65536int);
    }
    let x9: u64 = x7 * x2 / 65536;
    let pos: u64 = x + x5 / 120 + x9 / 362880;
    let neg: u64 = x3 / 6 + x7 / 5040;
    let v: i64 = pos as i64 - neg as i64;
    if v > 65536 {
        65536
    } else if v < -65536 {
        -65536
    } else {
        v
    }
}

fn cos_core(x: u64) -> (r: i64)
    requires
        x <= 102944,
    ensures
        r == cos_core_spec(x as int),
        -65536 <= r <= 65536,
{
    proof {
        lemma_mul_upper_bound(x as int, 102944int, x as int, 102944int);
        lemma_div_is_ordered(x as int * x as int, 102944int * 102944int, 65536int);
    }
    let x2: u64 = x * x / 65536;
    proof {
        lemma_mul_upper_bound(x2 as int, 161704int, x2 as int, 161704int);
        lemma_div_is_ordered(x2 as int * x2 as int, 161704int * 161704int, 65536int);
    }
    let x4: u64 = x2 * x2 / 65536;
    proof {
        lemma_mul_upper_bound(x4 as int, 400000int, x2 as int, 161704int);
        lemma_div_is_ordered(x4 as int * x2 as int, 400000int * 161704int, 65536int);
    }
    let x6: u64 = x4 * x2 / 65536;
    proof {
        lemma_mul_upper_bound(x6 as int, 1000000int, x2 as int, 161704int);
        lemma_div_is_ordered(x6 as int * x2 as int, 1000000int * 161704int, 65536int);
    }
    let x8: u64 = x6 * x2 / 65536;
    proof {
        lemma_mul_upper_bound(x8 as int, 2500000int, x2 as int, 161704int);
        lemma_div_is_ordered(x8 as int * x2 as int, 2500000int * 161704int, 65536int);
    }
    let x10: u64 = x8 * x2 / 65536;
    let pos: u64 = 65536 + x4 / 24 + x8 / 40320;
    let neg: u64 = x2 / 2 + x6 / 720 + x10 / 3628800;
    let v: i64 = pos as i64 - neg as i64;
    if v > 65536 {
        65536
    } else if v < -65536 {
        -65536
    } else {
        v
    }
}

/// Sine is odd: negating the angle negates the sine, exactly.
pub proof fn lemma_sin_odd(x: int)
    ensures
        sin_fx_spec(-x) == -sin_fx_spec(x),
{
    if x == 0 {
        assert(sin_fx_spec(0) == sin_fold_spec(0int % 411774));
    } else if x > 0 {
        assert(sin_fx_spec(x) == sin_fold_spec(x % 411774));
        assert(sin_fx_spec(-x) == -sin_fold_spec(x % 411774));
    } else {
        assert(sin_fx_spec(x) == -sin_fold_spec((-x) % 411774));
        assert(sin_fx_spec(-x) == sin_fold_spec((-x) % 411774));
    }
}

/// Cosine is even: negating the angle leaves the cosine unchanged,
/// exactly.
pub proof fn lemma_cos_even(x: int)
    ensures
        cos_fx_spec(-x) == cos_fx_spec(x),
{
    if x == 0 {
        assert(cos_fx_spec(0) == cos_fold_spec(0int % 411774));
    } else if x > 0 {
        assert(cos_fx_spec(x) == cos_fold_spec(x % 411774));
        assert(cos_fx_spec(-x) == cos_fold_spec(x % 411774));
    } else {
        assert(cos_fx_spec(x) == cos_fold_spec((-x) % 411774));
        assert(cos_fx_spec(-x) == cos_fold_spec((-x) % 411774));
    }
}

/// Sine of a fixed-point angle in radians.
pub fn sin_fx(x: i64) -> (r: i64)
    requires
        -0x4000_0000_0000_0000 < x < 0x4000_0000_0000_0000,
    ensures
        r == sin_fx_spec(x as int),
        -65536 <= r <= 65536,
        x == 0 ==> r == 0,
{
    let y: u64 = if x < 0 {
        (-x) as u64
    } else {
        x as u64
    };
    let a: u64 = y % 411774;
    let v: i64 = if a <= 102944 {
        sin_core(a)
    } else if a <= 205887 {
        sin_core(205887 - a)
    } else if a <= 308831 {
        sin_core(a - 205887)
    } else {
        sin_core(411774 - a)
    };
    let w: i64 = if a <= 205887 {
        v
    } else {
        -v
    };
    proof {
        if x == 0 {
            assert(0int % 411774int == 0);
            assert(sin_core_spec(0) == 0);
        }
    }
    if x < 0 {
        -w
    } else {
        w
    }
}

/// Cosine of a fixed-point angle in radians.
pub fn cos_fx(x: i64) -> (r: i64)
    requires
        -0x4000_0000_0000_0000 < x < 0x4000_0000_0000_0000,
    ensures
        r == cos_fx_spec(x as int),
        -65536 <= r <= 65536,
        x == 0 ==> r == 65536,
{
    let y: u64 = if x < 0 {
        (-x) as u64
    } else {
        x as u64
    };
    let a: u64 = y % 411774;
    let v: i64 = if a <= 102944 {
        cos_core(a)
    } else if a <= 205887 {
        cos_core(205887 - a)
    } else if a <= 308831 {
        cos_core(a - 205887)
    } else {
        cos_core(411774 - a)
    };
    proof {
        if x == 0 {
            assert(0int % 411774int == 0);
            assert(cos_core_spec(0) == 65536);
        }
    }
    if a <= 102944 || a > 308831 {
        v
    } else {
        -v
    }
}

} // verus!
