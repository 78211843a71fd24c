//! Exact integer arithmetic used by the geometry code: absolute values,
//! truncating division (the semantics of Rust's `/` on signed integers), and
//! an integer square root for Euclidean distances.
use vstd::prelude::*;

verus! {

/// Absolute value of a mathematical integer.
pub open spec fn sabs(a: int) -> int {
    if a >= 0 {
        a
    } else {
        -a
    }
}

/// Division truncating toward zero, as Rust's `/` computes it on signed
/// integers. On non-negative operands it agrees with Euclidean division.
pub open spec fn trunc_div(a: int, b: int) -> int
    recommends
        b != 0,
{
    if (a >= 0) == (b >= 0) {
        sabs(a) / sabs(b)
    } else {
        -(sabs(a) / sabs(b))
    }
}

/// Dividing by one returns the dividend unchanged.
pub proof fn lemma_trunc_div_by_one(a: int)
    ensures
        trunc_div(a, 1) == a,
{
    vstd::arithmetic::div_mod::lemma_div_basics(sabs(a));
}

/// Magnitude of an `i64` as a `u64`, total (also on `i64::MIN`).
pub(crate) fn magnitude_i64(a: i64) -> (r: u64)
    ensures
        r == sabs(a as int),
{
    if a == i64::MIN {
        9223372036854775808u64
    } else if a < 0 {
        (-a) as u64
    } else {
        a as u64
    }
}

/// Truncating division of `i64` values, total on every pair the machine can
/// divide: the divisor must be nonzero and the one overflowing pair
/// (`i64::MIN / -1`) is excluded.
pub fn div_trunc_i64(a: i64, b: i64) -> (r: i64)
    requires
        b != 0,
        !(a == i64::MIN && b == -1),
    ensures
        r == trunc_div(a as int, b as int),
{
    if b == 1 {
        proof {
            lemma_trunc_div_by_one(a as int);
        }
        return a;
    }
    let ua: u64 = magnitude_i64(a);
    let ub: u64 = magnitude_i64(b);
    let q: u64 = ua / ub;
    proof {
        assert(q <= ua) by {
            vstd::arithmetic::div_mod::lemma_div_nonincreasing(ua as int, ub as int);
        }
        if ub >= 2 {
            assert(q <= i64::MAX) by {
                assert(ua as int / ub as int <= ua as int / 2) by {
                    vstd::arithmetic::div_mod::lemma_div_is_ordered_by_denominator(
                        ua as int,
                        2,
                        ub as int,
                    );
                }
                assert(ua as int / 2 <= i64::MAX) by (nonlinear_arith)
                    requires
                        ua <= 9223372036854775808u64,
                ;
            }
        }
    }
    let qi: i64 = q as i64;
    if (a < 0) != (b < 0) {
        -qi
    } else {
        qi
    }
}

/// `r` is the integer square root of `n`: the greatest integer whose square
/// does not exceed `n`.
pub open spec fn is_isqrt(n: int, r: int) -> bool {
    &&& r >= 0
    &&& r * r <= n
    &&& n < (r + 1) * (r + 1)
}

/// Integer square root by bisection. The result fits `u64` because the
/// square of `u64::MAX + 1` exceeds every `u128` value.
pub fn isqrt_u128(n: u128) -> (r: u64)
    ensures
        is_isqrt(n as int, r as int),
{
    let mut lo: u64 = 0;
    let mut hi: u64 = u64::MAX;
    proof {
        assert((hi + 1) * (hi + 1) > u128::MAX) by (nonlinear_arith)
            requires
                hi == u64::MAX,
        ;
    }
    while lo < hi
        invariant
            lo <= hi,
            (lo as int) * (lo as int) <= n as int,
            (n as int) < ((hi as int) + 1) * ((hi as int) + 1),
        decreases hi - lo,
    {
        let mid: u64 = (((lo as u128) + (hi as u128) + 1) / 2) as u64;
        proof {
            assert(lo < mid <= hi) by {
                assert((lo as int + hi as int + 1) / 2 * 2 + (lo as int + hi as int + 1) % 2 == (
                lo as int + hi as int + 1)) by {
                    vstd::arithmetic::div_mod::lemma_fundamental_div_mod(
                        lo as int + hi as int + 1,
                        2,
                    );
                }
            }
            assert((mid as int) * (mid as int) <= u128::MAX) by (nonlinear_arith)
                requires
                    0 <= mid <= u64::MAX,
            ;
        }
        let sq: u128 = (mid as u128) * (mid as u128);
        if sq <= n {
            lo = mid;
        } else {
            hi = mid - 1;
        }
    }
    lo
}

} // verus!
