//! Integer arithmetic for fixed-point quantities: quotients that round
//! toward zero and integer square roots.
//!
//! A quantity is an integer that counts thousandths: `ONE` stands for 1.0.

use vstd::prelude::*;
use vstd::arithmetic::div_mod::{
    lemma_div_is_ordered, lemma_div_is_ordered_by_denominator, lemma_div_multiples_vanish,
    lemma_div_nonincreasing, lemma_div_pos_is_pos, lemma_fundamental_div_mod, lemma_mod_bound,
};

verus! {

/// The fixed-point number 1.0.
pub const ONE: i64 = 1_000;

/// The greatest magnitude of a position, of a velocity and of a constant
/// that the passes over a swarm compute with: two to the fortieth
/// thousandths, a little more than a thousand million units.
pub const LIMIT: i64 = 1_099_511_627_776;

/// Whether `x` lies within `LIMIT` of zero.
pub open spec fn within_limit(x: int) -> bool {
    -LIMIT <= x <= LIMIT
}

/// The magnitude of `x`.
pub open spec fn magnitude(x: int) -> int {
    if x < 0 {
        -x
    } else {
        x
    }
}

/// `x` confined to the interval from `-bound` to `bound`.
pub open spec fn confined(x: int, bound: int) -> int {
    if x < -bound {
        -bound
    } else if x > bound {
        bound
    } else {
        x
    }
}

/// `x` as a 64-bit integer holds it: itself where it fits, else the nearest
/// end of the range.
pub open spec fn saturated(x: int) -> int {
    if x < i64::MIN {
        i64::MIN as int
    } else if x > i64::MAX {
        i64::MAX as int
    } else {
        x
    }
}

/// The quotient of `n` by a positive `d`, rounded toward zero, so that the
/// quotient of `-n` is the negative of the quotient of `n`.
pub open spec fn quotient(n: int, d: int) -> int {
    if n >= 0 {
        n / d
    } else {
        -((-n) / d)
    }
}

/// `r` is the integer square root of `n`: the greatest integer whose square
/// does not exceed `n`.
pub open spec fn is_floor_sqrt(n: int, r: int) -> bool {
    0 <= r && r * r <= n < (r + 1) * (r + 1)
}

/// The integer square root of a non-negative `n`.
pub open spec fn floor_sqrt(n: int) -> int {
    choose|r: int| is_floor_sqrt(n, r)
}

/// The least integer whose square is at least `n`.
pub open spec fn ceil_sqrt(n: int) -> int {
    let r = floor_sqrt(n);
    if r * r == n {
        r
    } else {
        r + 1
    }
}

/// At most one integer is the integer square root of `n`.
pub proof fn lemma_floor_sqrt_unique(n: int, r: int, s: int)
    requires
        is_floor_sqrt(n, r),
        is_floor_sqrt(n, s),
    ensures
        r == s,
{
    if r < s {
        assert((r + 1) * (r + 1) <= s * s) by (nonlinear_arith)
            requires
                0 <= r,
                r + 1 <= s,
        ;
    } else if s < r {
        assert((s + 1) * (s + 1) <= r * r) by (nonlinear_arith)
            requires
                0 <= s,
                s + 1 <= r,
        ;
    }
}

/// Every non-negative integer has an integer square root, and `floor_sqrt`
/// is it.
pub proof fn lemma_floor_sqrt(n: int)
    requires
        n >= 0,
    ensures
        is_floor_sqrt(n, floor_sqrt(n)),
    decreases n,
{
    if n == 0 {
        assert(is_floor_sqrt(0, 0));
    } else {
        lemma_floor_sqrt(n - 1);
        let r = floor_sqrt(n - 1);
        if n < (r + 1) * (r + 1) {
            assert(is_floor_sqrt(n, r));
        } else {
            assert((r + 2) * (r + 2) > (r + 1) * (r + 1)) by (nonlinear_arith)
                requires
                    0 <= r,
            ;
            assert(is_floor_sqrt(n, r + 1));
        }
    }
}

/// An integer that meets the definition is `floor_sqrt(n)`.
pub proof fn lemma_floor_sqrt_is(n: int, r: int)
    requires
        is_floor_sqrt(n, r),
    ensures
        floor_sqrt(n) == r,
{
    assert(n >= 0) by (nonlinear_arith)
        requires
            r * r <= n,
    ;
    lemma_floor_sqrt(n);
    lemma_floor_sqrt_unique(n, r, floor_sqrt(n));
}

/// `ceil_sqrt(n)` is the least non-negative integer whose square reaches
/// `n`.
pub proof fn lemma_ceil_sqrt(n: int)
    requires
        n >= 0,
    ensures
        0 <= ceil_sqrt(n),
        n <= ceil_sqrt(n) * ceil_sqrt(n),
        n > 0 ==> (ceil_sqrt(n) - 1) * (ceil_sqrt(n) - 1) < n,
        n > 0 ==> ceil_sqrt(n) > 0,
{
    lemma_floor_sqrt(n);
    let r = floor_sqrt(n);
    if r * r != n {
        assert((r + 1) * (r + 1) >= n);
    } else if n > 0 {
        assert(r > 0) by (nonlinear_arith)
            requires
                r * r == n,
                n > 0,
                r >= 0,
        ;
        assert((r - 1) * (r - 1) < r * r) by (nonlinear_arith)
            requires
                r > 0,
        ;
    }
}

/// The quotient of `-n` is the opposite of the quotient of `n`.
pub proof fn lemma_quotient_odd(n: int, d: int)
    requires
        d > 0,
    ensures
        quotient(-n, d) == -quotient(n, d),
{
    if n == 0 {
        assert(0int / d == 0) by {
            lemma_div_pos_is_pos(0, d);
            lemma_div_nonincreasing(0, d);
        }
    }
}

/// A quotient has the sign of its numerator, and its magnitude is the
/// integer quotient of the numerator's magnitude.
pub proof fn lemma_quotient_magnitude(n: int, d: int)
    requires
        d > 0,
    ensures
        magnitude(quotient(n, d)) == magnitude(n) / d,
        magnitude(quotient(n, d)) * d <= magnitude(n),
        n >= 0 ==> quotient(n, d) >= 0,
        n <= 0 ==> quotient(n, d) <= 0,
{
    let m = magnitude(n);
    lemma_div_pos_is_pos(m, d);
    lemma_fundamental_div_mod(m, d);
    lemma_mod_bound(m, d);
    assert(d * (m / d) == (m / d) * d) by (nonlinear_arith);
    if n == 0 {
        assert(m / d == 0) by {
            lemma_div_nonincreasing(0, d);
        }
    }
}

/// Where `x` is no longer than `s`, the quotient of `x * c` by `s` is no
/// longer than `c`.
pub proof fn lemma_quotient_scaled(x: int, c: int, s: int)
    requires
        s > 0,
        magnitude(x) <= s,
    ensures
        magnitude(quotient(x * c, s)) <= magnitude(c),
{
    let n = x * c;
    let m = magnitude(n);
    let k = magnitude(c);
    assert(m == magnitude(x) * k) by (nonlinear_arith)
        requires
            n == x * c,
            m == magnitude(n),
            k == magnitude(c),
    ;
    assert(m <= s * k) by (nonlinear_arith)
        requires
            m == magnitude(x) * k,
            magnitude(x) <= s,
            k >= 0,
    ;
    lemma_quotient_magnitude(n, s);
    lemma_div_is_ordered(m, s * k, s);
    assert(s * k == k * s) by (nonlinear_arith);
    lemma_div_multiples_vanish(k, s);
}

/// The magnitude of a quotient is the integer quotient of the magnitudes,
/// so it is at most the numerator's and shrinks as the divisor grows.
pub proof fn lemma_quotient_bounds(n: int, d: int, least: int)
    requires
        0 < least <= d,
    ensures
        magnitude(quotient(n, d)) == magnitude(n) / d,
        magnitude(quotient(n, d)) <= magnitude(n) / least,
        magnitude(quotient(n, d)) <= magnitude(n),
{
    let m = magnitude(n);
    lemma_div_pos_is_pos(m, d);
    lemma_div_nonincreasing(m, d);
    lemma_div_is_ordered_by_denominator(m, least, d);
}

/// `x` confined to the interval from `-bound` to `bound`.
pub fn confine(x: i128, bound: i64) -> (r: i64)
    requires
        bound >= 0,
    ensures
        r == confined(x as int, bound as int),
{
    if x < -(bound as i128) {
        -bound
    } else if x > bound as i128 {
        bound
    } else {
        x as i64
    }
}

/// The quotient of `n` by `d`, rounded toward zero.
pub fn div_toward_zero(n: i128, d: i128) -> (q: i128)
    requires
        d > 0,
        n > i128::MIN,
    ensures
        q == quotient(n as int, d as int),
        magnitude(q as int) <= magnitude(n as int),
{
    if n >= 0 {
        let q: i128 = n / d;
        proof {
            lemma_div_nonincreasing(n as int, d as int);
            lemma_div_pos_is_pos(n as int, d as int);
        }
        q
    } else {
        let m: i128 = -n;
        let q: i128 = m / d;
        proof {
            lemma_div_nonincreasing(m as int, d as int);
            lemma_div_pos_is_pos(m as int, d as int);
        }
        -q
    }
}

/// The integer square root of `n`, found by bisection.
pub fn isqrt(n: u128) -> (r: u64)
    ensures
        is_floor_sqrt(n as int, r as int),
        r as int == floor_sqrt(n as int),
{
    let mut lo: u128 = 0;
    let mut hi: u128 = 0x1_0000_0000_0000_0000;
    assert(0x1_0000_0000_0000_0000int * 0x1_0000_0000_0000_0000int > u128::MAX) by (nonlinear_arith);
    while hi - lo > 1
        invariant
            lo < hi <= 0x1_0000_0000_0000_0000,
            lo * lo <= n < hi * hi,
        decreases hi - lo,
    {
        let mid: u128 = lo + (hi - lo) / 2;
        assert(mid * mid <= u128::MAX) by (nonlinear_arith)
            requires
                0 <= mid <= 0xffff_ffff_ffff_ffff,
        ;
        if mid * mid <= n {
            lo = mid;
        } else {
            hi = mid;
        }
    }
    proof {
        assert(hi == lo + 1);
        lemma_floor_sqrt_is(n as int, lo as int);
    }
    lo as u64
}

/// The least integer whose square is at least `n`.
pub fn isqrt_ceil(n: u128) -> (r: u128)
    ensures
        r as int == ceil_sqrt(n as int),
        r <= 0x1_0000_0000_0000_0000,
{
    let r: u64 = isqrt(n);
    let wide: u128 = r as u128;
    assert(wide * wide <= n);
    if wide * wide == n {
        wide
    } else {
        wide + 1
    }
}

} // verus!
