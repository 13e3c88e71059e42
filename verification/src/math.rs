//! Integer arithmetic helpers shared by every stage: rounding division,
//! an exact integer square root, and toroidal index wraparound.

use vstd::prelude::*;
use vstd::arithmetic::div_mod::{
    lemma_fundamental_div_mod, lemma_fundamental_div_mod_converse_mod, lemma_small_mod,
    lemma_add_mod_noop_right, lemma_div_pos_is_pos, lemma_div_is_ordered,
    lemma_fundamental_div_mod_converse_div,
};
use vstd::arithmetic::mul::lemma_mul_inequality;

verus! {

/// `a / b` rounded to the nearest integer, halves up (`a >= 0`, `b > 0`).
pub open spec fn rdiv_up(a: int, b: int) -> int {
    (2 * a + b) / (2 * b)
}

/// Rounding division, the executable counterpart of `rdiv_up`.
pub fn rdiv(a: u64, b: u64) -> (r: u64)
    requires
        0 < b <= 0x4000_0000_0000_0000,
        2 * a + b <= u64::MAX,
    ensures
        r == rdiv_up(a as int, b as int),
{
    (2 * a + b) / (2 * b)
}

/// `rdiv_up` stays between 0 and `c` when the numerator stays under `c * b`.
pub proof fn lemma_rdiv_up_range(a: int, b: int, c: int)
    requires
        0 < b,
        0 <= c,
        0 <= a <= c * b,
    ensures
        0 <= rdiv_up(a, b) <= c,
{
    lemma_div_pos_is_pos(2 * a + b, 2 * b);
    assert((2 * (c * b) + b) / (2 * b) == c) by {
        assert(2 * (c * b) + b == c * (2 * b) + b) by (nonlinear_arith);
        lemma_fundamental_div_mod_converse_div(2 * (c * b) + b, 2 * b, c, b);
    }
    lemma_div_is_ordered(2 * a + b, 2 * (c * b) + b, 2 * b);
}

/// `rdiv_up` is monotone in the numerator.
pub proof fn lemma_rdiv_up_monotone(a1: int, a2: int, b: int)
    requires
        0 < b,
        a1 <= a2,
    ensures
        rdiv_up(a1, b) <= rdiv_up(a2, b),
{
    lemma_div_is_ordered(2 * a1 + b, 2 * a2 + b, 2 * b);
}

/// `rdiv_up` recovers an exact multiple of the divisor.
pub proof fn lemma_rdiv_up_exact(v: int, b: int)
    requires
        0 < b,
        0 <= v,
    ensures
        rdiv_up(v * b, b) == v,
{
    assert(2 * (v * b) + b == v * (2 * b) + b) by (nonlinear_arith);
    lemma_fundamental_div_mod_converse_div(2 * (v * b) + b, 2 * b, v, b);
}

/// A quotient bound from a product bound.
pub proof fn lemma_div_below(a: int, b: int, c: int)
    requires
        0 < b,
        0 <= a,
        a < b * c,
    ensures
        a / b < c,
{
    lemma_fundamental_div_mod(a, b);
    if a / b >= c {
        lemma_mul_inequality(c, a / b, b);
        assert(b * (a / b) == (a / b) * b) by (nonlinear_arith);
        assert(b * c == c * b) by (nonlinear_arith);
    }
}

/// The floor of the square root, defined by recursion on `n`.
pub open spec fn sqrt_floor(n: nat) -> nat
    decreases n,
{
    if n == 0 {
        0
    } else {
        let r: nat = sqrt_floor((n - 1) as nat);
        if (r + 1) * (r + 1) <= n {
            r + 1
        } else {
            r
        }
    }
}

/// `sqrt_floor(n)` is bracketed by the two neighbouring perfect squares.
pub proof fn lemma_sqrt_floor_bounds(n: nat)
    ensures
        sqrt_floor(n) * sqrt_floor(n) <= n,
        n < (sqrt_floor(n) + 1) * (sqrt_floor(n) + 1),
    decreases n,
{
    let s: nat = sqrt_floor(n);
    if n > 0 {
        let r: nat = sqrt_floor((n - 1) as nat);
        lemma_sqrt_floor_bounds((n - 1) as nat);
        if (r + 1) * (r + 1) <= n {
            assert(s == r + 1);
            assert(s * s <= n && n < (s + 1) * (s + 1)) by (nonlinear_arith)
                requires s == r + 1, (r + 1) * (r + 1) <= n, n - 1 < (r + 1) * (r + 1),
            ;
        } else {
            assert(s == r);
            assert(s * s <= n && n < (s + 1) * (s + 1)) by (nonlinear_arith)
                requires s == r, r * r <= n - 1, n < (r + 1) * (r + 1),
            ;
        }
    } else {
        assert(s == 0);
        assert(s * s <= n && n < (s + 1) * (s + 1)) by (nonlinear_arith)
            requires s == 0, n == 0,
        ;
    }
}

/// No value but `sqrt_floor(n)` satisfies the square-root bracketing.
pub proof fn lemma_sqrt_floor_unique(n: nat, r: nat)
    requires
        r * r <= n,
        n < (r + 1) * (r + 1),
    ensures
        r == sqrt_floor(n),
{
    lemma_sqrt_floor_bounds(n);
    let s: nat = sqrt_floor(n);
    if r < s {
        assert((r + 1) * (r + 1) <= s * s) by (nonlinear_arith)
            requires r + 1 <= s,
        ;
    }
    if s < r {
        assert((s + 1) * (s + 1) <= r * r) by (nonlinear_arith)
            requires s + 1 <= r,
        ;
    }
}

/// Integer square root by bisection.
pub fn isqrt(n: u64) -> (r: u64)
    requires
        n < 0x4000_0000_0000_0000,
    ensures
        r == sqrt_floor(n as nat),
        r * r <= n,
        n < (r + 1) * (r + 1),
{
    let mut lo: u64 = 0;
    let mut hi: u64 = 0x8000_0000;
    assert(hi * hi > n);
    while lo + 1 < hi
        invariant
            lo < hi,
            hi <= 0x8000_0000,
            lo * lo <= n,
            n < hi * hi,
        decreases hi - lo,
    {
        let mid: u64 = lo + (hi - lo) / 2;
        assert(mid * mid <= 0x8000_0000 * 0x8000_0000) by (nonlinear_arith)
            requires mid <= 0x8000_0000,
        ;
        if mid * mid <= n {
            lo = mid;
        } else {
            hi = mid;
        }
    }
    proof {
        lemma_sqrt_floor_unique(n as nat, lo as nat);
    }
    lo
}

/// Index arithmetic on a cyclic axis of length `m`: the value of
/// `(x + d) % m` with the sign convention of mathematical integers
/// (always in `[0, m)`).
pub fn wrap_add(x: usize, d: i64, m: usize) -> (r: usize)
    requires
        0 < m <= 0x4000_0000,
        x < m,
        -0x4000_0000_0000_0000 < d < 0x4000_0000_0000_0000,
    ensures
        r < m,
        r as int == (x + d) % (m as int),
{
    let mu: u64 = m as u64;
    let mi: Ghost<int> = Ghost(m as int);
    if d >= 0 {
        let dd: u64 = (d as u64) % mu;
        proof {
            lemma_fundamental_div_mod(d as int, mi@);
            lemma_add_mod_noop_right(x as int, d as int, mi@);
            assert((x + d) % mi@ == (x + dd) % mi@);
            if x + dd < m {
                lemma_small_mod((x + dd) as nat, m as nat);
            } else {
                assert(x + dd == 1 * mi@ + (x + dd - mi@));
                lemma_fundamental_div_mod_converse_mod(x + dd, mi@, 1, x + dd - mi@);
            }
        }
        let dd_us: usize = dd as usize;
        if x >= m - dd_us {
            x - (m - dd_us)
        } else {
            x + dd_us
        }
    } else {
        let nd: u64 = (-d) as u64;
        let dd: u64 = nd % mu;
        proof {
            let q: int = nd as int / mi@;
            lemma_fundamental_div_mod(nd as int, mi@);
            assert(nd as int == mi@ * q + dd);
            assert(x + d == x - dd - q * mi@) by {
                assert(mi@ * q == q * mi@) by (nonlinear_arith);
            }
            if x >= dd {
                assert(x + d == (-q) * mi@ + (x - dd)) by {
                    assert((-q) * mi@ == -(q * mi@)) by (nonlinear_arith);
                }
                lemma_fundamental_div_mod_converse_mod(x + d, mi@, -q, x - dd);
            } else {
                assert(x + d == (-q - 1) * mi@ + (x + mi@ - dd)) by {
                    assert((-q - 1) * mi@ == -(q * mi@) - mi@) by (nonlinear_arith);
                }
                lemma_fundamental_div_mod_converse_mod(x + d, mi@, -q - 1, x + mi@ - dd);
            }
        }
        let dd_us: usize = dd as usize;
        if x >= dd_us {
            x - dd_us
        } else {
            x + (m - dd_us)
        }
    }
}

} // verus!
