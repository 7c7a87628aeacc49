//! Integer arithmetic for the fixed-point model: rounding toward zero,
//! saturation at the representable range, and integer square roots.
use vstd::prelude::*;

verus! {

/// Quotient rounded toward zero, as Rust's `/` computes it (`b > 0`).
pub open spec fn div_toward_zero(a: int, b: int) -> int {
    if a >= 0 {
        a / b
    } else {
        -((-a) / b)
    }
}

/// `v` held to the closed range `[lo, hi]`.
pub open spec fn clamp_to(v: int, lo: int, hi: int) -> int {
    if v < lo {
        lo
    } else if v > hi {
        hi
    } else {
        v
    }
}

/// `s` is the integer square root of `n`, rounded down.
pub open spec fn is_floor_sqrt(n: int, s: int) -> bool {
    0 <= s && s * s <= n && n < (s + 1) * (s + 1)
}

/// The integer square root of `n`, rounded down.
pub open spec fn floor_sqrt(n: nat) -> nat {
    choose|s: nat| is_floor_sqrt(n as int, s as int)
}

/// The integer square root of `n`, rounded up.
pub open spec fn ceil_sqrt(n: nat) -> nat {
    let s = floor_sqrt(n);
    if s * s == n {
        s
    } else {
        s + 1
    }
}

pub proof fn lemma_floor_sqrt_unique(n: int, s: int, t: int)
    requires
        is_floor_sqrt(n, s),
        is_floor_sqrt(n, t),
    ensures
        s == t,
{
    if s < t {
        assert((s + 1) * (s + 1) <= t * t) by (nonlinear_arith)
            requires
                0 <= s,
                s + 1 <= t,
        ;
    } else if t < s {
        assert((t + 1) * (t + 1) <= s * s) by (nonlinear_arith)
            requires
                0 <= t,
                t + 1 <= s,
        ;
    }
}

/// Every natural number has an integer square root.
pub proof fn lemma_floor_sqrt_exists(n: nat)
    ensures
        is_floor_sqrt(n as int, floor_sqrt(n) as int),
    decreases n,
{
    if n == 0 {
        assert(is_floor_sqrt(0, 0));
    } else {
        lemma_floor_sqrt_exists((n - 1) as nat);
        let s = floor_sqrt((n - 1) as nat);
        if (s + 1) * (s + 1) <= n {
            assert(n < (s + 2) * (s + 2)) by (nonlinear_arith)
                requires
                    n - 1 < (s + 1) * (s + 1),
                    0 <= s,
            ;
            assert(is_floor_sqrt(n as int, (s + 1) as int));
        } else {
            assert(is_floor_sqrt(n as int, s as int));
        }
    }
}

/// `floor_sqrt` is the only integer square root rounded down.
pub proof fn lemma_floor_sqrt_is(n: nat, s: int)
    requires
        is_floor_sqrt(n as int, s),
    ensures
        floor_sqrt(n) == s,
{
    lemma_floor_sqrt_exists(n);
    lemma_floor_sqrt_unique(n as int, s, floor_sqrt(n) as int);
}

/// What `ceil_sqrt` is: the least `s` with `n <= s * s`.
pub proof fn lemma_ceil_sqrt(n: nat)
    ensures
        n <= ceil_sqrt(n) * ceil_sqrt(n),
        ceil_sqrt(n) == 0 || (ceil_sqrt(n) - 1) * (ceil_sqrt(n) - 1) < n,
        ceil_sqrt(n) <= floor_sqrt(n) + 1,
        floor_sqrt(n) <= ceil_sqrt(n),
{
    lemma_floor_sqrt_exists(n);
    let s = floor_sqrt(n);
    if s * s != n {
        assert(s * s < n);
    } else if s > 0 {
        assert((s - 1) * (s - 1) < s * s) by (nonlinear_arith)
            requires
                s > 0,
        ;
    }
}

/// The magnitude of a quotient rounded toward zero.
pub proof fn lemma_div_toward_zero_abs(a: int, b: int)
    requires
        b > 0,
    ensures
        div_toward_zero(a, b) >= 0 <==> a >= 0 || -a < b,
        0 <= (if a >= 0 { a } else { -a }) / b,
        (if div_toward_zero(a, b) >= 0 { div_toward_zero(a, b) } else { -div_toward_zero(a, b) })
            == (if a >= 0 { a } else { -a }) / b,
        (if a >= 0 { a } else { -a }) / b <= (if a >= 0 { a } else { -a }),
{
    let m = if a >= 0 { a } else { -a };
    assert(0 <= m / b <= m) by (nonlinear_arith)
        requires
            m >= 0,
            b > 0,
    ;
    if a < 0 && -a < b {
        assert(m / b == 0) by (nonlinear_arith)
            requires
                0 <= m < b,
        ;
    }
    if a < 0 && -a >= b {
        assert(m / b >= 1) by (nonlinear_arith)
            requires
                m >= b,
                b > 0,
        ;
    }
}

/// Rounds `a / b` toward zero.
pub fn quot(a: i128, b: i128) -> (r: i128)
    requires
        b > 0,
        a > i128::MIN,
    ensures
        r == div_toward_zero(a as int, b as int),
{
    proof {
        lemma_div_toward_zero_abs(a as int, b as int);
    }
    if a >= 0 {
        a / b
    } else {
        let m: i128 = -a;
        -(m / b)
    }
}

/// Holds `v` to the range `[-limit, limit]`.
pub fn clamp_sym(v: i128, limit: i64) -> (r: i64)
    requires
        limit >= 0,
    ensures
        r == clamp_to(v as int, -(limit as int), limit as int),
{
    if v < -(limit as i128) {
        -limit
    } else if v > limit as i128 {
        limit
    } else {
        v as i64
    }
}

/// The integer square root of `n`, rounded down, by bisection.
pub fn sqrt_floor(n: u128) -> (s: u128)
    requires
        n < 0x1_0000_0000_0000_0000_0000_0000,
    ensures
        is_floor_sqrt(n as int, s as int),
        s == floor_sqrt(n as nat),
        s < 0x1_0000_0000_0000,
{
    let mut lo: u128 = 0;
    let mut hi: u128 = 0x1_0000_0000_0000;
    assert(n < hi * hi);
    while hi - lo > 1
        invariant
            lo < hi <= 0x1_0000_0000_0000,
            lo * lo <= n,
            n < hi * hi,
        decreases hi - lo,
    {
        let mid: u128 = lo + (hi - lo) / 2;
        assert(mid * mid < 0x1_0000_0000_0000_0000_0000_0000) by (nonlinear_arith)
            requires
                mid < 0x1_0000_0000_0000,
        ;
        if mid * mid <= n {
            lo = mid;
        } else {
            hi = mid;
        }
    }
    proof {
        lemma_floor_sqrt_is(n as nat, lo as int);
    }
    lo
}

/// The integer square root of `n`, rounded up.
pub fn sqrt_ceil(n: u128) -> (s: u128)
    requires
        n < 0x1_0000_0000_0000_0000_0000_0000,
    ensures
        s == ceil_sqrt(n as nat),
        s <= 0x1_0000_0000_0000,
{
    let f = sqrt_floor(n);
    assert(f * f < 0x1_0000_0000_0000_0000_0000_0000) by (nonlinear_arith)
        requires
            f < 0x1_0000_0000_0000,
    ;
    if f * f == n {
        f
    } else {
        f + 1
    }
}

} // verus!
