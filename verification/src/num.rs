//! Whole-number arithmetic the layout is counted in.

use vstd::prelude::*;

verus! {

/// `n` over `d`, rounded up.
pub open spec fn over(n: nat, d: nat) -> nat {
    (n + d - 1) as nat / d
}

/// `n` over `d`, rounded to the nearest whole and up from halfway.
pub open spec fn nearest(n: nat, d: nat) -> nat {
    n / d + if 2 * (n % d) >= d {
        1nat
    } else {
        0nat
    }
}

pub open spec fn between(n: int, low: int, high: int) -> int {
    if n < low {
        low
    } else if n > high {
        high
    } else {
        n
    }
}

pub open spec fn larger(a: int, b: int) -> int {
    if a >= b {
        a
    } else {
        b
    }
}

pub open spec fn smaller(a: int, b: int) -> int {
    if a <= b {
        a
    } else {
        b
    }
}

/// `n` over `d`, rounded up.
pub fn div_up(n: usize, d: usize) -> (q: usize)
    requires
        d > 0,
    ensures
        q == over(n as nat, d as nat),
        q <= n,
        n > 0 ==> q > 0,
{
    if n == 0 {
        assert((d - 1) / d as int == 0) by (nonlinear_arith)
            requires
                d > 0,
        ;
        0
    } else {
        assert((n + d - 1) / d as int == (n - 1) / d as int + 1) by (nonlinear_arith)
            requires
                d > 0,
                n > 0,
        ;
        assert((n - 1) / d as int <= n - 1) by (nonlinear_arith)
            requires
                d > 0,
                n > 0,
        ;
        (n - 1) / d + 1
    }
}

/// `n` over `d`, rounded to the nearest whole and up from halfway.
pub fn div_near(n: u128, d: u128) -> (q: u128)
    requires
        0 < d <= u64::MAX,
        n / d < u128::MAX,
    ensures
        q == nearest(n as nat, d as nat),
{
    let whole: u128 = n / d;
    let part: u128 = n % d;
    if 2 * part >= d {
        whole + 1
    } else {
        whole
    }
}

} // verus!
