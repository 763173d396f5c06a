//! Counters that wrap around at `u64::MAX`, as unchecked `+= 1` does in a release build.
use vstd::prelude::*;

verus! {

/// `a + k` reduced modulo 2^64.
pub open spec fn wrap_add(a: int, k: int) -> int {
    (a + k) % 0x1_0000_0000_0000_0000
}

pub proof fn lemma_wrap_step(a: int, k: int)
    requires
        a >= 0,
        k >= 0,
    ensures
        0 <= wrap_add(a, k) < 0x1_0000_0000_0000_0000,
        wrap_add(a, k) + 1 == 0x1_0000_0000_0000_0000 ==> wrap_add(a, k + 1) == 0,
        wrap_add(a, k) + 1 < 0x1_0000_0000_0000_0000 ==> wrap_add(a, k + 1) == wrap_add(a, k) + 1,
{
    let m: int = 0x1_0000_0000_0000_0000;
    assert(0 <= (a + k) % m < m) by (nonlinear_arith) requires m > 0, a + k >= 0;
    assert((a + k) == m * ((a + k) / m) + (a + k) % m) by (nonlinear_arith) requires m > 0;
    let q = (a + k) / m;
    let r = (a + k) % m;
    if r + 1 == m {
        assert((a + k + 1) % m == 0) by (nonlinear_arith) requires a + k + 1 == m * (q + 1), m > 0;
    } else {
        assert((a + k + 1) % m == r + 1) by (nonlinear_arith) requires a + k + 1 == m * q + (r + 1), 0 <= r + 1 < m, m > 0;
    }
}

pub proof fn lemma_wrap_zero(a: int)
    requires
        0 <= a < 0x1_0000_0000_0000_0000,
    ensures
        wrap_add(a, 0) == a,
{
}

/// `x + 1`, wrapping to 0 after `u64::MAX`.
pub fn wrapping_succ(x: u64) -> (r: u64)
    ensures
        r == wrap_add(x as int, 1),
{
    proof { lemma_wrap_step(x as int, 0); lemma_wrap_zero(x as int); }
    if x == u64::MAX {
        0
    } else {
        x + 1
    }
}


pub proof fn lemma_wrap_succ(a: int, k: int)
    requires
        a >= 0,
        k >= 0,
    ensures
        wrap_add(wrap_add(a, k), 1) == wrap_add(a, k + 1),
{
    lemma_wrap_step(a, k);
    let x = wrap_add(a, k);
    lemma_wrap_step(x, 0);
    lemma_wrap_zero(x);
}

} // verus!
