//! Saturating arithmetic on clock values.
//!
//! Deadlines such as `delayed_until` and `locked_until` are sums of a clock
//! reading and a configured duration; the sums saturate instead of wrapping so
//! that an extreme configuration can never corrupt a deadline.

use vstd::prelude::*;

verus! {

/// The sum of `a` and `b`, capped at `u64::MAX`.
pub open spec fn sat_add(a: u64, b: u64) -> u64 {
    if a + b <= u64::MAX {
        (a + b) as u64
    } else {
        u64::MAX
    }
}

/// The product of `a` and `b`, capped at `u64::MAX`.
pub open spec fn sat_mul(a: u64, b: u64) -> u64 {
    if a * b <= u64::MAX {
        (a * b) as u64
    } else {
        u64::MAX
    }
}

/// Saturating addition on clock values.
pub fn saturating_add(a: u64, b: u64) -> (r: u64)
    ensures
        r == sat_add(a, b),
{
    if a <= u64::MAX - b {
        a + b
    } else {
        u64::MAX
    }
}

/// Saturating multiplication on durations.
pub fn saturating_mul(a: u64, b: u64) -> (r: u64)
    ensures
        r == sat_mul(a, b),
{
    if b == 0 {
        0
    } else if a <= u64::MAX / b {
        proof {
            lemma_mul_within_bound(a as int, b as int);
        }
        a * b
    } else {
        proof {
            lemma_mul_above_bound(a as int, b as int);
        }
        u64::MAX
    }
}

proof fn lemma_mul_within_bound(a: int, b: int)
    by (nonlinear_arith)
    requires
        0 < b,
        0 <= a <= (u64::MAX as int) / b,
    ensures
        a * b <= u64::MAX,
{
}

proof fn lemma_mul_above_bound(a: int, b: int)
    by (nonlinear_arith)
    requires
        0 < b <= u64::MAX,
        (u64::MAX as int) / b < a,
    ensures
        a * b > u64::MAX,
{
}

} // verus!
