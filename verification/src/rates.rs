//! Rate conversion: cumulative byte counters to bytes-per-second.

use vstd::prelude::*;

verus! {

/// Mathematical value of a rate computed from two cumulative counter
/// readings `prev` (earlier) and `cur` (later), `elapsed_ms` milliseconds
/// apart. A counter that decreased (reset, wraparound, device replaced)
/// yields a delta of zero, never a negative value; the elapsed time is
/// floored to one millisecond so the division never blows up.
pub open spec fn rate_spec(prev: u64, cur: u64, elapsed_ms: u64) -> int {
    let delta: int = if cur >= prev {
        cur - prev
    } else {
        0
    };
    let dt: int = if elapsed_ms >= 1 {
        elapsed_ms as int
    } else {
        1
    };
    (delta * 1000) / dt
}

/// The rate as actually emitted: `rate_spec` saturated at `u64::MAX`.
pub open spec fn rate_sat(prev: u64, cur: u64, elapsed_ms: u64) -> int {
    if rate_spec(prev, cur, elapsed_ms) <= u64::MAX {
        rate_spec(prev, cur, elapsed_ms)
    } else {
        u64::MAX as int
    }
}

/// Convert a pair of cumulative counter readings into a bytes-per-second
/// rate, saturating at `u64::MAX` when the mathematical rate does not fit.
pub fn rate_bps(prev: u64, cur: u64, elapsed_ms: u64) -> (r: u64)
    ensures
        r == rate_sat(prev, cur, elapsed_ms),
        rate_spec(prev, cur, elapsed_ms) <= u64::MAX ==> r == rate_spec(prev, cur, elapsed_ms),
        cur < prev ==> r == 0,
{
    let delta: u64 = cur.saturating_sub(prev);
    let dt: u64 = if elapsed_ms >= 1 {
        elapsed_ms
    } else {
        1
    };
    let wide: u128 = (delta as u128) * 1000 / (dt as u128);
    proof {
        assert((delta as int) * 1000 == (delta as u128) * 1000) by (nonlinear_arith);
        vstd::arithmetic::div_mod::lemma_div_is_ordered_by_denominator(
            (delta as u128) * 1000 as int,
            1,
            dt as int,
        );
    }
    if wide > u64::MAX as u128 {
        u64::MAX
    } else {
        wide as u64
    }
}

} // verus!
