//! Exponential moving average of per-process CPU usage.
//!
//! The smoothing factor is 3/10 (the fixed-point form of 0.3): one update
//! moves the entry to `(3 * sample + 7 * entry) / 10`. Because the state is
//! an integer in hundredths of a percent, repeated updates with a constant
//! sample converge to within three hundredths of a percent of it, not to it
//! exactly; the convergence lemmas below state that bound.

use vstd::arithmetic::div_mod::lemma_fundamental_div_mod;
use vstd::arithmetic::div_mod::lemma_mod_bound;
use vstd::math::abs;
use vstd::prelude::*;

verus! {

/// One smoothing step: the new entry after folding a sample `x` into the
/// previous entry `e`.
pub open spec fn ema_step(x: int, e: int) -> int {
    (3 * x + 7 * e) / 10
}

/// The entry after `n` smoothing steps that all fold the same sample `x`
/// into an initial entry `e`.
pub open spec fn ema_iter(x: int, e: int, n: nat) -> int
    decreases n,
{
    if n == 0 {
        e
    } else {
        ema_step(x, ema_iter(x, e, (n - 1) as nat))
    }
}

/// One smoothing step never moves the entry past the sample, never
/// increases the distance to the sample, and strictly shrinks a distance
/// greater than three.
pub proof fn lemma_ema_step_contracts(x: int, e: int)
    requires
        x >= 0,
        e >= 0,
    ensures
        ema_step(x, e) >= 0,
        abs(x - ema_step(x, e)) <= abs(x - e),
        abs(x - e) > 3 ==> abs(x - ema_step(x, e)) < abs(x - e),
    decreases 0int,
{
    let a = 3 * x + 7 * e;
    let q = a / 10;
    let r = a % 10;
    lemma_fundamental_div_mod(a, 10);
    lemma_mod_bound(a, 10);
    if e <= x {
        let d = x - e;
        assert(10 * (q - e) == 3 * d - r) by (nonlinear_arith)
            requires
                a == 10 * q + r,
                a == 10 * e + 3 * d,
        ;
        assert(q >= e) by (nonlinear_arith)
            requires
                10 * (q - e) == 3 * d - r,
                d >= 0,
                r < 10,
        ;
        assert(q <= x) by (nonlinear_arith)
            requires
                10 * (q - e) == 3 * d - r,
                r >= 0,
                d >= 0,
                d == x - e,
        ;
        if d > 3 {
            assert(q > e) by (nonlinear_arith)
                requires
                    10 * (q - e) == 3 * d - r,
                    d >= 4,
                    r < 10,
            ;
        }
    } else {
        let g = e - x;
        assert(10 * (q - x) == 7 * g - r) by (nonlinear_arith)
            requires
                a == 10 * q + r,
                a == 10 * x + 10 * g - 3 * g,
        ;
        assert(q >= x) by (nonlinear_arith)
            requires
                10 * (q - x) == 7 * g - r,
                g >= 1,
                r < 10,
        ;
        assert(q - x < g) by (nonlinear_arith)
            requires
                10 * (q - x) == 7 * g - r,
                g >= 1,
                r >= 0,
        ;
    }
}

/// Shifting the seed: iterating `n` steps from `e` is one step from `e`
/// followed by `n - 1` further steps.
pub proof fn lemma_ema_iter_shift(x: int, e: int, n: nat)
    requires
        n >= 1,
    ensures
        ema_iter(x, e, n) == ema_iter(x, ema_step(x, e), (n - 1) as nat),
    decreases n,
{
    if n == 1 {
        assert(ema_iter(x, e, 1) == ema_step(x, ema_iter(x, e, 0)));
        assert(ema_iter(x, ema_step(x, e), 0) == ema_step(x, e));
    } else {
        lemma_ema_iter_shift(x, e, (n - 1) as nat);
        assert(ema_iter(x, ema_step(x, e), (n - 1) as nat) == ema_step(
            x,
            ema_iter(x, ema_step(x, e), (n - 2) as nat),
        ));
    }
}

/// An entry already within three hundredths of a percent of the sample
/// stays there under further smoothing steps.
pub proof fn lemma_ema_stays_close(x: int, e: int, n: nat)
    requires
        x >= 0,
        e >= 0,
        abs(x - e) <= 3,
    ensures
        abs(x - ema_iter(x, e, n)) <= 3,
        ema_iter(x, e, n) >= 0,
    decreases n,
{
    if n > 0 {
        lemma_ema_stays_close(x, e, (n - 1) as nat);
        lemma_ema_step_contracts(x, ema_iter(x, e, (n - 1) as nat));
    }
}

/// Convergence: folding the constant sample `x` into an entry `e` at least
/// `|x - e|` times brings the entry to within three hundredths of a percent
/// of `x`, the resolution floor of the integer smoothing step.
pub proof fn lemma_ema_convergence(x: int, e: int, n: nat)
    requires
        x >= 0,
        e >= 0,
        n >= abs(x - e),
    ensures
        abs(x - ema_iter(x, e, n)) <= 3,
    decreases n,
{
    if abs(x - e) <= 3 {
        lemma_ema_stays_close(x, e, n);
    } else {
        lemma_ema_step_contracts(x, e);
        lemma_ema_iter_shift(x, e, n);
        lemma_ema_convergence(x, ema_step(x, e), (n - 1) as nat);
    }
}

/// One executable smoothing step on fixed-point entries.
pub fn ema_update(x: u64, e: u64) -> (r: u64)
    ensures
        r == ema_step(x as int, e as int),
{
    let wide: u128 = (3 * (x as u128) + 7 * (e as u128)) / 10;
    proof {
        lemma_ema_step_contracts(x as int, e as int);
        assert(wide == ema_step(x as int, e as int)) by (nonlinear_arith)
            requires
                wide == (3 * (x as u128) + 7 * (e as u128)) / 10,
        ;
        assert(wide <= u64::MAX) by {
            assert(ema_step(x as int, e as int) <= x as int || ema_step(x as int, e as int)
                <= e as int);
        }
    }
    wide as u64
}

} // verus!
