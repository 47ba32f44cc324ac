//! Conversion of cumulative counters into rates, and their smoothing.
//!
//! Smoothed rates are held exactly, in thousandths of a byte per second, so
//! that one step of the moving average from zero gives thirty percent of the
//! raw rate with no rounding; each later step rounds down.
use vstd::prelude::*;
use crate::sample::CpuTicks;

verus! {

/// Samples of the network counters taken per second.
pub const NET_SAMPLES_PER_SEC: u64 = 2;

/// Growth of a cumulative counter; a counter that went backwards was reset
/// and counts as no growth.
pub open spec fn delta(prev: nat, curr: nat) -> nat {
    if curr >= prev {
        (curr - prev) as nat
    } else {
        0
    }
}

/// Computes the growth of a cumulative counter, zero after a reset.
pub fn counter_delta(prev: u64, curr: u64) -> (r: u64)
    ensures
        r as nat == delta(prev as nat, curr as nat),
{
    curr.saturating_sub(prev)
}

/// Busy share of the CPU time between two samples, in whole percent
/// (rounded down); zero when no time passed.
pub open spec fn cpu_pct(prev: CpuTicks, curr: CpuTicks) -> nat {
    let dt = delta(prev.total as nat, curr.total as nat);
    let di = delta(prev.idle as nat, curr.idle as nat);
    if dt == 0 {
        0
    } else {
        100 * delta(di, dt) / dt
    }
}

/// Computes the busy share of the CPU time between two samples.
pub fn cpu_percent(prev: CpuTicks, curr: CpuTicks) -> (r: u64)
    ensures
        r as nat == cpu_pct(prev, curr),
        r <= 100,
{
    let dt = counter_delta(prev.total, curr.total);
    let di = counter_delta(prev.idle, curr.idle);
    if dt == 0 {
        0
    } else {
        let busy = counter_delta(di, dt);
        assert(100 * busy <= 100 * dt) by (nonlinear_arith)
            requires
                busy <= dt,
        ;
        assert((100 * busy as int) / (dt as int) <= 100) by (nonlinear_arith)
            requires
                100 * busy <= 100 * dt,
                dt > 0,
        ;
        ((100 * busy as u128) / dt as u128) as u64
    }
}

/// Raw network rate, in bytes per second, from the growth between two samples.
pub open spec fn raw_rate(prev: nat, curr: nat) -> nat {
    (delta(prev, curr) * NET_SAMPLES_PER_SEC) as nat
}

/// Computes the raw network rate between two samples.
pub fn net_rate(prev: u64, curr: u64) -> (r: u128)
    ensures
        r as nat == raw_rate(prev as nat, curr as nat),
{
    counter_delta(prev, curr) as u128 * NET_SAMPLES_PER_SEC as u128
}

/// Largest value of the moving average, in thousandths of a byte per second:
/// a thousand times the largest raw rate, which is twice `u64::MAX` bytes per
/// second.
pub open spec fn ema_bound() -> nat {
    (1000 * (u64::MAX as nat) * NET_SAMPLES_PER_SEC) as nat
}

/// One step of the moving average, in thousandths of a byte per second:
/// seventy percent of the history plus thirty percent of the raw rate
/// (given in bytes per second), rounded down.
pub open spec fn ema_next(ema: nat, raw: nat) -> nat {
    ((7 * ema + 3000 * raw) / 10) as nat
}

/// Computes one step of the moving average.
pub fn ema_update(ema: u128, raw: u128) -> (r: u128)
    requires
        ema <= ema_bound(),
        1000 * raw <= ema_bound(),
    ensures
        r as nat == ema_next(ema as nat, raw as nat),
        r <= ema_bound(),
{
    let hist = 7 * ema;
    let fresh = 3 * (1000 * raw);
    assert(hist + fresh <= 10 * ema_bound());
    let r = (hist + fresh) / 10;
    assert(r <= ema_bound());
    r
}

/// A reset counter yields no growth, a counter that went forward yields the
/// difference: never negative, never wrapped.
pub proof fn lemma_delta(prev: u64, curr: u64)
    ensures
        curr >= prev ==> delta(prev as nat, curr as nat) == curr - prev,
        curr < prev ==> delta(prev as nat, curr as nat) == 0,
{
}

/// The CPU percentage lies between zero and a hundred.
pub proof fn lemma_cpu_pct_bounded(prev: CpuTicks, curr: CpuTicks)
    ensures
        0 <= cpu_pct(prev, curr) <= 100,
{
    let dt = delta(prev.total as nat, curr.total as nat);
    let busy = delta(delta(prev.idle as nat, curr.idle as nat), dt);
    if dt > 0 {
        assert(100 * busy / dt <= 100) by (nonlinear_arith)
            requires
                busy <= dt,
                dt > 0,
        ;
    }
}

/// From a zero average one step gives thirty percent of the raw rate exactly;
/// a further step with the same raw rate moves toward it without passing it.
pub proof fn lemma_ema_converges(raw: nat)
    ensures
        ema_next(0, raw) == 300 * raw,
        300 * raw <= ema_next(ema_next(0, raw), raw) <= 1000 * raw,
{
    lemma_ema_approaches(300 * raw, raw);
}

/// A step never moves the average past the raw rate: below it, the average
/// rises without overtaking it; above it, it falls without undershooting it.
pub proof fn lemma_ema_approaches(ema: nat, raw: nat)
    ensures
        ema <= 1000 * raw ==> ema <= ema_next(ema, raw) <= 1000 * raw,
        ema >= 1000 * raw ==> 1000 * raw <= ema_next(ema, raw) <= ema,
{
    let n = 7 * ema + 3000 * raw;
    let t = 1000 * raw;
    assert(ema_next(ema, raw) == n / 10);
    if ema <= t {
        assert(10 * ema <= n <= 10 * t);
        assert(ema <= n / 10 <= t) by (nonlinear_arith)
            requires
                10 * ema <= n <= 10 * t,
        ;
    } else {
        assert(10 * t <= n <= 10 * ema);
        assert(t <= n / 10 <= ema) by (nonlinear_arith)
            requires
                10 * t <= n <= 10 * ema,
        ;
    }
}

} // verus!
