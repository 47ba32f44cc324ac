use sysinfo_daemon::rate::{counter_delta, cpu_percent, ema_update, net_rate};
use sysinfo_daemon::sample::CpuTicks;

#[test]
fn delta_of_growing_counter() {
    assert_eq!(counter_delta(100, 250), 150);
    assert_eq!(counter_delta(7, 7), 0);
    assert_eq!(counter_delta(0, u64::MAX), u64::MAX);
}

#[test]
fn delta_after_reset_is_zero() {
    assert_eq!(counter_delta(250, 100), 0);
    assert_eq!(counter_delta(u64::MAX, 0), 0);
}

#[test]
fn net_rate_doubles_half_second_growth() {
    assert_eq!(net_rate(1000, 1750), 1500);
    assert_eq!(net_rate(1750, 10), 0);
    assert_eq!(net_rate(0, u64::MAX), 2 * u64::MAX as u128);
}

#[test]
fn cpu_percent_of_busy_share() {
    let a = CpuTicks { idle: 100, total: 1000 };
    let b = CpuTicks { idle: 150, total: 1200 };
    assert_eq!(cpu_percent(a, b), 75);
    assert_eq!(cpu_percent(a, a), 0);
}

#[test]
fn cpu_percent_stays_in_range() {
    let a = CpuTicks { idle: 500, total: 1000 };
    let all_idle = CpuTicks { idle: 700, total: 1200 };
    assert_eq!(cpu_percent(a, all_idle), 0);
    let reset = CpuTicks { idle: 0, total: 1300 };
    assert_eq!(cpu_percent(a, reset), 100);
    let idle_ahead = CpuTicks { idle: 900, total: 1100 };
    assert_eq!(cpu_percent(a, idle_ahead), 0);
    let huge = CpuTicks { idle: 0, total: u64::MAX };
    assert_eq!(cpu_percent(CpuTicks { idle: 0, total: 0 }, huge), 100);
}

#[test]
fn ema_first_step_is_thirty_percent() {
    // thousandths of a byte per second
    assert_eq!(ema_update(0, 1000), 300_000);
    assert_eq!(ema_update(0, 0), 0);
}

#[test]
fn ema_second_step_approaches_without_overshoot() {
    let one = ema_update(0, 1000);
    let two = ema_update(one, 1000);
    assert_eq!(two, 510_000);
    assert!(one <= two && two <= 1_000_000);
    let mut e = two;
    for _ in 0..200 {
        let next = ema_update(e, 1000);
        assert!(e <= next && next <= 1_000_000);
        e = next;
    }
}

#[test]
fn ema_decays_toward_lower_rate() {
    let e = ema_update(1_000_000, 0);
    assert_eq!(e, 700_000);
    assert_eq!(ema_update(e, 0), 490_000);
}
