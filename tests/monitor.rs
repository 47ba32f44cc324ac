use sysinfo_daemon::monitor::{Monitor, Readings};
use sysinfo_daemon::sample::{CpuTicks, GpuReading, MemInfo};

fn readings(cpu: Option<CpuTicks>, net: Option<(u64, u64)>, gpu: Option<GpuReading>) -> Readings {
    Readings { cpu, mem: None, net, gpu }
}

#[test]
fn first_network_sample_only_seeds_counters() {
    let mut m = Monitor::new(true, false, false);
    assert!(m.net_due());
    let out = m.step(readings(None, Some((1_000_000_000, 500_000_000)), None));
    assert_eq!(out.line, "\u{2193} 0 B/s \u{2191} 0 B/s||CPU:   0% | RAM: ?/?GB");
    assert!(!out.write_secondary);
    m.step(readings(None, None, None));
    let out = m.step(readings(None, Some((1_000_001_000, 500_000_500)), None));
    // raw rates 2000 and 1000 B/s, of which thirty percent
    assert_eq!(out.line, "\u{2193} 600 B/s \u{2191} 300 B/s||CPU:   0% | RAM: ?/?GB");
}

#[test]
fn failed_first_network_read_leaves_counters_unseeded() {
    let mut m = Monitor::new(true, false, false);
    m.step(readings(None, None, None));
    m.step(readings(None, None, None));
    let out = m.step(readings(None, Some((5_000_000, 5_000_000)), None));
    assert!(out.line.starts_with("\u{2193} 0 B/s \u{2191} 0 B/s||"));
}

#[test]
fn network_is_sampled_every_other_tick() {
    let mut m = Monitor::new(true, false, false);
    let first = m.step(readings(None, Some((0, 0)), None));
    assert!(!m.net_due());
    // not due: the counters handed over are ignored and the text is repeated
    let second = m.step(readings(None, Some((1_000_000, 1_000_000)), None));
    assert_eq!(first.line, second.line);
    assert!(m.net_due());
    let third = m.step(readings(None, Some((1000, 0)), None));
    assert!(third.line.starts_with("\u{2193} 600 B/s \u{2191} 0 B/s||"));
}

#[test]
fn failed_network_read_counts_as_no_traffic() {
    let mut m = Monitor::new(true, false, false);
    m.step(readings(None, Some((0, 0)), None));
    m.step(readings(None, None, None));
    let out = m.step(readings(None, Some((10_000, 10_000)), None));
    assert!(out.line.starts_with("\u{2193} 6 KB/s \u{2191} 6 KB/s||"));
    m.step(readings(None, None, None));
    // due again, but the read failed: rates decay and the counters are kept
    let out = m.step(readings(None, None, None));
    assert!(out.line.starts_with("\u{2193} 4 KB/s \u{2191} 4 KB/s||"));
    m.step(readings(None, None, None));
    let out = m.step(readings(None, Some((10_500, 10_000)), None));
    assert!(out.line.starts_with("\u{2193} 3 KB/s \u{2191} 3 KB/s||"));
}

#[test]
fn cpu_percentage_from_consecutive_samples() {
    let mut m = Monitor::new(false, false, false);
    m.step(readings(Some(CpuTicks { idle: 100, total: 1000 }), None, None));
    let out = m.step(readings(Some(CpuTicks { idle: 150, total: 1200 }), None, None));
    assert!(out.line.contains("||CPU:  75% |"));
    let out = m.step(readings(None, None, None));
    assert!(out.line.contains("||CPU:   0% |"));
    let out = m.step(readings(Some(CpuTicks { idle: 150, total: 1300 }), None, None));
    assert!(out.line.contains("||CPU: 100% |"));
}

#[test]
fn gpu_disabled_never_shows_gpu() {
    let mut m = Monitor::new(true, false, true);
    let g = GpuReading { util_pct: 50, mem_used_mb: 1024, mem_total_mb: 2048 };
    for _ in 0..16 {
        assert!(!m.gpu_due());
        let out = m.step(readings(None, Some((1, 1)), Some(g)));
        assert!(!out.line.contains("GPU"));
        assert_eq!(out.line.matches("||").count(), 1);
    }
}

#[test]
fn gpu_reading_is_repeated_until_next_query() {
    let mut m = Monitor::new(false, true, false);
    let g = GpuReading { util_pct: 50, mem_used_mb: 1024, mem_total_mb: 2048 };
    assert!(m.gpu_due());
    let out = m.step(readings(None, None, Some(g)));
    assert!(out.line.ends_with(" | GPU: 50% 1.0G/2.0G"));
    for _ in 0..3 {
        assert!(!m.gpu_due());
        let out = m.step(readings(None, None, None));
        assert!(out.line.ends_with(" | GPU: 50% 1.0G/2.0G"));
    }
    assert!(m.gpu_due());
    let out = m.step(readings(None, None, None));
    assert!(!out.line.contains("GPU"));
}

#[test]
fn network_disabled_shows_zero_rates() {
    let mut m = Monitor::new(false, true, false);
    for i in 0..12u64 {
        assert!(!m.net_due());
        let r = Readings {
            cpu: None,
            mem: Some(MemInfo { total_kib: 1_048_576, available_kib: 0 }),
            net: Some((i * 1_000_000, i * 2_000_000)),
            gpu: None,
        };
        let out = m.step(r);
        assert!(out.line.starts_with("\u{2193} 0 B/s \u{2191} 0 B/s||"));
    }
}

#[test]
fn secondary_copy_is_written_every_eighth_tick() {
    let mut m = Monitor::new(false, false, true);
    let mut written = Vec::new();
    for _ in 0..17 {
        written.push(m.step(readings(None, None, None)).write_secondary);
    }
    let ticks: Vec<usize> = (0..17).filter(|&i| written[i]).collect();
    assert_eq!(ticks, vec![0, 8, 16]);
    let mut off = Monitor::new(false, false, false);
    assert!(!off.step(readings(None, None, None)).write_secondary);
}
