use sysinfo_daemon::format::{format_gpu_mem, format_mem_gb, format_milli_rate, format_throughput};
use sysinfo_daemon::sample::{GpuReading, MemInfo};
use sysinfo_daemon::status::{format_gpu, status_line};

#[test]
fn throughput_bytes() {
    assert_eq!(format_throughput(500), "500 B/s");
    assert_eq!(format_throughput(0), "0 B/s");
    assert_eq!(format_throughput(999), "999 B/s");
}

#[test]
fn throughput_kilobytes_round_to_nearest() {
    assert_eq!(format_throughput(1500), "2 KB/s");
    assert_eq!(format_throughput(1000), "1 KB/s");
    assert_eq!(format_throughput(2500), "2 KB/s");
    assert_eq!(format_throughput(999_999), "1000 KB/s");
}

#[test]
fn throughput_megabytes_and_gigabytes() {
    assert_eq!(format_throughput(1_500_000), "1.5 MB/s");
    assert_eq!(format_throughput(2_000_000_000), "2.0 GB/s");
    assert_eq!(format_throughput(1_000_000), "1.0 MB/s");
    assert_eq!(format_throughput(u64::MAX), "18446744073.7 GB/s");
}

#[test]
fn throughput_agrees_with_float_formatting_on_samples() {
    let samples: [u64; 12] = [
        0, 7, 999, 1000, 1499, 1500, 2500, 123_456, 1_049_999, 1_250_000, 987_654_321, 12_345_678_901,
    ];
    for &b in samples.iter() {
        let x = b as f64;
        let expected = if x >= 1_000_000_000.0 {
            format!("{:.1} GB/s", x / 1_000_000_000.0)
        } else if x >= 1_000_000.0 {
            format!("{:.1} MB/s", x / 1_000_000.0)
        } else if x >= 1_000.0 {
            format!("{:.0} KB/s", x / 1_000.0)
        } else {
            format!("{:.0} B/s", x)
        };
        assert_eq!(format_throughput(b), expected);
    }
}

#[test]
fn throughput_exact_ties_go_to_even() {
    assert_eq!(format_throughput(1_050_000), "1.0 MB/s");
    assert_eq!(format_throughput(1_150_000), "1.2 MB/s");
    assert_eq!(format_throughput(3_500), "4 KB/s");
}

#[test]
fn milli_rate_rounds_fractions() {
    assert_eq!(format_milli_rate(450_000), "450 B/s");
    assert_eq!(format_milli_rate(450_600), "451 B/s");
    assert_eq!(format_milli_rate(300), "0 B/s");
    assert_eq!(format_milli_rate(1_500_000_000), "1.5 MB/s");
}

#[test]
fn gpu_memory() {
    assert_eq!(format_gpu_mem(512), "512M");
    assert_eq!(format_gpu_mem(2048), "2.0G");
    assert_eq!(format_gpu_mem(1023), "1023M");
    assert_eq!(format_gpu_mem(1024), "1.0G");
    assert_eq!(format_gpu_mem(24576), "24.0G");
}

#[test]
fn gpu_memory_agrees_with_float_formatting_on_samples() {
    for mb in [1024u32, 1280, 1331, 1536, 8192, 11264, 24564, u32::MAX] {
        assert_eq!(format_gpu_mem(mb), format!("{:.1}G", mb as f64 / 1024.0));
    }
}

#[test]
fn memory_in_gib() {
    assert_eq!(format_mem_gb(16_384_000), "15.6");
    assert_eq!(format_mem_gb(0), "0.0");
    for kib in [1u64, 524_288, 1_048_576, 8_000_000, 33_554_432, 65_000_001] {
        assert_eq!(format_mem_gb(kib), format!("{:.1}", kib as f64 / 1024.0 / 1024.0));
    }
}

#[test]
fn gpu_segment() {
    let g = GpuReading { util_pct: 37, mem_used_mb: 512, mem_total_mb: 8192 };
    assert_eq!(format_gpu(g), "GPU: 37% 512M/8.0G");
}

#[test]
fn status_line_layout() {
    let mem = MemInfo { total_kib: 16_777_216, available_kib: 8_388_608 };
    let line = status_line(1_500_000, 500_000, 7, Some(mem), None);
    assert_eq!(line, "\u{2193} 2 KB/s \u{2191} 500 B/s||CPU:   7% | RAM: 8.0/16.0GB");
    let g = GpuReading { util_pct: 100, mem_used_mb: 2048, mem_total_mb: 4096 };
    let line = status_line(0, 0, 100, None, Some(g));
    assert_eq!(line, "\u{2193} 0 B/s \u{2191} 0 B/s||CPU: 100% | RAM: ?/?GB | GPU: 100% 2.0G/4.0G");
}

#[test]
fn status_line_cpu_is_right_aligned() {
    let line = status_line(0, 0, 42, None, None);
    assert!(line.contains("CPU:  42%"));
}

#[test]
fn status_line_has_one_double_pipe() {
    let g = GpuReading { util_pct: 5, mem_used_mb: 100, mem_total_mb: 1000 };
    let mem = MemInfo { total_kib: 100, available_kib: 200 };
    for gpu in [None, Some(g)] {
        for m in [None, Some(mem)] {
            let line = status_line(9_000_000_000_000, 12, 55, m, gpu);
            assert_eq!(line.matches("||").count(), 1);
            assert_eq!(line.split("||").count(), 2);
        }
    }
}

#[test]
fn memory_used_saturates() {
    let mem = MemInfo { total_kib: 100, available_kib: 200 };
    assert_eq!(mem.used_kib(), 0);
    let line = status_line(0, 0, 0, Some(mem), None);
    assert!(line.ends_with("RAM: 0.0/0.0GB"));
}
