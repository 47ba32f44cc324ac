use sysinfo_daemon::parse::{parse_cpu_stat, parse_gpu_query, parse_meminfo, parse_net_dev, select_interface};
use sysinfo_daemon::probe::is_wsl_kernel;
use sysinfo_daemon::sample::{CpuTicks, GpuReading, MemInfo};

const NET_DEV: &str = "Inter-|   Receive                                                |  Transmit\n face |bytes    packets errs drop fifo frame compressed multicast|bytes    packets errs drop fifo colls carrier compressed\n    lo: 4843413   11830    0    0    0     0          0         0  4843413   11830    0    0    0     0       0          0\n  eth0: 987654321  612345    0    0    0     0          0         0 12345678   98765    0    0    0     0       0          0\n";

#[test]
fn net_dev_counters_of_named_interface() {
    assert_eq!(parse_net_dev(NET_DEV.as_bytes(), b"eth0"), Some((987654321, 12345678)));
    assert_eq!(parse_net_dev(NET_DEV.as_bytes(), b"lo"), Some((4843413, 4843413)));
}

#[test]
fn net_dev_missing_interface() {
    assert_eq!(parse_net_dev(NET_DEV.as_bytes(), b"wlan0"), None);
    assert_eq!(parse_net_dev(NET_DEV.as_bytes(), b"eth"), None);
    assert_eq!(parse_net_dev(b"", b"eth0"), None);
}

#[test]
fn net_dev_short_line() {
    assert_eq!(parse_net_dev(b"eth0: 1 2 3\n", b"eth0"), None);
    assert_eq!(parse_net_dev(b"eth0: x 2 3 4 5 6 7 8 9 10\n", b"eth0"), None);
}

#[test]
fn cpu_stat_first_line() {
    let stat = b"cpu  10 20 30 400 50 6 7 0 0 0\ncpu0 1 2 3 4 5 6 7 0 0 0\n";
    assert_eq!(parse_cpu_stat(stat), Some(CpuTicks { idle: 450, total: 523 }));
}

#[test]
fn cpu_stat_four_values() {
    assert_eq!(parse_cpu_stat(b"cpu 1 2 3 4"), Some(CpuTicks { idle: 4, total: 10 }));
    assert_eq!(parse_cpu_stat(b"cpu 1 x 2 3 4\r\n"), Some(CpuTicks { idle: 4, total: 10 }));
}

#[test]
fn cpu_stat_too_short_or_empty() {
    assert_eq!(parse_cpu_stat(b"cpu 1 2 3\n"), None);
    assert_eq!(parse_cpu_stat(b""), None);
    assert_eq!(parse_cpu_stat(b"\ncpu 1 2 3 4\n"), None);
}

#[test]
fn cpu_stat_sum_overflow() {
    let stat = format!("cpu {} 1 0 0\n", u64::MAX);
    assert_eq!(parse_cpu_stat(stat.as_bytes()), None);
    let stat = format!("cpu {} 0 0 0\n", u64::MAX);
    assert_eq!(parse_cpu_stat(stat.as_bytes()), Some(CpuTicks { idle: 0, total: u64::MAX }));
}

#[test]
fn meminfo_totals() {
    let text = b"MemTotal:       16384000 kB\nMemFree:         1000000 kB\nMemAvailable:    8192000 kB\nBuffers:          100 kB\n";
    assert_eq!(parse_meminfo(text), MemInfo { total_kib: 16384000, available_kib: 8192000 });
}

#[test]
fn meminfo_missing_keys_are_zero() {
    assert_eq!(parse_meminfo(b"MemFree: 5 kB\n"), MemInfo { total_kib: 0, available_kib: 0 });
    assert_eq!(parse_meminfo(b"MemTotal: lots\nMemAvailable:\n"), MemInfo { total_kib: 0, available_kib: 0 });
    assert_eq!(parse_meminfo(b" MemTotal: 5 kB\n"), MemInfo { total_kib: 0, available_kib: 0 });
}

#[test]
fn gpu_query_triple() {
    let g = GpuReading { util_pct: 37, mem_used_mb: 1234, mem_total_mb: 8192 };
    assert_eq!(parse_gpu_query(b"37, 1234, 8192\n"), Some(g));
    assert_eq!(parse_gpu_query(b"  37,1234 ,8192  "), Some(g));
}

#[test]
fn gpu_query_rejects_bad_output() {
    assert_eq!(parse_gpu_query(b""), None);
    assert_eq!(parse_gpu_query(b"37, 1234"), None);
    assert_eq!(parse_gpu_query(b"37, 1234, 8192, 5"), None);
    assert_eq!(parse_gpu_query(b"37, 1234, 8192,"), None);
    assert_eq!(parse_gpu_query(b"37, [N/A], 8192"), None);
    assert_eq!(parse_gpu_query(b"37, 1234, 4294967296"), None);
    assert_eq!(parse_gpu_query(b"37, 1234, 8192\n5, 6, 7\n"), None);
}

#[test]
fn interface_from_default_route() {
    let route = b"Iface\tDestination\tGateway\tFlags\nbr-1\t0000A8C0\t00000000\t0001\neth1\t00000000\t0101A8C0\t0003\n";
    assert_eq!(select_interface(Some(route), Some(NET_DEV.as_bytes())), Some(b"eth1".to_vec()));
}

#[test]
fn interface_from_device_table() {
    let route = b"Iface\tDestination\tGateway\n";
    assert_eq!(select_interface(Some(route), Some(NET_DEV.as_bytes())), Some(b"eth0".to_vec()));
    assert_eq!(select_interface(None, Some(NET_DEV.as_bytes())), Some(b"eth0".to_vec()));
    let dev = b"h1\nh2\n    lo: 1\ndocker0: 2\nbr-abc: 3\n  wlan0: 4\n";
    assert_eq!(select_interface(None, Some(dev)), Some(b"wlan0".to_vec()));
}

#[test]
fn interface_not_found() {
    assert_eq!(select_interface(None, None), None);
    assert_eq!(select_interface(Some(b"header only"), Some(b"h1\nh2\n lo: 1\n")), None);
}

#[test]
fn wsl_kernel_detection() {
    assert!(is_wsl_kernel(b"Linux version 5.15.90.1-microsoft-standard-WSL2 (oe-user@oe-host)"));
    assert!(is_wsl_kernel(b"Linux version 4.4.0-19041-Microsoft"));
    assert!(is_wsl_kernel(b"built for wSl"));
    assert!(!is_wsl_kernel(b"Linux version 6.8.0-45-generic (buildd@lcy02-amd64)"));
    assert!(!is_wsl_kernel(b""));
    assert!(!is_wsl_kernel(b"micro soft ws l"));
}
