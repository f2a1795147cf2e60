use dw::utils::{extract_filename, filename_from_segment, BandwidthMonitor, Throughput};

#[test]
fn test_extract_filename_from_simple_url() {
    let url = "http://example.com/some/path/to/file.zip";
    assert_eq!(extract_filename(url), Some("file.zip".to_string()));
}

#[test]
fn test_extract_filename_with_query_params() {
    let url = "http://example.com/archive.tar.gz?token=123&user=abc";
    assert_eq!(extract_filename(url), Some("archive.tar.gz".to_string()));
}

#[test]
fn test_extract_filename_from_root() {
    let url = "http://example.com/";
    assert_eq!(extract_filename(url), None);
}

#[test]
fn test_extract_filename_without_extension() {
    let url = "http://example.com/some/directory/resource";
    assert_eq!(extract_filename(url), Some("resource".to_string()));
}

#[test]
fn test_extract_filename_from_invalid_url() {
    let url = "not-a-valid-url";
    assert_eq!(extract_filename(url), None);
}

#[test]
fn filename_from_segment_rejects_empty_and_missing() {
    assert_eq!(filename_from_segment(Some(String::new())), None);
    assert_eq!(filename_from_segment(None), None);
    assert_eq!(
        filename_from_segment(Some("a.bin".to_string())),
        Some("a.bin".to_string())
    );
}

#[test]
fn test_bandwidth_monitor_initial_state() {
    let monitor = BandwidthMonitor::new();
    assert_eq!(monitor.bytes_transferred(), 0);
    let t = monitor.throughput();
    let speed = if t.nanos == 0 {
        0.0
    } else {
        t.bytes as f64 / (t.nanos as f64 / 1e9) / 1024.0 / 1024.0
    };
    assert_eq!(speed, 0.0);
}

#[test]
fn test_bandwidth_monitor_records_bytes() {
    let mut monitor = BandwidthMonitor::new();
    monitor.record_bytes(1024);
    monitor.record_bytes(2048);
    assert_eq!(monitor.bytes_transferred(), 3072);
}

#[test]
fn test_bandwidth_monitor_calculates_speed() {
    let mut monitor = BandwidthMonitor::new();

    monitor.record_bytes_at(0, 1024 * 1024);
    monitor.record_bytes_at(500_000_000, 1024 * 1024);

    let t = monitor.throughput();
    let speed = t.bytes as f64 / (t.nanos as f64 / 1e9) / 1024.0 / 1024.0;
    assert!(
        speed > 1.0 && speed < 5.0,
        "Speed should be in a reasonable range (calculated: {} MB/s)",
        speed
    );
    assert_eq!(
        t,
        Throughput {
            bytes: 2 * 1024 * 1024,
            nanos: 500_000_000
        }
    );
    assert!(t.is_above(1));
    assert!(t.is_below(5));
}

#[test]
fn test_bandwidth_monitor_sample_retention() {
    let mut monitor = BandwidthMonitor::new();
    monitor.record_bytes_at(0, 100);
    monitor.record_bytes_at(11_000_000_000, 100);

    let t = monitor.throughput();
    assert_eq!(t, Throughput { bytes: 100, nanos: 0 });
    assert_eq!(monitor.bytes_transferred(), 200);
}

#[test]
fn monitor_keeps_samples_just_inside_the_window() {
    let mut monitor = BandwidthMonitor::new();
    monitor.record_bytes_at(1, 10);
    monitor.record_bytes_at(10_000_000_000, 30);
    assert_eq!(
        monitor.throughput(),
        Throughput {
            bytes: 40,
            nanos: 9_999_999_999
        }
    );
    monitor.record_bytes_at(10_000_000_001, 5);
    assert_eq!(
        monitor.throughput(),
        Throughput {
            bytes: 35,
            nanos: 1
        }
    );
}

#[test]
fn monitor_counter_saturates() {
    let mut monitor = BandwidthMonitor::new();
    monitor.record_bytes_at(0, u64::MAX);
    monitor.record_bytes_at(1, 7);
    assert_eq!(monitor.bytes_transferred(), u64::MAX);
    assert_eq!(monitor.throughput().bytes, u64::MAX as u128 + 7);
}

#[test]
fn throughput_comparisons_are_exact() {
    let t = Throughput {
        bytes: 50 * 1024 * 1024,
        nanos: 1_000_000_000,
    };
    assert!(!t.is_above(50));
    assert!(!t.is_below(50));
    assert!(t.is_above(49));
    assert!(t.is_below(51));
    let idle = Throughput { bytes: 0, nanos: 0 };
    assert!(!idle.is_above(0));
    assert!(idle.is_below(5));
    let huge = Throughput {
        bytes: u128::MAX,
        nanos: u64::MAX,
    };
    assert!(huge.is_above(u32::MAX));
    assert!(!huge.is_below(5));
}

#[test]
fn monitor_keeps_timestamps_in_order() {
    let mut monitor = BandwidthMonitor::new();
    monitor.record_bytes_at(2_000, 10);
    // A reading earlier than the newest sample is recorded at that sample's time.
    monitor.record_bytes_at(1_000, 20);
    assert_eq!(
        monitor.throughput(),
        Throughput {
            bytes: 30,
            nanos: 0
        }
    );
    monitor.record_bytes_at(3_000, 5);
    assert_eq!(
        monitor.throughput(),
        Throughput {
            bytes: 35,
            nanos: 1_000
        }
    );
}
