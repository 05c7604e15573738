use dbi_backend::stats::TransferStats;
use dbi_backend::text::{format_size, push_decimal};

#[test]
fn decimal_digits() {
    let mut s = String::from("n=");
    push_decimal(&mut s, 0);
    assert_eq!(s, "n=0");
    let mut t = String::new();
    push_decimal(&mut t, 18446744073709551615);
    assert_eq!(t, "18446744073709551615");
}

#[test]
fn sizes_in_bytes() {
    assert_eq!(format_size(0), "0 B");
    assert_eq!(format_size(512), "512 B");
    assert_eq!(format_size(1023), "1023 B");
}

#[test]
fn sizes_in_kilobytes() {
    assert_eq!(format_size(1024), "1.0 KB");
    assert_eq!(format_size(1536), "1.5 KB");
    // 1.25 KiB lies halfway: ties go to the even digit, as float formatting does.
    assert_eq!(format_size(1280), "1.2 KB");
    assert_eq!(format_size(1792), "1.8 KB");
    assert_eq!(format_size(1048575), "1024.0 KB");
}

#[test]
fn sizes_in_megabytes() {
    assert_eq!(format_size(1048576), "1.0 MB");
    assert_eq!(format_size(1310720), "1.2 MB");
    assert_eq!(format_size(1835008), "1.8 MB");
    assert_eq!(format_size(734003200), "700.0 MB");
}

#[test]
fn sizes_in_gigabytes() {
    assert_eq!(format_size(1073741824), "1.00 GB");
    assert_eq!(format_size(1610612736), "1.50 GB");
    assert_eq!(format_size(4692251771), "4.37 GB");
    assert_eq!(format_size(u64::MAX), "17179869184.00 GB");
}

#[test]
fn sizes_agree_with_float_formatting() {
    let samples: [u64; 12] = [
        1024, 1100, 5000, 99999, 1048577, 3000000, 999999999, 1073741825, 5368709120,
        123456789012, 9007199254740993, 18446744073709550000,
    ];
    for b in samples {
        let expected = if b < 1024 {
            format!("{b} B")
        } else if b < 1024 * 1024 {
            format!("{:.1} KB", b as f64 / 1024.0)
        } else if b < 1024 * 1024 * 1024 {
            format!("{:.1} MB", b as f64 / (1024.0 * 1024.0))
        } else {
            format!("{:.2} GB", b as f64 / (1024.0 * 1024.0 * 1024.0))
        };
        assert_eq!(format_size(b), expected, "bytes = {b}");
    }
}

#[test]
fn empty_summary() {
    let stats = TransferStats::new();
    assert_eq!(stats.files_transferred, 0);
    assert_eq!(stats.total_bytes_sent, 0);
    assert_eq!(stats.summary(), "No files were transferred");
}

#[test]
fn summary_counts_files_and_bytes() {
    let mut stats = TransferStats::new();
    stats.record(2048);
    assert_eq!(stats.summary(), "Transferred 1 file (2.0 KB)");
    stats.record(1048576);
    assert_eq!(stats.files_transferred, 2);
    assert_eq!(stats.total_bytes_sent, 1050624);
    assert_eq!(stats.summary(), "Transferred 2 files (1.0 MB)");
}
