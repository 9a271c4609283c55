use raft_log::num::format_grouped;
use raft_log::num::format_pad9_u64;
use raft_log::num::format_pad_u64;

#[test]
fn test_format_aligned_num() {
    assert_eq!(format_pad_u64(u64::MAX), "18_446_744_073_709_551_615");
    assert_eq!(
        format_pad_u64(10_100_000_000_001_200_000),
        "10_100_000_000_001_200_000"
    );
    assert_eq!(format_pad_u64(1_200_000), "00_000_000_000_001_200_000");
    assert_eq!(format_pad_u64(120_000), "00_000_000_000_000_120_000");
}

#[test]
fn test_format_pad12_u64() {
    assert_eq!(format_pad9_u64(u64::MAX), "18_446_744_073_709_551_615");
    assert_eq!(
        format_pad9_u64(10_100_000_000_001_200_000),
        "10_100_000_000_001_200_000"
    );
    assert_eq!(format_pad9_u64(1_200_000), "001_200_000");
    assert_eq!(format_pad9_u64(120_000), "000_120_000");
}

#[test]
fn test_format_grouped_small_widths() {
    assert_eq!(format_grouped(0, 0), "0");
    assert_eq!(format_grouped(0, 1), "0");
    assert_eq!(format_grouped(7, 3), "007");
    assert_eq!(format_grouped(1234, 0), "1_234");
    assert_eq!(format_grouped(1234, 5), "01_234");
    assert_eq!(format_grouped(999, 9), "000_000_999");
    assert_eq!(format_pad9_u64(0), "000_000_000");
    assert_eq!(format_pad_u64(0), "00_000_000_000_000_000_000");
}
