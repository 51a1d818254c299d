use pqfs::fs::ops::clamp_read_range;

#[test]
fn read_range_past_eof_is_empty() {
    assert_eq!(clamp_read_range(5, 10, 4096), (5, 5));
    assert_eq!(clamp_read_range(5, 5, 4096), (5, 5));
    assert_eq!(clamp_read_range(0, 0, 4096), (0, 0));
}

#[test]
fn read_range_is_truncated_at_eof() {
    assert_eq!(clamp_read_range(5, 0, 4096), (0, 5));
    assert_eq!(clamp_read_range(5, 2, 2), (2, 4));
    assert_eq!(clamp_read_range(5, 2, 100), (2, 5));
}

#[test]
fn read_range_rejects_negative_offset() {
    assert_eq!(clamp_read_range(5, -1, 4096), (0, 5));
}

#[test]
fn read_range_does_not_overflow() {
    assert_eq!(clamp_read_range(5, i64::MAX, u32::MAX), (5, 5));
}
