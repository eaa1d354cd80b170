use mkfs_xfs::crc::{crc32c, stamp, verify};

#[test]
fn check_value() {
    // The standard CRC-32C check value.
    assert_eq!(crc32c(b"123456789"), 0xe306_9283);
}

#[test]
fn stamp_then_verify() {
    let mut buf = vec![7u8; 64];
    stamp(&mut buf, 8);
    assert!(verify(&buf, 8));
    buf[20] ^= 1;
    assert!(!verify(&buf, 8));
}
