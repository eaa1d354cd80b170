use mkfs_xfs::text::{bool_text, dec, hex, hex32, hex_trimmed, oct, uuid_str};

#[test]
fn numbers_render_as_rust_formats_them() {
    assert_eq!(dec(0), "0");
    assert_eq!(dec(18446744073709551615), "18446744073709551615");
    assert_eq!(hex(0x494e), "0x494e");
    assert_eq!(hex(0), "0x0");
    assert_eq!(hex32(0x1f), "0x0000001f");
    assert_eq!(hex32(0xdeadbeef), "0xdeadbeef");
    assert_eq!(oct(0o40755), "40755");
    assert_eq!(bool_text(true), "true");
    assert_eq!(bool_text(false), "false");
}

#[test]
fn trailing_zeros_are_trimmed() {
    assert_eq!(hex_trimmed(&[0x0a, 0, 0xff, 0, 0]), "0a00ff");
    assert_eq!(hex_trimmed(&[0, 0, 0]), "");
    assert_eq!(hex_trimmed(&[]), "");
}

#[test]
fn uuids_render_in_groups() {
    let b = [0x12, 0x34, 0x56, 0x78, 0x12, 0x34, 0x56, 0x78, 0x9a, 0xbc, 0x12, 0x34, 0x56, 0x78, 0x9a, 0xbc];
    assert_eq!(uuid_str(&b), "12345678-1234-5678-9abc-123456789abc");
}
