use mkfs_xfs::device::{check_bounds, MemDevice, CHUNK};
use mkfs_xfs::error::Error;

#[test]
fn mem_device_is_sparse() {
    let mut dev = MemDevice::new(1 << 50);
    dev.write_at((1 << 49) + 4096, &[7u8; 4096]).unwrap();
    assert_eq!(dev.resident(), CHUNK);
    let mut buf = vec![0u8; 8192];
    dev.read_at(1 << 49, &mut buf).unwrap();
    assert!(buf[..4096].iter().all(|&b| b == 0));
    assert!(buf[4096..].iter().all(|&b| b == 7));
    dev.write_zeroes(1 << 49, CHUNK).unwrap();
    assert_eq!(dev.resident(), 0);
}

#[test]
fn strict_refuses_partial_sectors() {
    let mut dev = MemDevice::strict(1 << 20, 4096);
    assert!(dev.write_at(512, &[0u8; 4096]).is_err());
    assert!(dev.write_at(4096, &[0u8; 512]).is_err());
    assert!(dev.write_at(4096, &[1u8; 4096]).is_ok());
}

#[test]
fn reads_back_what_was_written() {
    let mut dev = MemDevice::new(1 << 20);
    let data: Vec<u8> = (0..300u32).map(|i| (i % 251) as u8 + 1).collect();
    dev.write_at(CHUNK - 100, &data).unwrap();
    let mut back = vec![0u8; 300];
    dev.read_at(CHUNK - 100, &mut back).unwrap();
    assert_eq!(back, data);
    assert_eq!(dev.resident(), 2 * CHUNK);
}

#[test]
fn writes_leave_other_bytes_alone() {
    let mut dev = MemDevice::new(1 << 20);
    dev.write_at(0, &[5u8; 16]).unwrap();
    dev.write_at(8, &[9u8; 4]).unwrap();
    let mut back = vec![0u8; 20];
    dev.read_at(0, &mut back).unwrap();
    assert_eq!(&back[..8], &[5u8; 8]);
    assert_eq!(&back[8..12], &[9u8; 4]);
    assert_eq!(&back[12..16], &[5u8; 4]);
    assert_eq!(&back[16..], &[0u8; 4]);
}

#[test]
fn zeroing_part_of_a_chunk_keeps_it() {
    let mut dev = MemDevice::new(1 << 20);
    dev.write_at(0, &[1u8; 8]).unwrap();
    dev.write_zeroes(0, 4).unwrap();
    assert_eq!(dev.resident(), CHUNK);
    let mut back = vec![0u8; 8];
    dev.read_at(0, &mut back).unwrap();
    assert_eq!(back, vec![0, 0, 0, 0, 1, 1, 1, 1]);
}

#[test]
fn out_of_bounds_is_refused() {
    let mut dev = MemDevice::new(4096);
    match dev.write_at(4000, &[1u8; 200]) {
        Err(Error::OutOfBounds { offset, len, size }) => assert_eq!((offset, len, size), (4000, 200, 4096)),
        other => panic!("expected OutOfBounds, got {other:?}"),
    }
    let mut buf = vec![0u8; 97];
    assert!(matches!(dev.read_at(4000, &mut buf), Err(Error::OutOfBounds { .. })));
    assert!(matches!(dev.write_zeroes(u64::MAX, 2), Err(Error::OutOfBounds { .. })));
}

#[test]
fn bounds_check_catches_overflow() {
    assert!(check_bounds(10, 20, 30).is_ok());
    assert!(check_bounds(11, 20, 30).is_err());
    assert!(check_bounds(u64::MAX, 1, u64::MAX).is_err());
}

#[test]
fn strict_device_reports_its_sector() {
    let dev = MemDevice::strict(1 << 20, 4096);
    assert_eq!(dev.logical_sector_size(), 4096);
    assert_eq!(dev.physical_sector_size(), 4096);
    let dev = MemDevice::with_sector_size(1 << 20, 4096);
    assert_eq!(dev.size(), 1 << 20);
    assert_eq!(dev.physical_sector_size(), 4096);
}

#[test]
fn nonzero_chunks_in_order() {
    let mut dev = MemDevice::new(1 << 24);
    dev.write_at(3 * CHUNK + 5, &[2u8; 1]).unwrap();
    dev.write_at(CHUNK, &[1u8; 1]).unwrap();
    dev.write_at(2 * CHUNK, &[0u8; 10]).unwrap();
    let chunks = dev.nonzero_chunks();
    let offsets: Vec<u64> = chunks.iter().map(|c| c.0).collect();
    assert_eq!(offsets, vec![CHUNK, 3 * CHUNK]);
    assert_eq!(chunks[1].1[5], 2);
    assert_eq!(chunks[1].1.len() as u64, CHUNK);
}

#[test]
fn a_device_may_report_no_sector_size() {
    let mut dev = MemDevice::with_sector_size(1 << 20, 0);
    assert_eq!(dev.logical_sector_size(), 0);
    dev.write_at(3, &[1, 2, 3]).unwrap();
    let mut b = [0u8; 4];
    dev.read_at(2, &mut b).unwrap();
    assert_eq!(b, [0, 1, 2, 3]);
}
