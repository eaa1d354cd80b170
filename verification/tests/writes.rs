use mkfs_xfs::device::MemDevice;
use mkfs_xfs::error::Error;
use mkfs_xfs::format::apply::apply;
use mkfs_xfs::format::writes::{format_writes, is_ready, Write};
use mkfs_xfs::geometry::{Geometry, Params, Timestamp};

const UUID: [u8; 16] = [1, 2, 3, 4, 5, 6, 7, 8, 9, 10, 11, 12, 13, 14, 15, 16];
const NOW: Timestamp = Timestamp { secs: 1_700_000_000, nsecs: 0 };

#[test]
fn a_format_zeroes_the_edges_first_and_finishes_the_primary_last() {
    let g = Geometry::compute(&Params::new(), 512 << 20, 512, 512).unwrap();
    let (r, ws) = format_writes(&g, 512 << 20, UUID, NOW, 9).unwrap();
    assert_eq!(ws.len(), 4 + 4 + 4);
    assert!(matches!(ws[0], Write::Zero { offset: 0, len: 0x2_0000 }));
    assert!(matches!(ws[1], Write::Zero { offset, len: 0x2_0000 } if offset == (512 << 20) - 0x2_0000));
    assert!(matches!(ws[9], Write::Flush));
    match &ws[10] {
        Write::Data { offset: 0, bytes } => {
            assert_eq!(&bytes[..4], b"XFSB");
            assert_eq!(bytes[126], 0, "the finished primary is not in progress");
        }
        other => panic!("unexpected {other:?}"),
    }
    assert!(matches!(ws[11], Write::Flush));
    match &ws[4] {
        Write::Data { offset: 0, bytes } => assert_eq!(bytes[126], 1, "first written in progress"),
        other => panic!("unexpected {other:?}"),
    }
    assert_eq!(r.uuid, UUID);
    assert_eq!(r.geometry.agcount, 4);
}

#[test]
fn readiness_is_checked() {
    assert!(is_ready(&Params::new(), 512 << 20, 512, 512, NOW));
    assert!(is_ready(&Params::new(), 64 << 20, 512, 512, NOW));
    assert!(!is_ready(&Params::new(), 512 << 20, 512, 512, Timestamp { secs: i64::MAX, nsecs: 0 }));
}

#[test]
fn a_refused_geometry_is_an_error() {
    let r = mkfs_xfs::format::writes::format(&Params::new(), 64 << 20, 512, 512, NOW);
    assert!(matches!(r, Err(Error::Unsupported(_))));
}

#[test]
fn a_random_uuid_is_version_four() {
    let (r, _) = mkfs_xfs::format::writes::format(&Params::new(), 512 << 20, 512, 512, NOW).unwrap();
    assert_eq!(r.uuid[6] >> 4, 4);
    assert_eq!(r.uuid[8] >> 6, 2);
    let (r2, _) = mkfs_xfs::format::writes::format(&Params::new(), 512 << 20, 512, 512, NOW).unwrap();
    assert_ne!(r.uuid, r2.uuid);
}

#[test]
fn writes_lay_down_in_order() {
    let g = Geometry::compute(&Params::new(), 512 << 20, 512, 512).unwrap();
    let (_, ws) = format_writes(&g, 512 << 20, UUID, NOW, 9).unwrap();
    let mut dev = MemDevice::new(512 << 20);
    apply(&mut dev, &ws).unwrap();
    let mut sb = vec![0u8; 512];
    dev.read_at(0, &mut sb).unwrap();
    assert_eq!(&sb[..4], b"XFSB");
    assert_eq!(sb[126], 0);
    let mut small = MemDevice::new(1 << 20);
    assert!(matches!(apply(&mut small, &ws), Err(Error::OutOfBounds { .. })));
}

#[test]
fn every_data_block_is_accounted_for() {
    for size in [512u64 << 20, 1 << 30, 3 << 30] {
        let g = Geometry::compute(&Params::new(), size, 512, 512).unwrap();
        let (r, _) = format_writes(&g, size, UUID, NOW, 9).unwrap();
        assert_eq!(r.fdblocks, g.initial_fdblocks() - g.chunk_blocks());
    }
}

#[test]
fn apply_stops_at_the_first_refused_write() {
    let mut dev = MemDevice::new(1 << 20);
    let ws = vec![
        Write::Data { offset: 0, bytes: vec![7u8; 512] },
        Write::Data { offset: (1 << 20) - 100, bytes: vec![9u8; 512] },
        Write::Data { offset: 512, bytes: vec![8u8; 512] },
    ];
    let r = apply(&mut dev, &ws);
    assert!(matches!(r, Err(Error::OutOfBounds { offset, len: 512, size }) if offset == (1 << 20) - 100 && size == 1 << 20));
    let mut b = vec![0u8; 1024];
    dev.read_at(0, &mut b).unwrap();
    assert!(b[..512].iter().all(|&x| x == 7));
    assert!(b[512..].iter().all(|&x| x == 0));
}
