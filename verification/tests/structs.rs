use mkfs_xfs::bytes::{be16, be32, be64, put16, put32, put64};
use mkfs_xfs::crc::verify;
use mkfs_xfs::format::head::sort_by_size;
use mkfs_xfs::geometry::{Geometry, Params, Timestamp};
use mkfs_xfs::structs::sb::{encode, SbState};
use mkfs_xfs::structs::btree::{alloc_recs, leaf_block, magic, AllocRec};
use mkfs_xfs::structs::inode::{decode_time, empty_sf_dir, encode_time, is_encodable};
use mkfs_xfs::structs::log::{clear_sunit, first_record};

const UUID: [u8; 16] = [1, 2, 3, 4, 5, 6, 7, 8, 9, 10, 11, 12, 13, 14, 15, 16];

#[test]
fn what_is_put_reads_back() {
    let mut b = vec![0xaau8; 32];
    put16(&mut b, 1, 0xbeef);
    put32(&mut b, 5, 0x1234_5678);
    put64(&mut b, 13, 0x0102_0304_0506_0708);
    assert_eq!(be16(&b, 1), 0xbeef);
    assert_eq!(be32(&b, 5), 0x1234_5678);
    assert_eq!(be64(&b, 13), 0x0102_0304_0506_0708);
    assert_eq!(b[0], 0xaa);
    assert_eq!(b[21], 0xaa);
}

#[test]
fn times_read_back_in_both_encodings() {
    for bigtime in [false, true] {
        let t = Timestamp { secs: 1_700_000_000, nsecs: 123_456_789 };
        assert_eq!(decode_time(encode_time(t, bigtime), bigtime), t);
    }
    let before_1970 = Timestamp { secs: -5, nsecs: 7 };
    assert_eq!(decode_time(encode_time(before_1970, true), true), before_1970);
    assert_eq!(decode_time(encode_time(before_1970, false), false), before_1970);
    assert_eq!(encode_time(Timestamp { secs: 0, nsecs: 0 }, true), 0x8000_0000u64 * 1_000_000_000);
}

#[test]
fn bigtime_has_a_range() {
    assert!(is_encodable(Timestamp { secs: i64::MAX, nsecs: 0 }, false));
    assert!(!is_encodable(Timestamp { secs: i64::MAX, nsecs: 0 }, true));
    assert!(!is_encodable(Timestamp { secs: i64::MIN, nsecs: 0 }, true));
    assert!(is_encodable(Timestamp { secs: 1_700_000_000, nsecs: 0 }, true));
}

#[test]
fn the_log_is_cleared_with_its_stripe_unit() {
    assert_eq!(clear_sunit(1, 512), 0);
    assert_eq!(clear_sunit(0, 4096), 4096);
    assert_eq!(clear_sunit(32768, 512), 32768);
    assert_eq!(first_record(&UUID, 0).len(), 1024);
    assert_eq!(first_record(&UUID, 4096).len(), 4096);
    assert_eq!(first_record(&UUID, 65536).len(), 65536);
    let r = first_record(&UUID, 0);
    assert_eq!(be32(&r, 0), 0xfeed_babe);
    assert_eq!(&r[304..320], &UUID);
}

#[test]
fn by_size_orders_by_count_then_start() {
    let rec = |s, c| AllocRec { start: s, count: c };
    let sorted = sort_by_size(&[rec(5, 3), rec(1, 3), rec(9, 1), rec(2, 7)]);
    assert_eq!(sorted, vec![rec(9, 1), rec(1, 3), rec(5, 3), rec(2, 7)]);
}

#[test]
fn a_leaf_block_checks_out() {
    let recs = alloc_recs(&[AllocRec { start: 13, count: 3 }]);
    let b = leaf_block(magic::BNO, 8, 0, &UUID, &recs, 1, 4096);
    assert_eq!(b.len(), 4096);
    assert_eq!(be32(&b, 0), magic::BNO);
    assert_eq!(be16(&b, 6), 1);
    assert!(verify(&b, 52));
    assert_eq!(be32(&b, 56), 13);
    assert_eq!(be32(&b, 60), 3);
}

#[test]
fn the_root_directory_is_empty() {
    let d = empty_sf_dir(128);
    assert_eq!(d[0], 0);
    assert_eq!(d[1], 0);
    assert_eq!(be32(&d, 2), 128);
}

#[test]
fn the_realtime_extent_is_four_kib() {
    let s = SbState {
        uuid: UUID,
        rootino: 128,
        rbmino: 129,
        rsumino: 130,
        icount: 64,
        ifree: 61,
        fdblocks: 0,
        inprogress: false,
    };
    for (bs, want) in [(1024u32, 4u32), (2048, 2), (4096, 1), (8192, 1)] {
        let g = Geometry::compute(&Params::new().block_size(bs), 1 << 30, 512, 512).unwrap();
        let mut sector = vec![0u8; g.sectsize as usize];
        encode(&g, &s, &mut sector);
        assert_eq!(be32(&sector, 80), want, "block size {bs}");
    }
}
