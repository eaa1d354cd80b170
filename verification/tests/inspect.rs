use std::time::Instant;

use mkfs_xfs::compare::{compare, diff, structural};
use mkfs_xfs::device::{MemDevice};
use mkfs_xfs::error::Error;
use mkfs_xfs::format::apply::apply;
use mkfs_xfs::format::writes::Report;
use mkfs_xfs::geometry::{Params, Timestamp};
use mkfs_xfs::inspect::whole::{dump, geometry};
use mkfs_xfs::inspect::{Class, Dump, Geo};

const UUID: [u8; 16] = [
    0x12, 0x34, 0x56, 0x78, 0x12, 0x34, 0x56, 0x78, 0x9a, 0xbc, 0x12, 0x34, 0x56, 0x78, 0x9a, 0xbc,
];

fn now() -> Timestamp {
    Timestamp { secs: 1_700_000_000, nsecs: 5 }
}

fn formatted(mut dev: MemDevice, params: &Params) -> (Report, MemDevice) {
    let size = dev.size();
    let (r, ws) = mkfs_xfs::format::writes::format(params, size, dev.logical_sector_size(), dev.physical_sector_size(), now()).unwrap();
    apply(&mut dev, &ws).unwrap();
    (r, dev)
}

#[test]
fn whole_block_io_on_a_strict_4k_device() {
    let (r, dev) = formatted(MemDevice::strict(2 << 30, 4096), &Params::new());
    assert_eq!(r.geometry.sectsize, 4096);
    let d = dump(&dev).expect("read back on a strict 4 KiB device");
    assert_eq!(d.get("ag[0].sb.sectsize"), Some("4096"));
    assert_eq!(d.get("ag[0].sb.logsunit"), Some("4096"));
}

#[test]
fn a_petabyte_formats_quickly_and_sparsely() {
    let t = Instant::now();
    let (r, dev) = formatted(MemDevice::new(1 << 50), &Params::new());
    println!("1 PiB: {} AGs, formatted in {:?}, {} KiB resident", r.geometry.agcount, t.elapsed(), dev.resident() >> 10);
    assert_eq!(r.geometry.agcount, 1024);
    assert!(dev.resident() < 256 << 20, "resident {}", dev.resident());
    let mut sb = vec![0u8; 4096];
    dev.read_at(0, &mut sb).unwrap();
    assert_eq!(&sb[..4], b"XFSB");
}

#[test]
fn dump_reads_back_the_format() {
    let (r, dev) = formatted(MemDevice::new(512 << 20), &Params::new().uuid(UUID));
    let g = geometry(&dev).unwrap();
    assert_eq!(g.blocksize, 4096);
    assert_eq!(g.agcount, 4);
    let d = dump(&dev).unwrap();
    assert_eq!(d.get("ag[0].sb.magicnum"), Some("1481003842"));
    assert_eq!(d.get("ag[0].sb.blocksize"), Some("4096"));
    assert_eq!(d.get("ag[0].sb.agcount"), Some("4"));
    assert_eq!(d.get("ag[0].sb.versionnum"), Some("0xb4a5"));
    assert_eq!(d.get("ag[0].sb.uuid"), Some("12345678-1234-5678-9abc-123456789abc"));
    assert_eq!(d.get("ag[0].sb.crc_ok"), Some("true"));
    assert_eq!(d.get("ag[0].sb.inprogress"), Some("0"));
    assert_eq!(d.get("ag[0].sb.rootino"), Some(r.rootino.to_string().as_str()));
    assert_eq!(d.get("ag[0].sb.fdblocks"), Some(r.fdblocks.to_string().as_str()));
    assert_eq!(d.get("ag[3].agf.seqno"), Some("3"));
    assert_eq!(d.get("ag[0].agf.crc_ok"), Some("true"));
    assert_eq!(d.get("ag[0].agi.unlinked"), Some(""));
    assert_eq!(d.get("ag[0].agfl.bno"), Some("1:7,2:8,3:9,4:10,5:11,6:12"));
    assert_eq!(d.get("ag[0].bnobt.l0[0].block"), Some("1"));
    assert_eq!(d.get("ag[0].bnobt.l0[0].magic"), Some("0x41423342"));
    assert_eq!(d.get("ag[0].bnobt.l0[0].numrecs"), Some("2"));
    assert_eq!(d.get("ag[0].bnobt.l0[0].rec[0]"), Some("0000000d00000003"));
    assert_eq!(d.get("ag[0].bnobt.l0[0].crc_ok"), Some("true"));
    let root = format!("inode[{}]", r.rootino);
    assert_eq!(d.get(&format!("{root}.magic")), Some("0x494e"));
    assert_eq!(d.get(&format!("{root}.mode")), Some("40755"));
    assert_eq!(d.get(&format!("{root}.crtime")), Some("1700000000.000000005"));
    assert_eq!(d.get(&format!("{root}.crc_ok")), Some("true"));
    assert_eq!(d.get("log.header.magicno"), Some("0xfeedbabe"));
    assert_eq!(d.get("log.nonzero_blocks_after_first_record"), Some("0"));
    let f = d.fields.iter().find(|f| f.key == "ag[0].sb.uuid").unwrap();
    assert_eq!(f.class, Class::Identity);
    let f = d.fields.iter().find(|f| f.key == format!("{root}.gen")).unwrap();
    assert_eq!(f.class, Class::Incidental);
    assert!(d.to_text().starts_with("ag[0].sb.magicnum = 1481003842\nag[0].sb.blocksize = 4096\n"));
}

#[test]
fn an_empty_device_is_not_xfs() {
    let dev = MemDevice::new(1 << 20);
    assert!(matches!(dump(&dev), Err(Error::NotXfs(_))));
    assert!(matches!(geometry(&dev), Err(Error::NotXfs(_))));
}

#[test]
fn a_tiny_device_is_not_xfs() {
    for size in [0u64, 3, 100, 219] {
        let dev = MemDevice::new(size);
        assert!(matches!(dump(&dev), Err(Error::NotXfs(_))), "{size} bytes");
        assert!(matches!(geometry(&dev), Err(Error::NotXfs(_))), "{size} bytes");
    }
}

#[test]
fn a_geometry_the_reader_cannot_place_is_corrupt() {
    let (_, mut dev) = formatted(MemDevice::new(512 << 20), &Params::new().uuid(UUID));
    dev.write_at(123, &[20]).unwrap();
    assert!(geometry(&dev).is_ok());
    assert!(matches!(dump(&dev), Err(Error::Corrupt(_))));
}

#[test]
fn bad_geometry_is_corrupt() {
    let (_, mut dev) = formatted(MemDevice::new(512 << 20), &Params::new().uuid(UUID));
    dev.write_at(88, &[0, 0, 0, 0]).unwrap();
    assert!(matches!(geometry(&dev), Err(Error::Corrupt(_))));
    let mut sb = vec![0u8; 512];
    dev.read_at(0, &mut sb).unwrap();
    assert!(matches!(Geo::parse(&sb), Err(Error::Corrupt(_))));
}

#[test]
fn bad_header_magic_is_noted() {
    let (_, mut dev) = formatted(MemDevice::new(512 << 20), &Params::new().uuid(UUID));
    dev.write_at(512, &[0u8; 4]).unwrap();
    let d = dump(&dev).unwrap();
    assert_eq!(d.get("ag[0].headers"), Some("bad magic"));
    assert_eq!(d.get("ag[0].agf.magicnum"), None);
    assert_eq!(d.get("ag[1].agf.magicnum"), Some("1480673094"));
}

#[test]
fn a_pointer_outside_the_ag_is_noted() {
    let (_, mut dev) = formatted(MemDevice::new(512 << 20), &Params::new().uuid(UUID));
    // The AGF's by-block root, at byte 512 + 16, points past the AG.
    dev.write_at(512 + 16, &[0, 0x10, 0, 0]).unwrap();
    let d = dump(&dev).unwrap();
    assert_eq!(d.get("ag[0].bnobt.l0[0].block"), Some("1048576 (outside the AG)"));
}

#[test]
fn dump_of_itself_has_no_differences() {
    let (_, dev) = formatted(MemDevice::new(512 << 20), &Params::new().uuid(UUID));
    let d = dump(&dev).unwrap();
    assert!(diff(&d, &d).is_empty());
}

#[test]
fn compare_notices_a_changed_field() {
    let (_, theirs) = formatted(MemDevice::new(512 << 20), &Params::new().uuid(UUID).gen_seed(1));
    let (_, ours) = formatted(MemDevice::new(512 << 20), &Params::new().uuid(UUID).gen_seed(1).agcount(5));
    let diffs = compare(&ours, &theirs).unwrap();
    assert!(diffs.iter().any(|d| d.key == "ag[0].sb.agcount" && d.class == Class::Substantive));
    assert!(!structural(&diffs).is_empty());
}

#[test]
fn only_the_clock_differs_between_two_formats() {
    let (_, a) = formatted(MemDevice::new(512 << 20), &Params::new().uuid(UUID).gen_seed(7).time(100, 0));
    let (_, b) = formatted(MemDevice::new(512 << 20), &Params::new().uuid(UUID).gen_seed(7).time(200, 0));
    let diffs = compare(&a, &b).unwrap();
    assert!(!diffs.is_empty());
    assert!(diffs.iter().all(|d| d.class == Class::Incidental));
    assert!(structural(&diffs).is_empty());
}

#[test]
fn a_different_uuid_is_identity() {
    let mut other = UUID;
    other[0] = 0xff;
    let (_, a) = formatted(MemDevice::new(512 << 20), &Params::new().uuid(UUID).gen_seed(7).time(100, 0));
    let (_, b) = formatted(MemDevice::new(512 << 20), &Params::new().uuid(other).gen_seed(7).time(100, 0));
    let diffs = compare(&a, &b).unwrap();
    assert!(diffs.iter().any(|d| d.key == "ag[0].sb.uuid" && d.class == Class::Identity));
    assert!(diffs.iter().all(|d| d.class != Class::Substantive));
}

fn fields(kv: &[(&str, &str, Class)]) -> Dump {
    let mut d = Dump::new();
    for (k, v, c) in kv {
        d.push(k.chars().collect(), v.to_string(), *c);
    }
    d
}

#[test]
fn diff_is_in_key_order_and_marks_missing_fields() {
    let ours = fields(&[("b", "1", Class::Incidental), ("a", "1", Class::Substantive), ("c", "x", Class::Incidental)]);
    let theirs = fields(&[("c", "y", Class::Substantive), ("a", "1", Class::Substantive), ("d", "4", Class::Incidental)]);
    let diffs = diff(&ours, &theirs);
    let keys: Vec<&str> = diffs.iter().map(|d| d.key.as_str()).collect();
    assert_eq!(keys, vec!["b", "c", "d"]);
    assert_eq!(diffs[0].ours.as_deref(), Some("1"));
    assert_eq!(diffs[0].theirs, None);
    assert_eq!(diffs[0].class, Class::Substantive);
    assert_eq!(diffs[1].ours.as_deref(), Some("x"));
    assert_eq!(diffs[1].theirs.as_deref(), Some("y"));
    assert_eq!(diffs[1].class, Class::Incidental);
    assert_eq!(diffs[2].ours, None);
    assert_eq!(diffs[2].class, Class::Substantive);
    let s = structural(&diffs);
    assert_eq!(s.len(), 2);
    assert_eq!(s[1].key, "d");
}

#[test]
fn the_last_field_with_a_key_counts() {
    let ours = fields(&[("k", "1", Class::Substantive), ("k", "2", Class::Substantive)]);
    let theirs = fields(&[("k", "2", Class::Substantive)]);
    assert!(diff(&ours, &theirs).is_empty());
    assert_eq!(ours.get("k"), Some("1"));
}

#[test]
fn a_prefix_sorts_first() {
    let ours = fields(&[("ab", "1", Class::Substantive), ("a", "1", Class::Substantive), ("b", "1", Class::Substantive)]);
    let theirs = Dump::new();
    let keys: Vec<String> = diff(&ours, &theirs).into_iter().map(|d| d.key).collect();
    assert_eq!(keys, vec!["a", "ab", "b"]);
}

#[test]
fn a_format_reads_back_as_its_geometry() {
    for (size, params) in [
        (512u64 << 20, Params::new()),
        (3 << 30, Params::new().block_size(1024)),
        (1 << 40, Params::new()),
    ] {
        let (r, dev) = formatted(MemDevice::new(size), &params);
        let g = r.geometry;
        let read = geometry(&dev).unwrap();
        assert_eq!(read.blocksize, g.blocksize as u64);
        assert_eq!(read.blocklog, g.blocklog as u32);
        assert_eq!(read.sectsize, g.sectsize as u64);
        assert_eq!(read.agblocks, g.agsize);
        assert_eq!(read.agcount, g.agcount);
        assert_eq!(read.dblocks, g.dblocks);
        assert_eq!(read.agblklog, g.agblklog as u32);
        assert_eq!(read.inodesize, g.inodesize as u64);
        assert_eq!(read.inopblog, g.inopblog as u32);
        assert_eq!(read.logblocks, g.logblocks);
        assert_eq!(read.logstart, (g.logagno << g.agblklog) | g.log_agbno);
        let d = dump(&dev).unwrap();
        assert_eq!(d.get("ag[0].sb.inprogress"), Some("0"));
    }
}

#[test]
fn every_checksum_of_a_fresh_format_verifies() {
    for params in [Params::new(), Params::new().block_size(1024)] {
        let (_, dev) = formatted(MemDevice::new(1 << 30), &params);
        let d = dump(&dev).unwrap();
        let oks: Vec<_> = d.fields.iter().filter(|f| f.key.ends_with(".crc_ok")).collect();
        assert!(oks.len() > 20);
        for f in oks {
            assert_eq!(f.value, "true", "{}", f.key);
        }
    }
}

#[test]
fn the_geometry_needs_only_220_bytes() {
    let (r, dev) = formatted(MemDevice::new(512 << 20), &Params::new().uuid(UUID));
    let mut sb = vec![0u8; 220];
    dev.read_at(0, &mut sb).unwrap();
    let g = Geo::parse(&sb).unwrap();
    assert_eq!(g.agcount, r.geometry.agcount);
    for (at, v) in [(120usize, 200u8), (120, 64), (124, 100), (124, 40)] {
        let mut bad = sb.clone();
        bad[at] = v;
        assert!(matches!(Geo::parse(&bad), Err(Error::Corrupt(_))), "byte {at} = {v}");
    }
}

#[test]
fn a_dump_of_a_format_shows_its_report() {
    for params in [Params::new(), Params::new().block_size(1024)] {
        let (r, dev) = formatted(MemDevice::new(1 << 30), &params);
        let d = dump(&dev).unwrap();
        assert_eq!(d.get("ag[0].sb.agcount"), Some(r.geometry.agcount.to_string().as_str()));
        assert_eq!(d.get("ag[0].sb.rootino"), Some(r.rootino.to_string().as_str()));
        assert_eq!(d.get("ag[0].sb.fdblocks"), Some(r.fdblocks.to_string().as_str()));
        assert_eq!(d.get("ag[0].sb.inprogress"), Some("0"));
        let rext = if r.geometry.blocksize >= 4096 { 1 } else { 4096 / r.geometry.blocksize };
        assert_eq!(d.get("ag[0].sb.rextsize"), Some(rext.to_string().as_str()));
        assert_eq!(d.get("ag[0].sb.crc_ok"), Some("true"));
    }
}

#[test]
fn a_difference_reads_as_one_line() {
    let d = mkfs_xfs::compare::Difference {
        key: "ag[0].sb.agcount".to_string(),
        ours: Some("4".to_string()),
        theirs: None,
        class: Class::Substantive,
    };
    assert_eq!(d.text(), "Structural ag[0].sb.agcount: ours 4 theirs <absent>");
}
