use mkfs_xfs::error::Error;
use mkfs_xfs::geometry::{Geometry, Params};

const GIB: u64 = 1 << 30;
const TIB: u64 = 1 << 40;

fn geo(size: u64) -> Geometry {
    Geometry::compute(&Params::new(), size, 512, 512).unwrap()
}

/// `mkfs.xfs -N` 6.15.0 on sparse files of these sizes.
#[test]
fn matches_mkfs_xfs_dry_runs() {
    // (size, agcount, agsize, dblocks, logblocks, imaxpct)
    let table: &[(u64, u64, u64, u64, u64, u8)] = &[
        (300 << 20, 4, 19200, 76800, 16384, 25),
        (512 << 20, 4, 32768, 131072, 16384, 25),
        (GIB, 4, 65536, 262144, 16384, 25),
        (4 * GIB, 4, 262144, 1048576, 16384, 25),
        (16 * GIB, 4, 1048576, 4194304, 16384, 25),
        (100 * GIB, 4, 6553600, 26214400, 16384, 25),
        (TIB, 4, 67108864, 268435456, 131072, 5),
        (16 * TIB, 16, 268435455, 4294967280, 521728, 5),
        (1024 * TIB, 1024, 268435455, 274877905920, 521728, 1),
    ];
    for &(size, agcount, agsize, dblocks, logblocks, imaxpct) in table {
        let g = geo(size);
        assert_eq!(
            (g.agcount, g.agsize, g.dblocks, g.logblocks, g.imaxpct),
            (agcount, agsize, dblocks, logblocks, imaxpct),
            "size {size}"
        );
    }
}

#[test]
fn default_layout_positions() {
    let g = geo(512 << 20);
    assert_eq!(g.prealloc_blocks(), 7);
    assert_eq!(g.logagno, 2);
    assert_eq!(g.logstart(), 65543);
    assert_eq!(g.rootino(), 128);
    assert_eq!(g.initial_fdblocks(), 114660);
    assert_eq!(g.agfl_size(), 119);
    assert_eq!((g.inoalignmt(), g.spino_align()), (8, 4));
}

#[test]
fn refuses_what_it_cannot_reproduce() {
    assert!(matches!(
        Geometry::compute(&Params::new(), 64 << 20, 512, 512),
        Err(Error::Unsupported(_))
    ));
    assert!(matches!(
        Geometry::compute(&Params::new().block_size(65536), GIB, 512, 512),
        Err(Error::Unsupported(_))
    ));
}

#[test]
fn sector_size_follows_the_physical_sector() {
    let g = Geometry::compute(&Params::new(), GIB, 512, 4096).unwrap();
    assert_eq!(g.sectsize, 4096);
    // A 1 KiB block on a 512e drive falls back to the logical sector.
    let g = Geometry::compute(&Params::new().block_size(1024), GIB, 512, 4096).unwrap();
    assert_eq!(g.sectsize, 512);
}

#[test]
fn the_allocation_groups_tile_the_data_blocks() {
    for size in [512u64 << 20, GIB + 12345 * 4096, 3 * TIB + 7 * 4096] {
        let g = Geometry::compute(&Params::new(), size, 512, 512).unwrap();
        let total: u64 = (0..g.agcount).map(|a| g.ag_blocks(a)).sum();
        assert_eq!(total, g.dblocks);
        for a in 0..g.agcount - 1 {
            assert_eq!(g.ag_blocks(a), g.agsize);
        }
    }
}

#[test]
fn inode_numbers_keep_their_fields_apart() {
    let g = Geometry::compute(&Params::new(), 4 * GIB, 512, 512).unwrap();
    let mut seen = std::collections::HashSet::new();
    for agno in 0..g.agcount {
        for agbno in [0u64, 1, g.agsize - 1] {
            for slot in [0u64, 1, g.inopblock as u64 - 1] {
                let ino = g.ino(agno, agbno, slot);
                let fsb = (agno << g.agblklog) | agbno;
                assert_eq!(ino, (fsb << g.inopblog) | slot);
                assert!(seen.insert(ino));
            }
        }
    }
}
