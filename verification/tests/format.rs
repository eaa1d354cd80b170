use mkfs_xfs::format::{plan_ag, rmap_insert};
use mkfs_xfs::geometry::{Geometry, Params};
use mkfs_xfs::structs::btree::{owner, AllocRec, RmapRec};

fn geo512m() -> Geometry {
    Geometry::compute(&Params::new(), 512 << 20, 512, 512).unwrap()
}

/// The layout of mkfs.xfs 6.15.0's 512 MiB default, from xfs_db.
#[test]
fn plans_match_mkfs_xfs() {
    let g = geo512m();
    let ag0 = plan_ag(&g, 0).unwrap();
    let rec = |s, c| AllocRec { start: s, count: c };
    assert_eq!(ag0.free, vec![rec(13, 3), rec(24, 32744)]);
    assert_eq!(ag0.agfl, vec![7, 8, 9, 10, 11, 12]);
    assert_eq!(ag0.chunk, Some(16));
    let owners: Vec<(u32, u32, i64)> =
        ag0.rmap.iter().map(|r| (r.start, r.count, r.owner as i64)).collect();
    assert_eq!(
        owners,
        vec![(0, 1, -3), (1, 2, -5), (3, 2, -6), (5, 1, -5), (6, 1, -8), (7, 6, -5), (16, 8, -7)]
    );
    let ag2 = plan_ag(&g, 2).unwrap();
    assert_eq!(ag2.free, vec![rec(16397, 16371)]);
    assert_eq!(ag2.agfl, (16391..16397).collect::<Vec<_>>());
    let owners: Vec<(u32, u32, i64)> =
        ag2.rmap.iter().map(|r| (r.start, r.count, r.owner as i64)).collect();
    assert_eq!(owners[5..], [(7, 16384, -4), (16391, 6, -5)]);
}

#[test]
fn rmap_merges_contiguous_same_owner() {
    let mut v = vec![RmapRec { start: 4, count: 1, owner: owner::AG }];
    rmap_insert(&mut v, RmapRec { start: 5, count: 6, owner: owner::AG });
    assert_eq!(v, vec![RmapRec { start: 4, count: 7, owner: owner::AG }]);
}
