//! Special owners in the reverse mapping btree (`XFS_RMAP_OWN_*`): small
//! negative numbers, stored as 64-bit two's complement.
use vstd::prelude::*;

verus! {

/// -3: the superblock and AG headers.
pub const FS: u64 = 0xffff_ffff_ffff_fffd;
/// -4: the internal log.
pub const LOG: u64 = 0xffff_ffff_ffff_fffc;
/// -5: per-AG metadata (free space btrees, the free list).
pub const AG: u64 = 0xffff_ffff_ffff_fffb;
/// -6: inode btree blocks.
pub const INOBT: u64 = 0xffff_ffff_ffff_fffa;
/// -7: inode chunks.
pub const INODES: u64 = 0xffff_ffff_ffff_fff9;
/// -8: refcount btree blocks.
pub const REFC: u64 = 0xffff_ffff_ffff_fff8;

} // verus!
