//! Field offsets in `struct xfs_agf`.
use vstd::prelude::*;

verus! {

pub const MAGICNUM: usize = 0;
pub const VERSIONNUM: usize = 4;
pub const SEQNO: usize = 8;
pub const LENGTH: usize = 12;
pub const BNO_ROOT: usize = 16;
pub const CNT_ROOT: usize = 20;
pub const RMAP_ROOT: usize = 24;
pub const BNO_LEVEL: usize = 28;
pub const CNT_LEVEL: usize = 32;
pub const RMAP_LEVEL: usize = 36;
pub const FLFIRST: usize = 40;
pub const FLLAST: usize = 44;
pub const FLCOUNT: usize = 48;
pub const FREEBLKS: usize = 52;
pub const LONGEST: usize = 56;
pub const BTREEBLKS: usize = 60;
pub const UUID: usize = 64;
pub const RMAP_BLOCKS: usize = 80;
pub const REFCOUNT_BLOCKS: usize = 84;
pub const REFCOUNT_ROOT: usize = 88;
pub const REFCOUNT_LEVEL: usize = 92;
pub const LSN: usize = 208;
pub const CRC: usize = 216;
pub const END: usize = 224;

} // verus!
