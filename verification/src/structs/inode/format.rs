//! `XFS_DINODE_FMT_*`.
use vstd::prelude::*;

verus! {

pub const DEV: u8 = 0;
pub const LOCAL: u8 = 1;
pub const EXTENTS: u8 = 2;
pub const BTREE: u8 = 3;

} // verus!
