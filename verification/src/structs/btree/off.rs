//! Field offsets in a short-form v5 btree block header.
use vstd::prelude::*;

verus! {

pub const MAGIC: usize = 0;
pub const LEVEL: usize = 4;
pub const NUMRECS: usize = 6;
pub const LEFTSIB: usize = 8;
pub const RIGHTSIB: usize = 12;
pub const BLKNO: usize = 16;
pub const LSN: usize = 24;
pub const UUID: usize = 32;
pub const OWNER: usize = 48;
pub const CRC: usize = 52;
/// Records start here.
pub const RECS: usize = 56;

} // verus!
