//! Field offsets in `struct xfs_agfl`; the free list follows the header.
use vstd::prelude::*;

verus! {

pub const MAGICNUM: usize = 0;
pub const SEQNO: usize = 4;
pub const UUID: usize = 8;
pub const LSN: usize = 24;
pub const CRC: usize = 32;
pub const BNO: usize = 36;

} // verus!
