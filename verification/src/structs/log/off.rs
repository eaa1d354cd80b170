//! Field offsets in `struct xlog_rec_header`.
use vstd::prelude::*;

verus! {

pub const MAGICNO: usize = 0;
pub const CYCLE: usize = 4;
pub const VERSION: usize = 8;
pub const LEN: usize = 12;
pub const LSN: usize = 16;
pub const TAIL_LSN: usize = 24;
pub const CRC: usize = 32;
pub const PREV_BLOCK: usize = 36;
pub const NUM_LOGOPS: usize = 40;
pub const CYCLE_DATA: usize = 44;
pub const FMT: usize = 300;
pub const FS_UUID: usize = 304;
pub const SIZE: usize = 320;

} // verus!
