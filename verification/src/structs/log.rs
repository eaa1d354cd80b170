//! The internal log as `mkfs.xfs` leaves it: zeroed, with one record at
//! its start holding an unmount record, so the kernel finds a clean log at
//! cycle 1 (`libxfs_log_clear` with `XLOG_INIT_CYCLE`, `libxfs_log_header`).
pub mod off;

use vstd::prelude::*;
use crate::bytes::{be32_bytes, be64_bytes, push32, push64, push_bytes, push_zeros, zeros};

verus! {

/// `XLOG_HEADER_MAGIC_NUM`.
pub const HEADER_MAGIC: u32 = 0xfeed_babe;
/// `XLOG_BIG_RECORD_BSIZE`.
pub const BIG_RECORD_BSIZE: u32 = 0x8000;
/// `XLOG_HEADER_CYCLE_SIZE`.
pub const HEADER_CYCLE_SIZE: u32 = 0x8000;
/// `XLOG_FMT_LINUX_LE`: the log format of a little-endian host, which is
/// what `mkfs.xfs` on x86 and arm64 records.
pub const FMT_LINUX_LE: u32 = 1;
/// `XLOG_UNMOUNT_TYPE`.
pub const UNMOUNT_TYPE: u16 = 0x556e;
/// The unmount record's ticket id (`oh_tid`).
pub const UNMOUNT_TID: u32 = 0xb0c0_d0d0;
/// `XFS_LOG` client id.
pub const CLIENT_LOG: u8 = 0xaa;
/// `XLOG_UNMOUNT_TRANS`.
pub const UNMOUNT_TRANS: u8 = 0x20;
/// Basic block size.
pub const BBSIZE: u32 = 512;
/// The cycle a fresh log starts at (`XLOG_INIT_CYCLE`).
pub const INIT_CYCLE: u32 = 1;

/// The stripe unit, in bytes, that `libxfs_log_clear` is given: the log
/// stripe unit where there is one, else the log sector size where that is
/// over 512 bytes, else zero.
pub open spec fn spec_clear_sunit(logsunit: u32, lsectsize: u32) -> u32 {
    if logsunit > 1 {
        logsunit
    } else if lsectsize > 512 {
        lsectsize
    } else {
        0
    }
}

/// The log stripe unit `libxfs_log_clear` is given: `sb_logsunit` (bytes),
/// where a value of 1 means none and stands for the log sector size — zero
/// for a 512-byte log sector.
pub fn clear_sunit(logsunit: u32, lsectsize: u32) -> (r: u32)
    ensures
        r == spec_clear_sunit(logsunit, lsectsize),
{
    if logsunit > 1 {
        logsunit
    } else if lsectsize > 512 {
        lsectsize
    } else {
        0
    }
}

/// `n / d` rounded up.
pub open spec fn ceil_div(n: int, d: int) -> int {
    (n + d - 1) / d
}

/// Basic blocks in the first record: the stripe unit, at least two.
pub open spec fn record_bbs(sunit: u32) -> int {
    let n = if sunit > 0 { ceil_div(sunit as int, BBSIZE as int) } else { 2 };
    if n < 2 { 2 } else { n }
}

/// Header blocks the first record needs: one per 32 KiB of stripe unit.
pub open spec fn record_hdrs(sunit: u32) -> int {
    if sunit > HEADER_CYCLE_SIZE {
        ceil_div(sunit as int, HEADER_CYCLE_SIZE as int)
    } else {
        1
    }
}

/// The LSN of cycle 1, block 0.
pub open spec fn init_lsn() -> u64 {
    0x1_0000_0000
}

/// The record header block: magic, cycle, version 2, the data length, the
/// LSNs, no CRC, no previous block, one log op whose first word moved into
/// the cycle data, the format, the UUID and the record size.
pub open spec fn header_block(uuid: Seq<u8>, sunit: u32) -> Seq<u8> {
    let len = (if sunit > 2 * BBSIZE { sunit as int } else { 2 * BBSIZE as int }) - record_hdrs(
        sunit,
    ) * BBSIZE;
    be32_bytes(HEADER_MAGIC) + be32_bytes(INIT_CYCLE) + be32_bytes(2) + be32_bytes(len as u32)
        + be64_bytes(init_lsn()) + be64_bytes(init_lsn()) + zeros(4) + be32_bytes(0xffff_ffff)
        + be32_bytes(1) + be32_bytes(UNMOUNT_TID) + zeros(252) + be32_bytes(FMT_LINUX_LE) + uuid
        + be32_bytes(if sunit > BIG_RECORD_BSIZE { sunit } else { BIG_RECORD_BSIZE }) + zeros(188)
}

/// A basic block stamped with the cycle and otherwise zero: an extended
/// header, or a block of the record past the unmount record.
pub open spec fn cycle_block() -> Seq<u8> {
    be32_bytes(INIT_CYCLE) + zeros(508)
}

/// The block holding the unmount record: an op header (its first word,
/// the ticket id, replaced by the cycle) and `struct
/// xfs_unmount_log_format`, whose magic is host-endian.
pub open spec fn unmount_block() -> Seq<u8> {
    be32_bytes(INIT_CYCLE) + be32_bytes(8) + seq![CLIENT_LOG, UNMOUNT_TRANS, 0u8, 0u8]
        + seq![UNMOUNT_TYPE as u8, (UNMOUNT_TYPE >> 8u16) as u8] + zeros(498)
}

/// `n` copies of `b`.
pub open spec fn repeat(b: Seq<u8>, n: nat) -> Seq<u8>
    decreases n,
{
    if n == 0 {
        Seq::empty()
    } else {
        repeat(b, (n - 1) as nat) + b
    }
}

/// The first log record, block by block.
pub open spec fn spec_first_record(uuid: Seq<u8>, sunit: u32) -> Seq<u8> {
    let bbs = record_bbs(sunit);
    let hdrs = record_hdrs(sunit);
    header_block(uuid, sunit) + repeat(cycle_block(), (hdrs - 1) as nat) + unmount_block() + repeat(
        cycle_block(),
        (bbs - hdrs - 1) as nat,
    )
}

fn push_cycle_block(v: &mut Vec<u8>)
    ensures
        final(v)@ == old(v)@ + cycle_block(),
{
    let ghost v0 = v@;
    push32(v, INIT_CYCLE);
    push_zeros(v, 508);
    assert(v@ =~= v0 + cycle_block());
}

proof fn lemma_record_shape(sunit: u32)
    ensures
        1 <= record_hdrs(sunit) < record_bbs(sunit),
        record_bbs(sunit) * BBSIZE <= sunit + 2 * BBSIZE,
        record_hdrs(sunit) * BBSIZE < (if sunit > 2 * BBSIZE { sunit as int } else { 2 * BBSIZE as int }),
{
    let s = sunit as int;
    if sunit > HEADER_CYCLE_SIZE {
        let h = ceil_div(s, 0x8000);
        let b = ceil_div(s, 512);
        assert(h * 0x8000 < s + 0x8000 && h * 0x8000 >= s) by (nonlinear_arith)
            requires
                h == (s + 0x8000 - 1) / 0x8000,
                s > 0,
        ;
        assert(b * 512 < s + 512 && b * 512 >= s) by (nonlinear_arith)
            requires
                b == (s + 512 - 1) / 512,
                s > 0,
        ;
        assert(h * 512 < s) by (nonlinear_arith)
            requires
                h * 0x8000 < s + 0x8000,
                s > 0x8000,
        ;
    } else if sunit > 0 {
        let b = ceil_div(s, 512);
        assert(b * 512 < s + 512) by (nonlinear_arith)
            requires
                b == (s + 512 - 1) / 512,
                s > 0,
        ;
    }
}

/// The first log record: header, unmount record, and any remaining basic
/// blocks of the record stamped with the cycle. `sunit` in bytes, as
/// [`clear_sunit`] gives it.
pub fn first_record(uuid: &[u8; 16], sunit: u32) -> (rec: Vec<u8>)
    requires
        sunit as int + 2 * BBSIZE <= usize::MAX,
    ensures
        rec@ == spec_first_record(uuid@, sunit),
        rec@.len() == record_bbs(sunit) * BBSIZE,
{
    proof {
        lemma_record_shape(sunit);
    }
    let s = sunit as u64;
    let n: u64 = if sunit > 0 { (s + 511) / 512 } else { 2 };
    let bbs: u64 = if n < 2 { 2 } else { n };
    let hdrs: u64 = if sunit > HEADER_CYCLE_SIZE { (s + 0x7fff) / 0x8000 } else { 1 };
    assert(bbs == record_bbs(sunit) && hdrs == record_hdrs(sunit));
    let span: u32 = if sunit > 2 * BBSIZE { sunit } else { 2 * BBSIZE };
    let len: u32 = span - (hdrs as u32) * BBSIZE;
    let size: u32 = if sunit > BIG_RECORD_BSIZE { sunit } else { BIG_RECORD_BSIZE };

    let mut rec: Vec<u8> = Vec::new();
    push32(&mut rec, HEADER_MAGIC);
    push32(&mut rec, INIT_CYCLE);
    push32(&mut rec, 2);
    push32(&mut rec, len);
    push64(&mut rec, 0x1_0000_0000);
    push64(&mut rec, 0x1_0000_0000);
    push_zeros(&mut rec, 4);
    push32(&mut rec, 0xffff_ffff);
    push32(&mut rec, 1);
    push32(&mut rec, UNMOUNT_TID);
    push_zeros(&mut rec, 252);
    push32(&mut rec, FMT_LINUX_LE);
    push_bytes(&mut rec, uuid);
    push32(&mut rec, size);
    push_zeros(&mut rec, 188);
    let ghost head = rec@;
    assert(head =~= header_block(uuid@, sunit));

    // Extended headers, when the record needs more than one.
    let mut i: u64 = 1;
    while i < hdrs
        invariant
            1 <= i <= hdrs,
            rec@ == head + repeat(cycle_block(), (i - 1) as nat),
        decreases hdrs - i,
    {
        push_cycle_block(&mut rec);
        i += 1;
        assert(rec@ =~= head + repeat(cycle_block(), (i - 1) as nat));
    }
    let ghost before = rec@;
    push32(&mut rec, INIT_CYCLE);
    push32(&mut rec, 8);
    rec.push(CLIENT_LOG);
    rec.push(UNMOUNT_TRANS);
    rec.push(0u8);
    rec.push(0u8);
    rec.push(UNMOUNT_TYPE as u8);
    rec.push((UNMOUNT_TYPE >> 8u16) as u8);
    push_zeros(&mut rec, 498);
    assert(rec@ =~= before + unmount_block());
    let ghost mid = rec@;

    let mut bb: u64 = hdrs + 1;
    assert(mid + repeat(cycle_block(), 0) =~= mid);
    while bb < bbs
        invariant
            hdrs + 1 <= bb <= bbs,
            rec@ == mid + repeat(cycle_block(), (bb - hdrs - 1) as nat),
        decreases bbs - bb,
    {
        push_cycle_block(&mut rec);
        bb += 1;
        assert(rec@ =~= mid + repeat(cycle_block(), (bb - hdrs - 1) as nat));
    }
    assert(rec@ =~= spec_first_record(uuid@, sunit));
    proof {
        lemma_repeat_len(cycle_block(), (hdrs - 1) as nat);
        lemma_repeat_len(cycle_block(), (bbs - hdrs - 1) as nat);
    }
    rec
}

proof fn lemma_repeat_len(b: Seq<u8>, n: nat)
    ensures
        repeat(b, n).len() == n * b.len(),
    decreases n,
{
    if n > 0 {
        lemma_repeat_len(b, (n - 1) as nat);
        assert(repeat(b, n).len() == repeat(b, (n - 1) as nat).len() + b.len());
        assert(n * b.len() == (n - 1) * b.len() + b.len()) by (nonlinear_arith);
    } else {
        assert(0 * b.len() == 0);
    }
}

} // verus!
