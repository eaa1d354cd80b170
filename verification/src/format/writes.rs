//! The writes that lay a filesystem down, in order, so an interrupted
//! format is recognisably unfinished: the device's first and last 128 KiB
//! are zeroed (old signatures), the log is zeroed and given its unmount
//! record, every AG is written with the primary superblock still marked
//! `sb_inprogress`, the root inode chunk goes down, the device is flushed,
//! and only then is the primary superblock rewritten as finished.
use vstd::prelude::*;
use crate::bytes::{push_zeros, zeros};
use crate::error::Error;
use crate::format::accounting::{initial_free_blocks, lemma_plan_accounting, lemma_sum_counts_concat};
use crate::format::chunk::{root_chunk, spec_root_chunk, Gen};
use crate::format::head::{ag_head, head_fits, spec_ag_head};
use crate::format::{initial_free, plan_ag, plannable, spec_plan_ag, sum_counts, AgPlan, AgPlanView};
use crate::bytes::{le32, spec_le32};
use crate::geometry::{refusal_of, spec_compute, Geometry, GeometryView, Params, Refusal, Timestamp};
use crate::structs::inode::encodable;
use crate::structs::log::{clear_sunit, first_record, record_bbs, spec_clear_sunit, spec_first_record};
use crate::structs::sb::SbState;
use crate::structs::btree::AllocRec;
use crate::structs::NULL64;
use vstd::arithmetic::power2::pow2;

verus! {

/// `WHACK_SIZE`: how much `mkfs.xfs` zeroes at each end of the device.
pub const WHACK_SIZE: u64 = 0x2_0000;

/// One step of laying a filesystem down.
#[derive(Debug, Clone)]
pub enum Write {
    /// Zero `len` bytes at byte `offset`.
    Zero { offset: u64, len: u64 },
    /// Write `bytes` at byte `offset`.
    Data { offset: u64, bytes: Vec<u8> },
    /// Make everything written so far durable.
    Flush,
}

/// A [`Write`] with its bytes as a sequence.
pub enum WriteView {
    Zero { offset: u64, len: u64 },
    Data { offset: u64, bytes: Seq<u8> },
    Flush,
}

impl View for Write {
    type V = WriteView;

    open spec fn view(&self) -> WriteView {
        match self {
            Write::Zero { offset, len } => WriteView::Zero { offset: *offset, len: *len },
            Write::Data { offset, bytes } => WriteView::Data { offset: *offset, bytes: bytes@ },
            Write::Flush => WriteView::Flush,
        }
    }
}

/// The writes, each as its view.
pub open spec fn views(ws: Seq<Write>) -> Seq<WriteView> {
    ws.map_values(|w: Write| w@)
}

/// What a format produced.
#[derive(Debug, Clone, Copy)]
pub struct Report {
    /// The geometry written.
    pub geometry: Geometry,
    /// The filesystem UUID.
    pub uuid: [u8; 16],
    /// The root directory's inode.
    pub rootino: u64,
    /// Free data blocks, as the primary superblock records them.
    pub fdblocks: u64,
}

/// Every AG of `g` has blocks past its headers: the last one, which may be
/// short, holds more than its preallocated blocks.
pub open spec fn formattable(g: GeometryView) -> bool {
    (g.agcount - 1) * g.agsize + g.prealloc_blocks() < g.dblocks
}

/// Every AG of `g` can be planned.
pub open spec fn all_planned(g: GeometryView) -> bool {
    forall|agno: int| 0 <= agno < g.agcount ==> #[trigger] spec_plan_ag(g, agno) is Some
}

/// The plan of AG `agno`.
pub open spec fn planned(g: GeometryView, agno: int) -> AgPlanView {
    let p = spec_plan_ag(g, agno)->Some_0;
    AgPlanView { agno: agno as u64, length: g.ag_blocks(agno) as u64, free: p.0, agfl: p.1, rmap: p.2, chunk: p.3 }
}

/// Free blocks AG `agno` ends with: its free extents and its free list.
pub open spec fn ag_free_blocks(g: GeometryView, agno: int) -> int {
    sum_counts(planned(g, agno).free) + planned(g, agno).agfl.len()
}

/// Free blocks in the first `n` AGs.
pub open spec fn free_in(g: GeometryView, n: nat) -> int
    decreases n,
{
    if n == 0 {
        0
    } else {
        free_in(g, (n - 1) as nat) + ag_free_blocks(g, n - 1)
    }
}

/// `sb_fdblocks` of the finished filesystem.
pub open spec fn spec_fdblocks(g: GeometryView) -> int {
    free_in(g, g.agcount as nat)
}

/// The secondary superblocks: no root inode yet, the free blocks before
/// the root chunk, `mkfs` in progress.
pub open spec fn secondary_state(g: GeometryView, uuid: [u8; 16]) -> SbState {
    SbState {
        uuid,
        rootino: NULL64,
        rbmino: NULL64,
        rsumino: NULL64,
        icount: 0,
        ifree: 0,
        fdblocks: g.initial_fdblocks() as u64,
        inprogress: true,
    }
}

/// The primary superblock once the format is finished.
pub open spec fn finished_state(g: GeometryView, uuid: [u8; 16]) -> SbState {
    SbState {
        uuid,
        rootino: g.rootino() as u64,
        rbmino: (g.rootino() + 1) as u64,
        rsumino: (g.rootino() + 2) as u64,
        icount: 64,
        ifree: 61,
        fdblocks: spec_fdblocks(g) as u64,
        inprogress: false,
    }
}

/// The AG between the first and the last that also records the root
/// inode, when there are more than two.
pub open spec fn middle_ag(g: GeometryView) -> Option<u64> {
    if g.agcount > 2 {
        Some(((g.agcount - 1) / 2) as u64)
    } else {
        None
    }
}

/// The superblock AG `agno` is first written with: the primary finished
/// but for `sb_inprogress`; the last and middle secondaries with the root
/// inode (`rewrite_secondary_superblocks`); the rest as secondaries.
pub open spec fn ag_state(g: GeometryView, uuid: [u8; 16], agno: int) -> SbState {
    if agno == 0 {
        SbState { inprogress: true, ..finished_state(g, uuid) }
    } else if agno == g.agcount - 1 || middle_ag(g) == Some(agno as u64) {
        SbState { rootino: g.rootino() as u64, ..secondary_state(g, uuid) }
    } else {
        secondary_state(g, uuid)
    }
}

/// The headers of the first `n` AGs, one write each.
pub open spec fn ag_writes(g: GeometryView, uuid: [u8; 16], n: nat) -> Seq<WriteView>
    decreases n,
{
    if n == 0 {
        Seq::empty()
    } else {
        ag_writes(g, uuid, (n - 1) as nat).push(
            WriteView::Data {
                offset: g.agb_to_byte(n - 1, 0) as u64,
                bytes: spec_ag_head(g, planned(g, n - 1), uuid@, ag_state(g, uuid, n - 1)),
            },
        )
    }
}

/// The stripe unit the log is cleared with.
pub open spec fn log_sunit(g: GeometryView) -> u32 {
    spec_clear_sunit(g.logsunit(), if g.sectsize > 512 { g.lsectsize } else { 0 })
}

/// The log's first block: its first record, zero padded.
pub open spec fn log_first_block(g: GeometryView, uuid: Seq<u8>) -> Seq<u8> {
    let rec = spec_first_record(uuid, log_sunit(g));
    rec + zeros((g.blocksize - rec.len()) as nat)
}

/// The whole blocks of a device of `dev_size` bytes, in bytes.
pub open spec fn blocks_end(g: GeometryView, dev_size: u64) -> int {
    dev_size as int / g.blocksize as int * g.blocksize as int
}

/// Where the zeroing of the device's last 128 KiB starts, on a block.
pub open spec fn tail_start(g: GeometryView, dev_size: u64) -> int {
    let end = blocks_end(g, dev_size);
    (if end > WHACK_SIZE { end - WHACK_SIZE } else { 0 }) / g.blocksize as int * g.blocksize as int
}

/// The device's first and last 128 KiB zeroed, whole blocks only, then
/// the log zeroed and given its first record.
pub open spec fn edge_writes_spec(g: GeometryView, dev_size: u64, uuid: [u8; 16]) -> Seq<WriteView> {
    let bs = g.blocksize as int;
    let end = blocks_end(g, dev_size);
    let tail = tail_start(g, dev_size);
    let log_at = g.agb_to_byte(g.logagno as int, g.log_agbno as int) as u64;
    seq![
        WriteView::Zero { offset: 0, len: (if WHACK_SIZE < end { WHACK_SIZE as int } else { end }) as u64 },
        WriteView::Zero { offset: tail as u64, len: (end - tail) as u64 },
        WriteView::Zero { offset: log_at, len: (g.logblocks * bs) as u64 },
        WriteView::Data { offset: log_at, bytes: log_first_block(g, uuid@) },
    ]
}

/// The root inode chunk, a flush, the primary superblock's header blocks
/// rewritten as finished, and a last flush.
pub open spec fn final_writes_spec(g: GeometryView, uuid: [u8; 16], time: Timestamp, seed: u64) -> Seq<WriteView> {
    let chunk = planned(g, 0).chunk->Some_0;
    seq![
        WriteView::Data { offset: g.agb_to_byte(0, chunk as int) as u64, bytes: spec_root_chunk(g, chunk as int, uuid@, time, seed) },
        WriteView::Flush,
        WriteView::Data {
            offset: 0,
            bytes: spec_ag_head(g, planned(g, 0), uuid@, finished_state(g, uuid)).subrange(
                0,
                g.header_blocks() * g.blocksize,
            ),
        },
        WriteView::Flush,
    ]
}

/// Every write of a format of `g` on a device of `dev_size` bytes, with
/// filesystem UUID `uuid`, timestamps `time` and generation numbers drawn
/// from `seed`.
pub open spec fn spec_writes(g: GeometryView, dev_size: u64, uuid: [u8; 16], time: Timestamp, seed: u64) -> Seq<WriteView> {
    edge_writes_spec(g, dev_size, uuid) + ag_writes(g, uuid, g.agcount as nat) + final_writes_spec(g, uuid, time, seed)
}

proof fn lemma_formattable(g: GeometryView, agno: int)
    requires
        g.wf(),
        formattable(g),
        0 <= agno < g.agcount,
    ensures
        plannable(g, agno),
        0 < g.ag_blocks(agno) <= g.agsize,
        g.prealloc_blocks() < g.ag_blocks(agno),
        agno * g.agsize + g.ag_blocks(agno) <= g.dblocks,
        g.agb_to_byte(agno, g.ag_blocks(agno)) <= u64::MAX,
        g.agb_to_byte(agno, g.prealloc_blocks()) <= u64::MAX,
        g.agb_to_byte(agno, 0) <= u64::MAX,
{
    crate::geometry::lemma_wf_sizes(g);
    let a = agno;
    let n = g.agcount as int;
    let sz = g.agsize as int;
    let d = g.dblocks as int;
    let p = g.prealloc_blocks();
    let bs = g.blocksize as int;
    let x = g.ag_blocks(agno);
    if a < n - 1 {
        assert(a * sz + sz <= (n - 1) * sz) by (nonlinear_arith)
            requires
                a + 1 <= n - 1,
                sz >= 0,
        ;
        assert(x == sz);
    } else {
        assert(x == d - a * sz);
        assert(n * sz == (n - 1) * sz + sz) by (nonlinear_arith);
    }
    assert(a * sz + x <= d);
    assert((a * sz + p) * bs <= (a * sz + x) * bs && (a * sz + x) * bs <= d * bs && (a * sz + 0) * bs <= (a * sz + p) * bs) by (nonlinear_arith)
        requires
            0 <= p < x,
            a * sz + x <= d,
            bs > 0,
            a >= 0,
            sz >= 0,
    ;
}

proof fn lemma_initial_free_bound(g: GeometryView, agno: int)
    requires
        g.wf(),
        plannable(g, agno),
        g.ag_blocks(agno) <= g.agsize,
    ensures
        0 <= initial_free_blocks(g, agno) <= g.ag_blocks(agno) - g.prealloc_blocks(),
        agno != g.logagno ==> initial_free_blocks(g, agno) == g.ag_blocks(agno) - g.prealloc_blocks(),
        agno == g.logagno && g.log_agbno + g.logblocks <= g.ag_blocks(agno) ==> initial_free_blocks(g, agno)
            == g.ag_blocks(agno) - g.prealloc_blocks() - g.logblocks,
{
    crate::geometry::lemma_wf_sizes(g);
    let f = initial_free(g, agno);
    let length = g.ag_blocks(agno);
    let p = g.prealloc_blocks();
    if agno == g.logagno {
        let ls = g.log_agbno as int;
        let le = ls + g.logblocks;
        let a: Seq<AllocRec> = if ls > p {
            seq![AllocRec { start: p as u32, count: (ls - p) as u32 }]
        } else {
            Seq::empty()
        };
        let b: Seq<AllocRec> = if le < length {
            seq![AllocRec { start: le as u32, count: (length - le) as u32 }]
        } else {
            Seq::empty()
        };
        assert(f == a + b);
        lemma_sum_counts_concat(a, b);
        assert(ls == p);
        assert(a =~= Seq::<AllocRec>::empty());
        assert(sum_counts(a) == 0);
        if le < length {
            assert(b.drop_last() =~= Seq::<AllocRec>::empty());
            assert(sum_counts(Seq::<AllocRec>::empty()) == 0);
            assert(sum_counts(b) == length - le);
        } else {
            assert(sum_counts(b) == 0);
        }
    } else {
        assert(f.drop_last() =~= Seq::<AllocRec>::empty());
        assert(sum_counts(Seq::<AllocRec>::empty()) == 0);
        assert(sum_counts(f) == length - p);
    }
}

proof fn lemma_ag_free(g: GeometryView, agno: int)
    requires
        g.wf(),
        formattable(g),
        all_planned(g),
        0 <= agno < g.agcount,
    ensures
        0 <= ag_free_blocks(g, agno) <= g.ag_blocks(agno),
        head_fits(g, planned(g, agno)),
{
    lemma_formattable(g, agno);
    lemma_plan_accounting(g, agno);
    lemma_initial_free_bound(g, agno);
    assert(spec_plan_ag(g, agno) is Some);
    crate::format::lemma_sum_counts_nonneg(planned(g, agno).free);
    if agno == 0 {
        crate::geometry::lemma_wf_sizes(g);
        vstd::arithmetic::div_mod::lemma_div_pos_is_pos(64 * g.inodesize as int, g.blocksize as int);
    }
}

proof fn lemma_free_in(g: GeometryView, n: nat)
    requires
        g.wf(),
        formattable(g),
        all_planned(g),
        n <= g.agcount,
    ensures
        0 <= free_in(g, n),
        n < g.agcount ==> free_in(g, n) <= n * g.agsize,
        n == g.agcount ==> free_in(g, n) <= g.dblocks,
        free_in(g, n) <= g.dblocks,
    decreases n,
{
    if n > 0 {
        lemma_free_in(g, (n - 1) as nat);
        lemma_ag_free(g, n - 1);
        lemma_formattable(g, n - 1);
        assert((n - 1) * g.agsize + g.agsize == n * g.agsize) by (nonlinear_arith);
    }
    if n < g.agcount {
        assert(n * g.agsize <= (g.agcount - 1) * g.agsize) by (nonlinear_arith)
            requires
                n <= g.agcount - 1,
        ;
    }
}

/// The free blocks of the first `n` AGs: their blocks past the headers,
/// less the log where it lies among them and the root chunk in AG 0.
proof fn lemma_free_in_exact(g: GeometryView, n: nat)
    requires
        g.wf(),
        formattable(g),
        all_planned(g),
        n <= g.agcount,
        g.log_agbno + g.logblocks <= g.ag_blocks(g.logagno as int),
    ensures
        free_in(g, n) == (if n < g.agcount { n * g.agsize } else { g.dblocks as int }) - n * g.prealloc_blocks()
            - (if g.logagno < n { g.logblocks as int } else { 0 }) - (if n > 0 { g.chunk_blocks() } else { 0 }),
    decreases n,
{
    if n > 0 {
        let a = n - 1;
        lemma_free_in_exact(g, a as nat);
        lemma_formattable(g, a);
        lemma_plan_accounting(g, a);
        lemma_initial_free_bound(g, a);
        assert(spec_plan_ag(g, a) is Some);
        assert((n - 1) * g.agsize + g.agsize == n * g.agsize) by (nonlinear_arith);
        assert((n - 1) * g.prealloc_blocks() + g.prealloc_blocks() == n * g.prealloc_blocks()) by (nonlinear_arith);
        let q = spec_plan_ag(g, a)->Some_0;
        assert(ag_free_blocks(g, a) == sum_counts(q.0) + q.1.len());
        assert(ag_free_blocks(g, a) == g.ag_blocks(a) - g.prealloc_blocks()
            - (if a == g.logagno { g.logblocks as int } else { 0 }) - (if a == 0 { g.chunk_blocks() } else { 0 }));
        if n == g.agcount {
            assert(g.ag_blocks(a) == g.dblocks - a * g.agsize);
        } else {
            assert(g.ag_blocks(a) == g.agsize);
        }
        assert(free_in(g, n) == free_in(g, a as nat) + ag_free_blocks(g, a));
    } else {
        assert(n * g.agsize == 0 && n * g.prealloc_blocks() == 0) by (nonlinear_arith)
            requires
                n == 0,
        ;
    }
}

/// Formatting accounts for every data block: what the primary superblock
/// records as free is every block past the AG headers, less the log and
/// the root inode chunk.
pub proof fn lemma_fdblocks(g: GeometryView)
    requires
        g.wf(),
        formattable(g),
        all_planned(g),
        g.log_agbno + g.logblocks <= g.ag_blocks(g.logagno as int),
    ensures
        spec_fdblocks(g) == g.initial_fdblocks() - g.chunk_blocks(),
{
    lemma_free_in_exact(g, g.agcount as nat);
}

proof fn lemma_initial_fdblocks(g: GeometryView)
    requires
        g.wf(),
        formattable(g),
    ensures
        g.agcount * g.prealloc_blocks() + g.logblocks <= g.dblocks,
{
    crate::geometry::lemma_wf_sizes(g);
    let n = g.agcount as int;
    let sz = g.agsize as int;
    let p = g.prealloc_blocks();
    let l = g.logblocks as int;
    assert(g.ag_max_usable() <= sz - p - 4);
    assert((n - 1) * sz >= (n - 1) * (p + l + 5)) by (nonlinear_arith)
        requires
            n >= 2,
            sz >= p + l + 5,
    ;
    assert((n - 1) * (p + l + 5) == (n - 1) * p + (n - 1) * l + (n - 1) * 5) by (nonlinear_arith);
    assert((n - 1) * l >= l) by (nonlinear_arith)
        requires
            n >= 2,
            l >= 0,
    ;
    assert(n * p == (n - 1) * p + p) by (nonlinear_arith);
}

proof fn lemma_log_block(g: GeometryView)
    requires
        g.wf(),
    ensures
        spec_first_record(Seq::new(16, |i: int| 0u8), log_sunit(g)).len() >= 0,
        record_bbs(log_sunit(g)) * 512 <= g.blocksize,
        log_sunit(g) as int + 1024 <= g.blocksize + 1024,
{
    crate::geometry::lemma_wf_sizes(g);
    if g.lsectsize > 512 {
        vstd::arithmetic::power2::lemma_pow2_adds(9, (g.blocklog - 9) as nat);
        vstd::arithmetic::power2::lemma2_to64();
        let k = pow2((g.blocklog - 9) as nat) as int;
        assert(g.blocksize == 512 * k);
        let b = g.blocksize as int;
        assert((b + 512 - 1) / 512 == k) by (nonlinear_arith)
            requires
                b == 512 * k,
                k >= 2,
        ;
    }
}

/// The write covers whole blocks of `bs` bytes, at a block boundary.
pub open spec fn whole_blocks(w: WriteView, bs: int) -> bool {
    match w {
        WriteView::Zero { offset, len } => offset as int % bs == 0 && len as int % bs == 0,
        WriteView::Data { offset, bytes } => offset as int % bs == 0 && bytes.len() as int % bs == 0,
        WriteView::Flush => true,
    }
}

/// Every write covers whole blocks of `bs` bytes, at block boundaries.
pub open spec fn all_whole(ws: Seq<WriteView>, bs: int) -> bool {
    forall|i: int| 0 <= i < ws.len() ==> whole_blocks(#[trigger] ws[i], bs)
}

proof fn lemma_whole_push(ws: Seq<WriteView>, w: WriteView, bs: int)
    requires
        all_whole(ws, bs),
        whole_blocks(w, bs),
    ensures
        all_whole(ws.push(w), bs),
{
    assert forall|i: int| 0 <= i < ws.push(w).len() implies whole_blocks(#[trigger] ws.push(w)[i], bs) by {
        if i < ws.len() {
            assert(ws.push(w)[i] == ws[i]);
        }
    }
}

proof fn lemma_multiple(x: int, b: int)
    requires
        b > 0,
    ensures
        (x * b) % b == 0,
{
    vstd::arithmetic::div_mod::lemma_mod_multiples_basic(x, b);
}

/// The block size divides the 128 KiB zeroed at each end of the device and
/// the bytes of an inode chunk.
proof fn lemma_block_divides(g: GeometryView)
    requires
        g.wf(),
    ensures
        WHACK_SIZE as int % g.blocksize as int == 0,
        (64 * g.inodesize) % g.blocksize as int == 0,
{
    vstd::arithmetic::power2::lemma2_to64();
    let bs = g.blocksize as int;
    let isz = g.inodesize as int;
    assert(bs == 1024 || bs == 2048 || bs == 4096 || bs == 8192 || bs == 16384);
    assert(isz == 512 || isz == 1024 || isz == 2048);
    assert(WHACK_SIZE as int == 8 * 16384);
    if bs == 1024 {
        assert(WHACK_SIZE as int == 128 * 1024);
    } else if bs == 2048 {
        assert(WHACK_SIZE as int == 64 * 2048);
    } else if bs == 4096 {
        assert(WHACK_SIZE as int == 32 * 4096);
    } else if bs == 8192 {
        assert(WHACK_SIZE as int == 16 * 8192);
    }
    let k: int = if isz == 512 {
        2
    } else if isz == 1024 {
        4
    } else {
        8
    };
    assert(64 * isz == k * 16384);
    let m: int = 16384int / bs;
    assert(16384 == m * bs);
    assert(64 * isz == (k * m) * bs) by (nonlinear_arith)
        requires
            64 * isz == k * 16384,
            16384 == m * bs,
    ;
    vstd::arithmetic::div_mod::lemma_mod_multiples_basic(k * m, bs);
}

fn push_write(ws: &mut Vec<Write>, w: Write)
    ensures
        views(final(ws)@) == views(old(ws)@).push(w@),
{
    ws.push(w);
    assert(views(ws@) =~= views(old(ws)@).push(w@));
}

/// The plans of every AG, in order; the first AG that cannot be planned
/// stops it.
fn plan_all(g: &Geometry) -> (r: Result<Vec<AgPlan>, Error>)
    requires
        g@.wf(),
        formattable(g@),
    ensures
        match r {
            Ok(plans) => {
                &&& all_planned(g@)
                &&& plans@.len() == g.agcount
                &&& forall|i: int| 0 <= i < g.agcount ==> (#[trigger] plans@[i])@ == planned(g@, i)
            },
            Err(e) => !all_planned(g@) && e is InvalidParams,
        },
{
    let mut plans: Vec<AgPlan> = Vec::new();
    let mut agno: u64 = 0;
    while agno < g.agcount
        invariant
            g@.wf(),
            formattable(g@),
            agno <= g.agcount,
            plans@.len() == agno,
            forall|i: int| 0 <= i < agno ==> spec_plan_ag(g@, i) is Some,
            forall|i: int| 0 <= i < agno ==> (#[trigger] plans@[i])@ == planned(g@, i),
        decreases g.agcount - agno,
    {
        proof {
            lemma_formattable(g@, agno as int);
        }
        match plan_ag(g, agno) {
            Ok(p) => {
                assert(p@ == planned(g@, agno as int));
                plans.push(p);
            },
            Err(e) => {
                return Err(e);
            },
        }
        agno += 1;
    }
    Ok(plans)
}

/// `sb_fdblocks` of the finished filesystem: every AG's free extents and
/// free list.
fn total_free(g: &Geometry, plans: &Vec<AgPlan>) -> (r: u64)
    requires
        g@.wf(),
        formattable(g@),
        all_planned(g@),
        plans@.len() == g.agcount,
        forall|i: int| 0 <= i < g.agcount ==> (#[trigger] plans@[i])@ == planned(g@, i),
    ensures
        r == spec_fdblocks(g@),
        r <= g.dblocks,
{
    let mut total: u64 = 0;
    let mut i: usize = 0;
    while i < plans.len()
        invariant
            g@.wf(),
            formattable(g@),
            all_planned(g@),
            plans@.len() == g.agcount,
            forall|j: int| 0 <= j < g.agcount ==> (#[trigger] plans@[j])@ == planned(g@, j),
            i <= plans@.len(),
            total == free_in(g@, i as nat),
        decreases plans@.len() - i,
    {
        proof {
            lemma_free_in(g@, (i + 1) as nat);
            lemma_plan_accounting(g@, i as int);
            assert(plans@[i as int]@ == planned(g@, i as int));
            crate::format::lemma_sum_counts_nonneg(planned(g@, i as int).free);
        }
        let p = &plans[i];
        total = total + p.freeblks() + p.agfl.len() as u64;
        i += 1;
    }
    proof {
        lemma_free_in(g@, g.agcount as nat);
    }
    total
}

/// Each write at the device's edges covers whole blocks.
proof fn lemma_edge_whole(g: GeometryView, dev_size: u64, uuid: [u8; 16])
    requires
        g.wf(),
        formattable(g),
        log_first_block(g, uuid@).len() == g.blocksize,
    ensures
        all_whole(edge_writes_spec(g, dev_size, uuid), g.blocksize as int),
{
    crate::geometry::lemma_wf_sizes(g);
    lemma_formattable(g, g.logagno as int);
    let b = g.blocksize as int;
    let d = dev_size as int;
    let end = blocks_end(g, dev_size);
    let back = if end > WHACK_SIZE { end - WHACK_SIZE } else { 0 };
    let tail = tail_start(g, dev_size);
    assert(0 <= tail <= end <= d && 0 <= back / b * b <= back) by (nonlinear_arith)
        requires
            b > 0,
            d >= 0,
            end == d / b * b,
            back == (if end > WHACK_SIZE { end - WHACK_SIZE } else { 0 }),
            tail == back / b * b,
            WHACK_SIZE > 0,
    ;
    lemma_block_divides(g);
    lemma_multiple(d / b, b);
    lemma_multiple(back / b, b);
    lemma_multiple(g.logagno * g.agsize + g.log_agbno, b);
    lemma_multiple(g.logblocks as int, b);
    assert(end - tail == (d / b - back / b) * b) by (nonlinear_arith)
        requires
            end == (d / b) * b,
            tail == (back / b) * b,
    ;
    lemma_multiple(d / b - back / b, b);
    lemma_multiple(1, b);
    assert(g.logblocks * b <= 1048576 * 16384) by (nonlinear_arith)
        requires
            g.logblocks <= 1048576,
            b <= 16384,
    ;
    let head = if WHACK_SIZE < end { WHACK_SIZE as int } else { end };
    assert(head % b == 0 && 0 <= head <= u64::MAX);
    assert((head as u64) as int == head);
    let v = edge_writes_spec(g, dev_size, uuid);
    assert(v[0] == WriteView::Zero { offset: 0, len: head as u64 });
    assert(0int % b == 0);
    assert(whole_blocks(WriteView::Zero { offset: 0, len: head as u64 }, b));
    assert(whole_blocks(v[1], b));
    assert(whole_blocks(v[2], b));
    assert(whole_blocks(v[3], b));
}

/// The device's ends zeroed, then the log zeroed and its first record
/// written.
fn edge_writes(g: &Geometry, dev_size: u64, uuid: &[u8; 16]) -> (ws: Vec<Write>)
    requires
        g@.wf(),
        formattable(g@),
    ensures
        views(ws@) == edge_writes_spec(g@, dev_size, *uuid),
        all_whole(views(ws@), g.blocksize as int),
{
    proof {
        crate::geometry::lemma_wf_sizes(g@);
        lemma_formattable(g@, g.logagno as int);
        lemma_log_block(g@);
    }
    let bs = g.bs();
    let mut ws: Vec<Write> = Vec::new();
    // prepare_devices: zero the ends of the device, whole blocks only.
    proof {
        let d = dev_size as int;
        let b = bs as int;
        assert((d / b) * b <= d) by (nonlinear_arith)
            requires
                b > 0,
                d >= 0,
        ;
    }
    let end = dev_size / bs * bs;
    let head_len = if WHACK_SIZE < end { WHACK_SIZE } else { end };
    push_write(&mut ws, Write::Zero { offset: 0, len: head_len });
    let back = if end > WHACK_SIZE { end - WHACK_SIZE } else { 0 };
    proof {
        let d = back as int;
        let b = bs as int;
        assert((d / b) * b <= d) by (nonlinear_arith)
            requires
                b > 0,
                d >= 0,
        ;
    }
    let tail = back / bs * bs;
    push_write(&mut ws, Write::Zero { offset: tail, len: end - tail });
    // libxfs_log_clear: zero the log, then its first record.
    let log_at = g.agb_to_byte(g.logagno, g.log_agbno);
    assert(g.logblocks * bs <= 1048576 * 16384) by (nonlinear_arith)
        requires
            g.logblocks <= 1048576,
            bs <= 16384,
    ;
    push_write(&mut ws, Write::Zero { offset: log_at, len: g.logblocks * bs });
    let logsectsize = if g.sectsize > 512 { g.lsectsize } else { 0 };
    let mut first = first_record(uuid, clear_sunit(g.logsunit(), logsectsize));
    let pad = g.blocksize as usize - first.len();
    push_zeros(&mut first, pad);
    push_write(&mut ws, Write::Data { offset: log_at, bytes: first });
    assert(views(ws@) =~= edge_writes_spec(g@, dev_size, *uuid));
    proof {
        lemma_edge_whole(g@, dev_size, *uuid);
    }
    ws
}

/// Every AG's header blocks: the primary unfinished, the last and middle
/// secondaries with the root inode.
fn push_ag_writes(ws: &mut Vec<Write>, g: &Geometry, plans: &Vec<AgPlan>, uuid: &[u8; 16], fdblocks: u64)
    requires
        g@.wf(),
        formattable(g@),
        all_planned(g@),
        plans@.len() == g.agcount,
        forall|i: int| 0 <= i < g.agcount ==> (#[trigger] plans@[i])@ == planned(g@, i),
        fdblocks == spec_fdblocks(g@),
        all_whole(views(old(ws)@), g.blocksize as int),
    ensures
        views(final(ws)@) == views(old(ws)@) + ag_writes(g@, *uuid, g.agcount as nat),
        all_whole(views(final(ws)@), g.blocksize as int),
{
    proof {
        lemma_initial_fdblocks(g@);
    }
    let rootino = g.rootino();
    let secondary = SbState {
        uuid: *uuid,
        rootino: NULL64,
        rbmino: NULL64,
        rsumino: NULL64,
        icount: 0,
        ifree: 0,
        fdblocks: g.initial_fdblocks(),
        inprogress: true,
    };
    let primary = SbState {
        uuid: *uuid,
        rootino,
        rbmino: rootino + 1,
        rsumino: rootino + 2,
        icount: 64,
        ifree: 61,
        fdblocks,
        inprogress: true,
    };
    let with_root = SbState { rootino, ..secondary };
    let middle: Option<u64> = if g.agcount > 2 { Some((g.agcount - 1) / 2) } else { None };
    let ghost ws0 = views(ws@);
    let mut agno: u64 = 0;
    while agno < g.agcount
        invariant
            g@.wf(),
            formattable(g@),
            all_planned(g@),
            plans@.len() == g.agcount,
            forall|i: int| 0 <= i < g.agcount ==> (#[trigger] plans@[i])@ == planned(g@, i),
            fdblocks == spec_fdblocks(g@),
            rootino == g@.rootino(),
            secondary == secondary_state(g@, *uuid),
            primary == (SbState { inprogress: true, ..finished_state(g@, *uuid) }),
            with_root == (SbState { rootino: g@.rootino() as u64, ..secondary_state(g@, *uuid) }),
            middle == middle_ag(g@),
            agno <= g.agcount,
            views(ws@) == ws0 + ag_writes(g@, *uuid, agno as nat),
            all_whole(views(ws@), g.blocksize as int),
        decreases g.agcount - agno,
    {
        let is_middle = match middle {
            Some(m) => m == agno,
            None => false,
        };
        let sbs = if agno == 0 {
            primary
        } else if agno == g.agcount - 1 || is_middle {
            with_root
        } else {
            secondary
        };
        assert(sbs == ag_state(g@, *uuid, agno as int));
        proof {
            lemma_ag_free(g@, agno as int);
            lemma_formattable(g@, agno as int);
            assert(plans@[agno as int]@ == planned(g@, agno as int));
        }
        let head = ag_head(g, &plans[agno as usize], uuid, &sbs);
        let offset = g.agb_to_byte(agno, 0);
        proof {
            crate::geometry::lemma_wf_sizes(g@);
            lemma_multiple(agno * g.agsize + 0, g.blocksize as int);
            lemma_multiple(g@.prealloc_blocks(), g.blocksize as int);
            lemma_whole_push(views(ws@), WriteView::Data { offset, bytes: head@ }, g.blocksize as int);
        }
        push_write(ws, Write::Data { offset, bytes: head });
        agno += 1;
        assert(views(ws@) =~= ws0 + ag_writes(g@, *uuid, agno as nat));
    }
}

/// The root inode chunk, a flush, the primary's header blocks finished,
/// a flush.
fn push_final_writes(
    ws: &mut Vec<Write>,
    g: &Geometry,
    plans: &Vec<AgPlan>,
    uuid: &[u8; 16],
    time: Timestamp,
    seed: u64,
    fdblocks: u64,
)
    requires
        g@.wf(),
        formattable(g@),
        all_planned(g@),
        encodable(time, g.features.bigtime),
        plans@.len() == g.agcount,
        forall|i: int| 0 <= i < g.agcount ==> (#[trigger] plans@[i])@ == planned(g@, i),
        fdblocks == spec_fdblocks(g@),
        all_whole(views(old(ws)@), g.blocksize as int),
    ensures
        views(final(ws)@) == views(old(ws)@) + final_writes_spec(g@, *uuid, time, seed),
        all_whole(views(final(ws)@), g.blocksize as int),
{
    proof {
        crate::geometry::lemma_wf_sizes(g@);
        lemma_plan_accounting(g@, 0);
        lemma_ag_free(g@, 0);
        assert(plans@[0]@ == planned(g@, 0));
    }
    let ghost ws0 = views(ws@);
    let at = g.root_chunk_agbno();
    let chunk = match plans[0].chunk {
        Some(c) => c,
        None => at,
    };
    assert(chunk == at);
    let mut gen = Gen(seed);
    let inodes = root_chunk(g, chunk, uuid, time, &mut gen);
    assert(chunk * g.blocksize <= 200 * 16384) by (nonlinear_arith)
        requires
            chunk < 200,
            g.blocksize <= 16384,
    ;
    let offset = g.agb_to_byte(0, chunk);
    proof {
        lemma_block_divides(g@);
        lemma_multiple(0 * g.agsize + chunk, g.blocksize as int);
        lemma_whole_push(views(ws@), WriteView::Data { offset, bytes: inodes@ }, g.blocksize as int);
    }
    push_write(ws, Write::Data { offset, bytes: inodes });
    proof {
        lemma_whole_push(views(ws@), WriteView::Flush, g.blocksize as int);
    }
    push_write(ws, Write::Flush);
    let rootino = g.rootino();
    let finished = SbState {
        uuid: *uuid,
        rootino,
        rbmino: rootino + 1,
        rsumino: rootino + 2,
        icount: 64,
        ifree: 61,
        fdblocks,
        inprogress: false,
    };
    assert(finished == finished_state(g@, *uuid));
    let mut head = ag_head(g, &plans[0], uuid, &finished);
    assert(g@.header_blocks() * g.blocksize <= g@.prealloc_blocks() * g.blocksize) by (nonlinear_arith)
        requires
            g@.header_blocks() <= g@.prealloc_blocks(),
            g.blocksize > 0,
    ;
    assert(g@.header_blocks() * g.blocksize <= 4 * 16384) by (nonlinear_arith)
        requires
            g@.header_blocks() <= 4,
            g.blocksize <= 16384,
    ;
    head.truncate((g.header_blocks() * g.bs()) as usize);
    proof {
        lemma_multiple(0, g.blocksize as int);
        lemma_multiple(g@.header_blocks(), g.blocksize as int);
        lemma_whole_push(views(ws@), WriteView::Data { offset: 0, bytes: head@ }, g.blocksize as int);
    }
    push_write(ws, Write::Data { offset: 0, bytes: head });
    proof {
        lemma_whole_push(views(ws@), WriteView::Flush, g.blocksize as int);
    }
    push_write(ws, Write::Flush);
    assert(views(ws@) =~= ws0 + final_writes_spec(g@, *uuid, time, seed));
}

/// What a format of `g` writes on a device of `dev_size` bytes, in order,
/// with filesystem UUID `uuid`, timestamps `time` and generation numbers
/// drawn from `seed`, and the report of it. Fails where an AG has no room
/// for its free list or the root inode chunk.
pub fn format_writes(g: &Geometry, dev_size: u64, uuid: [u8; 16], time: Timestamp, seed: u64) -> (r: Result<(Report, Vec<Write>), Error>)
    requires
        g@.wf(),
        formattable(g@),
        encodable(time, g.features.bigtime),
    ensures
        match r {
            Ok((rep, ws)) => {
                &&& all_planned(g@)
                &&& views(ws@) == spec_writes(g@, dev_size, uuid, time, seed)
                &&& all_whole(views(ws@), g.blocksize as int)
                &&& rep.geometry == *g
                &&& rep.uuid == uuid
                &&& rep.rootino == g@.rootino()
                &&& rep.fdblocks == spec_fdblocks(g@)
            },
            Err(e) => !all_planned(g@) && e is InvalidParams,
        },
{
    let plans = plan_all(g)?;
    let fdblocks = total_free(g, &plans);
    let mut ws = edge_writes(g, dev_size, &uuid);
    push_ag_writes(&mut ws, g, &plans, &uuid, fdblocks);
    push_final_writes(&mut ws, g, &plans, &uuid, time, seed, fdblocks);
    let rootino = g.rootino();
    Ok((Report { geometry: *g, uuid, rootino, fdblocks }, ws))
}

/// Whether every AG of `g` has blocks past its headers, so that it can be
/// formatted.
pub fn is_formattable(g: &Geometry) -> (r: bool)
    requires
        g@.wf(),
    ensures
        r == formattable(g@),
{
    proof {
        crate::geometry::lemma_wf_sizes(g@);
        assert((g.agcount - 1) * g.agsize <= 0xffff_ffff * 0x4000_0000) by (nonlinear_arith)
            requires
                g.agsize < 0x4000_0000,
                g.agcount <= 0xffff_fffe,
                g.agcount >= 2,
        ;
    }
    (g.agcount - 1) * g.agsize + g.prealloc_blocks() < g.dblocks
}

/// A fresh random UUID (version 4).
#[verifier::external_body]
fn random_uuid() -> (u: [u8; 16])
    ensures
        u@[6] >> 4u8 == 4,
        u@[8] >> 6u8 == 2,
{
    *uuid::Uuid::new_v4().as_bytes()
}

/// The first eight bytes of `b`, little-endian.
fn le64_prefix(b: &[u8; 16]) -> (r: u64)
    ensures
        r == ((spec_le32(b@, 4) as u64) << 32u64) | (spec_le32(b@, 0) as u64),
{
    let s = b.as_slice();
    ((le32(s, 4) as u64) << 32u64) | (le32(s, 0) as u64)
}

/// The filesystem UUID a format uses: the one asked for, else a random
/// (version 4) one.
pub open spec fn uuid_fits(params: Params, uuid: [u8; 16]) -> bool {
    match params.uuid {
        Some(u) => uuid == u,
        None => uuid@[6] >> 4u8 == 4 && uuid@[8] >> 6u8 == 2,
    }
}

/// The time stamped on the inodes: the one asked for, else `now`.
pub open spec fn chosen_time(params: Params, now: Timestamp) -> Timestamp {
    match params.time {
        Some(t) => t,
        None => now,
    }
}

/// What `format` needs of a geometry it computed: every AG can be laid
/// out, and the time stamped on the inodes fits their timestamp format.
pub open spec fn format_ready(params: Params, device_size: u64, logical_sector: u32, physical_sector: u32, now: Timestamp) -> bool {
    match spec_compute(params, device_size, logical_sector, physical_sector) {
        Ok(g) => formattable(g) && encodable(chosen_time(params, now), g.features.bigtime),
        Err(_) => true,
    }
}

/// Whether [`format`] can be asked to format: see [`format_ready`].
pub fn is_ready(params: &Params, device_size: u64, logical_sector: u32, physical_sector: u32, now: Timestamp) -> (r: bool)
    ensures
        r == format_ready(*params, device_size, logical_sector, physical_sector, now),
{
    match Geometry::compute(params, device_size, logical_sector, physical_sector) {
        Err(_) => true,
        Ok(g) => {
            let time = match params.time {
                Some(t) => t,
                None => now,
            };
            is_formattable(&g) && crate::structs::inode::is_encodable(time, g.features.bigtime)
        },
    }
}

/// Format a device of `device_size` bytes with the given sector sizes as
/// `mkfs.xfs` would with `params`: the geometry, then every write, in
/// order. The UUID and the generation seed are random unless `params`
/// fixes them; the time is `params.time`, else `now`.
pub fn format(params: &Params, device_size: u64, logical_sector: u32, physical_sector: u32, now: Timestamp) -> (r: Result<(Report, Vec<Write>), Error>)
    requires
        format_ready(*params, device_size, logical_sector, physical_sector, now),
    ensures
        match r {
            Ok((rep, ws)) => {
                &&& spec_compute(*params, device_size, logical_sector, physical_sector) == Ok::<GeometryView, Refusal>(rep.geometry@)
                &&& all_planned(rep.geometry@)
                &&& uuid_fits(*params, rep.uuid)
                &&& rep.rootino == rep.geometry@.rootino()
                &&& rep.fdblocks == spec_fdblocks(rep.geometry@)
                &&& all_whole(views(ws@), rep.geometry.blocksize as int)
                &&& exists|seed: u64| {
                    &&& (params.gen_seed matches Some(s) ==> seed == s)
                    &&& views(ws@) == #[trigger] spec_writes(
                        rep.geometry@,
                        device_size,
                        rep.uuid,
                        chosen_time(*params, now),
                        seed,
                    )
                }
            },
            Err(e) => match spec_compute(*params, device_size, logical_sector, physical_sector) {
                Ok(g) => !all_planned(g) && e is InvalidParams,
                Err(why) => refusal_of(e) == Some(why),
            },
        },
{
    let g = Geometry::compute(params, device_size, logical_sector, physical_sector)?;
    let uuid = match params.uuid {
        Some(u) => u,
        None => random_uuid(),
    };
    let time = match params.time {
        Some(t) => t,
        None => now,
    };
    let seed = match params.gen_seed {
        Some(s) => s,
        None => {
            let bytes = random_uuid();
            le64_prefix(&bytes)
        },
    };
    let (rep, ws) = format_writes(&g, device_size, uuid, time, seed)?;
    assert(views(ws@) == spec_writes(rep.geometry@, device_size, rep.uuid, time, seed));
    assert(params.gen_seed matches Some(x) ==> seed == x);
    assert(uuid_fits(*params, rep.uuid));
    assert(exists|s: u64| {
        &&& (params.gen_seed matches Some(x) ==> s == x)
        &&& views(ws@) == #[trigger] spec_writes(rep.geometry@, device_size, rep.uuid, time, s)
    });
    Ok((rep, ws))
}

} // verus!
