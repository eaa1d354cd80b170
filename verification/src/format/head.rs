//! One allocation group's header sectors and btree roots: blocks
//! `0..prealloc` of the AG.
use vstd::prelude::*;
use crate::bytes::{push_bytes, push_zeros, zeros};
use crate::format::{max_count, size_key_lt, sum_counts, AgPlan, AgPlanView};
use crate::geometry::{Geometry, GeometryView};
use crate::structs::ag::{agf_sector, agfl_sector, agi_sector, encode_agfl, Agf, Agi};
use crate::structs::ag::{agf, agi};
use crate::structs::btree::{
    self, alloc_recs, alloc_recs_spec, inobt_recs, inobt_recs_spec, leaf_block, leaf_block_spec,
    rmap_recs, rmap_recs_spec, AllocRec, InobtRec,
};
use crate::structs::sb::{self, sb_sector, SbState};
use crate::structs::NULL32;

verus! {

/// `r` inserted into `s` before the first extent larger by `(count, start)`.
pub open spec fn insert_by_size(s: Seq<AllocRec>, r: AllocRec) -> Seq<AllocRec>
    decreases s.len(),
{
    if s.len() == 0 {
        seq![r]
    } else if size_key_lt(r, s[0]) {
        seq![r] + s
    } else {
        seq![s[0]] + insert_by_size(s.drop_first(), r)
    }
}

/// The extents ordered by `(count, start)`, as the by-size btree keeps them.
pub open spec fn by_size(s: Seq<AllocRec>) -> Seq<AllocRec>
    decreases s.len(),
{
    if s.len() == 0 {
        Seq::empty()
    } else {
        insert_by_size(by_size(s.drop_last()), s.last())
    }
}

/// Index of the first extent of `s` larger than `r` by `(count, start)`.
pub open spec fn size_pos(s: Seq<AllocRec>, r: AllocRec) -> int
    decreases s.len(),
{
    if s.len() == 0 {
        0
    } else if size_key_lt(r, s[0]) {
        0
    } else {
        1 + size_pos(s.drop_first(), r)
    }
}

proof fn lemma_insert_at(s: Seq<AllocRec>, r: AllocRec)
    ensures
        0 <= size_pos(s, r) <= s.len(),
        insert_by_size(s, r) == s.subrange(0, size_pos(s, r)) + seq![r] + s.subrange(size_pos(s, r), s.len() as int),
        forall|i: int| 0 <= i < size_pos(s, r) ==> !size_key_lt(r, #[trigger] s[i]),
        size_pos(s, r) < s.len() ==> size_key_lt(r, s[size_pos(s, r)]),
    decreases s.len(),
{
    if s.len() > 0 && !size_key_lt(r, s[0]) {
        let t = s.drop_first();
        lemma_insert_at(t, r);
        let p = size_pos(t, r);
        assert(s.subrange(0, p + 1) =~= seq![s[0]] + t.subrange(0, p));
        assert(s.subrange(p + 1, s.len() as int) =~= t.subrange(p, t.len() as int));
        assert forall|i: int| 0 <= i < size_pos(s, r) implies !size_key_lt(r, #[trigger] s[i]) by {
            if i > 0 {
                assert(s[i] == t[i - 1]);
            }
        }
    } else if s.len() > 0 {
        assert(s.subrange(0, 0) =~= Seq::<AllocRec>::empty());
        assert(s.subrange(0, s.len() as int) =~= s);
    }
}

/// `s` is ordered by `(count, start)`.
pub open spec fn size_sorted(s: Seq<AllocRec>) -> bool {
    forall|i: int, j: int| 0 <= i < j < s.len() ==> !size_key_lt(#[trigger] s[j], #[trigger] s[i])
}

proof fn lemma_insert_sorted(s: Seq<AllocRec>, r: AllocRec)
    requires
        size_sorted(s),
    ensures
        size_sorted(insert_by_size(s, r)),
        insert_by_size(s, r).to_multiset() == s.to_multiset().insert(r),
{
    lemma_insert_at(s, r);
    let p = size_pos(s, r);
    let t = insert_by_size(s, r);
    assert(t =~= s.insert(p, r));
    vstd::seq_lib::to_multiset_insert(s, p, r);
    assert forall|i: int, j: int| 0 <= i < j < t.len() implies !size_key_lt(#[trigger] t[j], #[trigger] t[i]) by {
        if j < p {
            assert(t[i] == s[i] && t[j] == s[j]);
        } else if j == p {
            assert(t[i] == s[i] && t[j] == r);
        } else if i < p {
            assert(t[i] == s[i] && t[j] == s[j - 1]);
        } else if i == p {
            assert(t[i] == r && t[j] == s[j - 1]);
            assert(size_key_lt(r, s[p]));
            if j - 1 > p {
                assert(!size_key_lt(s[j - 1], s[p]));
            }
        } else {
            assert(t[i] == s[i - 1] && t[j] == s[j - 1]);
        }
    }
}

/// The by-size order is a sort: ordered by `(count, start)`, and holding
/// exactly the extents it was given.
pub proof fn lemma_by_size(s: Seq<AllocRec>)
    ensures
        size_sorted(by_size(s)),
        by_size(s).to_multiset() == s.to_multiset(),
    decreases s.len(),
{
    if s.len() == 0 {
        assert(by_size(s) =~= s);
    } else {
        lemma_by_size(s.drop_last());
        lemma_insert_sorted(by_size(s.drop_last()), s.last());
        assert(s =~= s.drop_last().push(s.last()));
        vstd::seq_lib::to_multiset_build(s.drop_last(), s.last());
    }
}

/// The free extents in by-size order.
pub fn sort_by_size(free: &[AllocRec]) -> (out: Vec<AllocRec>)
    ensures
        out@ == by_size(free@),
{
    let mut out: Vec<AllocRec> = Vec::new();
    let mut k: usize = 0;
    while k < free.len()
        invariant
            k <= free@.len(),
            out@ == by_size(free@.subrange(0, k as int)),
        decreases free@.len() - k,
    {
        let r = free[k];
        proof {
            lemma_insert_at(out@, r);
        }
        let mut pos: usize = 0;
        while pos < out.len() && !(r.count < out[pos].count || (r.count == out[pos].count && r.start
            < out[pos].start))
            invariant
                pos <= out@.len(),
                forall|i: int| 0 <= i < pos ==> !size_key_lt(r, #[trigger] out@[i]),
                pos <= size_pos(out@, r),
                0 <= size_pos(out@, r) <= out@.len(),
                forall|i: int| 0 <= i < size_pos(out@, r) ==> !size_key_lt(r, #[trigger] out@[i]),
                size_pos(out@, r) < out@.len() ==> size_key_lt(r, out@[size_pos(out@, r)]),
            decreases out@.len() - pos,
        {
            pos += 1;
        }
        assert(pos == size_pos(out@, r));
        let ghost before = out@;
        out.insert(pos, r);
        assert(out@ =~= insert_by_size(before, r));
        k += 1;
        assert(free@.subrange(0, k as int).drop_last() =~= free@.subrange(0, k - 1));
    }
    assert(free@.subrange(0, free@.len() as int) =~= free@);
    out
}

/// 1 where `b`, else 0.
pub open spec fn flag(b: bool) -> u32 {
    if b { 1 } else { 0 }
}

/// The AGF of a planned AG: one-level btrees at their fixed blocks, the
/// free list from slot 1, the free space totals.
pub open spec fn plan_agf(g: GeometryView, p: AgPlanView) -> Agf {
    let f = g.features;
    Agf {
        seqno: p.agno as u32,
        length: p.length as u32,
        bno_root: g.bno_block() as u32,
        bno_level: 1,
        cnt_root: g.cnt_block() as u32,
        cnt_level: 1,
        rmap_root: if f.rmapbt { g.rmap_block() as u32 } else { 0 },
        rmap_level: flag(f.rmapbt),
        rmap_blocks: flag(f.rmapbt),
        refcount_root: if f.reflink { g.refc_block() as u32 } else { 0 },
        refcount_level: flag(f.reflink),
        refcount_blocks: flag(f.reflink),
        flfirst: 1,
        fllast: ((p.agfl.len() as int) % g.agfl_size()) as u32,
        flcount: p.agfl.len() as u32,
        freeblks: sum_counts(p.free) as u32,
        longest: max_count(p.free) as u32,
        btreeblks: 0,
    }
}

/// The AG-relative number of the root chunk's first inode, if this AG
/// holds it.
pub open spec fn chunk_agino(g: GeometryView, p: AgPlanView) -> Option<u32> {
    match p.chunk {
        Some(c) => Some((c << (g.inopblog as u64)) as u32),
        None => None,
    }
}

/// The AGI of a planned AG: the root chunk's 64 inodes, 61 of them free,
/// where it holds the chunk.
pub open spec fn plan_agi(g: GeometryView, p: AgPlanView) -> Agi {
    let f = g.features;
    let c = chunk_agino(g, p);
    Agi {
        seqno: p.agno as u32,
        length: p.length as u32,
        count: if c is Some { 64 } else { 0 },
        root: g.ibt_block() as u32,
        level: 1,
        freecount: if c is Some { 61 } else { 0 },
        newino: match c {
            Some(i) => i,
            None => NULL32,
        },
        free_root: if f.finobt { g.fibt_block() as u32 } else { 0 },
        free_level: flag(f.finobt),
        iblocks: flag(f.inobtcount),
        fblocks: flag(f.inobtcount && f.finobt),
    }
}

/// The root chunk's inode btree record: all 64 inodes present, all but the
/// first three free.
pub open spec fn chunk_rec(startino: u32) -> InobtRec {
    InobtRec { startino, holemask: 0, count: 64, freecount: 61, free: 0xffff_ffff_ffff_fff8 }
}

/// The inode btree records of a planned AG.
pub open spec fn plan_inodes(g: GeometryView, p: AgPlanView) -> Seq<InobtRec> {
    match chunk_agino(g, p) {
        Some(i) => seq![chunk_rec(i)],
        None => Seq::empty(),
    }
}

/// A leaf btree root at block `agbno` of the AG.
#[verifier::opaque]
pub open spec fn root_leaf(g: GeometryView, p: AgPlanView, uuid: Seq<u8>, magic: u32, agbno: int, recs: Seq<u8>, n: int) -> Seq<u8> {
    leaf_block_spec(
        magic,
        g.agb_to_daddr(p.agno as int, agbno) as u64,
        p.agno as u32,
        uuid,
        recs,
        n as u16,
        g.blocksize as nat,
    )
}

/// The btree roots of a planned AG, block after block from `XFS_BNO_BLOCK`:
/// free space by block and by size, inodes, then free inodes, reverse
/// mappings and reference counts where the features have them.
pub open spec fn plan_roots(g: GeometryView, p: AgPlanView, uuid: Seq<u8>) -> Seq<u8> {
    let f = g.features;
    let inodes = inobt_recs_spec(plan_inodes(g, p), f.sparse);
    let n_inodes = plan_inodes(g, p).len() as int;
    root_leaf(g, p, uuid, btree::magic::BNO, g.bno_block(), alloc_recs_spec(p.free), p.free.len() as int)
        + root_leaf(g, p, uuid, btree::magic::CNT, g.cnt_block(), alloc_recs_spec(by_size(p.free)), p.free.len() as int)
        + root_leaf(g, p, uuid, btree::magic::INO, g.ibt_block(), inodes, n_inodes)
        + (if f.finobt {
        root_leaf(g, p, uuid, btree::magic::FINO, g.fibt_block(), inodes, n_inodes)
    } else {
        Seq::empty()
    }) + (if f.rmapbt {
        root_leaf(g, p, uuid, btree::magic::RMAP, g.rmap_block(), rmap_recs_spec(p.rmap), p.rmap.len() as int)
    } else {
        Seq::empty()
    }) + (if f.reflink {
        root_leaf(g, p, uuid, btree::magic::REFC, g.refc_block(), Seq::empty(), 0)
    } else {
        Seq::empty()
    })
}

/// Blocks `0..prealloc` of a planned AG: the superblock, AGF, AGI and AGFL
/// sectors, zeros to the end of the header blocks, then the btree roots.
#[verifier::opaque]
pub open spec fn spec_ag_head(g: GeometryView, p: AgPlanView, uuid: Seq<u8>, s: SbState) -> Seq<u8> {
    let ss = g.sectsize as nat;
    sb_sector(g, s) + agf_sector(plan_agf(g, p), uuid, ss) + agi_sector(plan_agi(g, p), uuid, ss)
        + agfl_sector(p.agno as u32, uuid, 1, p.agfl, ss) + zeros(
        (g.header_blocks() * g.blocksize - 4 * ss) as nat,
    ) + plan_roots(g, p, uuid)
}

/// What [`ag_head`] can lay out: a planned AG whose lists fit one btree
/// block each and whose header blocks lie inside the filesystem.
pub open spec fn head_fits(g: GeometryView, p: AgPlanView) -> bool {
    &&& p.agno < g.agcount
    &&& p.length <= g.agsize
    &&& p.free.len() <= 100
    &&& p.rmap.len() <= 40
    &&& p.agfl.len() <= 6
    &&& g.agb_to_byte(p.agno as int, g.prealloc_blocks()) <= u64::MAX
}

fn zeroed(n: usize) -> (v: Vec<u8>)
    ensures
        v@ == zeros(n as nat),
{
    let v: Vec<u8> = vec![0u8; n];
    assert(v@ =~= zeros(n as nat));
    v
}

fn leaf_at(g: &Geometry, p: &AgPlan, uuid: &[u8; 16], magic: u32, agbno: u64, recs: &[u8], n: usize) -> (b: Vec<u8>)
    requires
        g@.wf(),
        head_fits(g@, p@),
        agbno <= g@.prealloc_blocks(),
        btree::off::RECS + recs@.len() <= g.blocksize,
        n <= u16::MAX,
    ensures
        b@ == root_leaf(g@, p@, uuid@, magic, agbno as int, recs@, n as int),
        b@.len() == g.blocksize,
{
    reveal(root_leaf);
    proof {
        crate::geometry::lemma_wf_sizes(g@);
        let a = p.agno as int;
        let sz = g.agsize as int;
        let bsz = g.blocksize as int;
        let x = agbno as int;
        let q = g@.prealloc_blocks();
        assert((a * sz + x) * bsz <= (a * sz + q) * bsz) by (nonlinear_arith)
            requires
                x <= q,
                bsz > 0,
                a >= 0,
                sz >= 0,
        ;
    }
    let daddr = g.agb_to_daddr(p.agno, agbno);
    leaf_block(magic, daddr, p.agno as u32, uuid, recs, n as u16, g.blocksize as usize)
}

/// The four header sectors, zero padded to the end of the header blocks.
pub open spec fn head_sectors_spec(g: GeometryView, p: AgPlanView, uuid: Seq<u8>, s: SbState) -> Seq<u8> {
    let ss = g.sectsize as nat;
    sb_sector(g, s) + agf_sector(plan_agf(g, p), uuid, ss) + agi_sector(plan_agi(g, p), uuid, ss)
        + agfl_sector(p.agno as u32, uuid, 1, p.agfl, ss) + zeros(
        (g.header_blocks() * g.blocksize - 4 * ss) as nat,
    )
}

fn head_sectors(g: &Geometry, plan: &AgPlan, uuid: &[u8; 16], sbs: &SbState) -> (buf: Vec<u8>)
    requires
        g@.wf(),
        head_fits(g@, plan@),
    ensures
        buf@ == head_sectors_spec(g@, plan@, uuid@, *sbs),
        buf@.len() == g@.header_blocks() * g.blocksize,
{
    proof {
        crate::geometry::lemma_wf_sizes(g@);
    }
    let ss = g.sectsize as usize;
    let f = g.features;
    let agno = plan.agno;
    let mut buf: Vec<u8> = Vec::new();

    let mut sec = zeroed(ss);
    sb::encode(g, sbs, sec.as_mut_slice());
    assert(sec@ =~= sb_sector(g@, *sbs));
    push_bytes(&mut buf, sec.as_slice());

    let agfl_len = plan.agfl.len() as u32;
    let agf = Agf {
        seqno: agno as u32,
        length: plan.length as u32,
        bno_root: g.bno_block() as u32,
        bno_level: 1,
        cnt_root: g.cnt_block() as u32,
        cnt_level: 1,
        rmap_root: if f.rmapbt { g.rmap_block() as u32 } else { 0 },
        rmap_level: if f.rmapbt { 1 } else { 0 },
        rmap_blocks: if f.rmapbt { 1 } else { 0 },
        refcount_root: if f.reflink { g.refc_block() as u32 } else { 0 },
        refcount_level: if f.reflink { 1 } else { 0 },
        refcount_blocks: if f.reflink { 1 } else { 0 },
        // xfs_agfblock_init starts the list at slot 1; each put advances
        // fllast first.
        flfirst: 1,
        fllast: agfl_len % g.agfl_size(),
        flcount: agfl_len,
        freeblks: plan.freeblks() as u32,
        longest: plan.longest() as u32,
        btreeblks: 0,
    };
    assert(agf == plan_agf(g@, plan@));
    let mut sec = zeroed(ss);
    agf.encode(uuid, sec.as_mut_slice());
    push_bytes(&mut buf, sec.as_slice());

    let agi = Agi {
        seqno: agno as u32,
        length: plan.length as u32,
        count: if plan.chunk.is_some() { 64 } else { 0 },
        root: g.ibt_block() as u32,
        level: 1,
        freecount: if plan.chunk.is_some() { 61 } else { 0 },
        newino: match plan.chunk {
            Some(c) => (c << (g.inopblog as u64)) as u32,
            None => NULL32,
        },
        free_root: if f.finobt { g.fibt_block() as u32 } else { 0 },
        free_level: if f.finobt { 1 } else { 0 },
        iblocks: if f.inobtcount { 1 } else { 0 },
        fblocks: if f.inobtcount && f.finobt { 1 } else { 0 },
    };
    assert(agi == plan_agi(g@, plan@));
    let mut sec = zeroed(ss);
    agi.encode(uuid, sec.as_mut_slice());
    push_bytes(&mut buf, sec.as_slice());

    let mut sec = zeroed(ss);
    encode_agfl(agno as u32, uuid, 1, plan.agfl.as_slice(), sec.as_mut_slice());
    push_bytes(&mut buf, sec.as_slice());
    assert(buf@.len() == 4 * ss);

    let hb = g.header_blocks();
    proof {
        let b = g.blocksize as int;
        let n = 4 * g.sectsize as int;
        assert(hb * g.blocksize >= 4 * g.sectsize) by (nonlinear_arith)
            requires
                hb == n / b + if n % b != 0 { 1int } else { 0int },
                b > 0,
                n >= 0,
                b == g.blocksize,
                n == 4 * g.sectsize,
        ;
        assert(hb * g.blocksize <= 4 * 16384) by (nonlinear_arith)
            requires
                hb <= 4,
                g.blocksize <= 16384,
        ;
    }
    push_zeros(&mut buf, (hb * g.bs()) as usize - 4 * ss);
    assert(buf@ =~= head_sectors_spec(g@, plan@, uuid@, *sbs));
    buf
}

fn head_roots(g: &Geometry, plan: &AgPlan, uuid: &[u8; 16]) -> (buf: Vec<u8>)
    requires
        g@.wf(),
        head_fits(g@, plan@),
    ensures
        buf@ == plan_roots(g@, plan@, uuid@),
        buf@.len() == (g@.prealloc_blocks() - g@.header_blocks()) * g.blocksize,
{
    proof {
        crate::geometry::lemma_wf_sizes(g@);
        btree::lemma_recs_len(plan.free@, plan_inodes(g@, plan@), g.features.sparse, plan.rmap@);
    }
    let f = g.features;
    let mut buf: Vec<u8> = Vec::new();
    let bno_recs = alloc_recs(plan.free.as_slice());
    let bno = leaf_at(g, plan, uuid, btree::magic::BNO, g.bno_block(), bno_recs.as_slice(), plan.free.len());
    push_bytes(&mut buf, bno.as_slice());
    let by_size_list = sort_by_size(plan.free.as_slice());
    proof {
        lemma_by_size_len(plan.free@);
        btree::lemma_recs_len(by_size_list@, Seq::empty(), false, Seq::empty());
    }
    let cnt_recs = alloc_recs(by_size_list.as_slice());
    let cnt = leaf_at(g, plan, uuid, btree::magic::CNT, g.cnt_block(), cnt_recs.as_slice(), plan.free.len());
    push_bytes(&mut buf, cnt.as_slice());

    let mut inodes: Vec<InobtRec> = Vec::new();
    match plan.chunk {
        Some(c) => inodes.push(
            InobtRec {
                startino: (c << (g.inopblog as u64)) as u32,
                holemask: 0,
                count: 64,
                freecount: 61,
                free: 0xffff_ffff_ffff_fff8,
            },
        ),
        None => {},
    }
    assert(inodes@ =~= plan_inodes(g@, plan@));
    let ino_recs = inobt_recs(inodes.as_slice(), f.sparse);
    let ino = leaf_at(g, plan, uuid, btree::magic::INO, g.ibt_block(), ino_recs.as_slice(), inodes.len());
    push_bytes(&mut buf, ino.as_slice());
    let ghost mut k: int = 3;
    assert(buf@.len() == k * g.blocksize);
    if f.finobt {
        let fino = leaf_at(g, plan, uuid, btree::magic::FINO, g.fibt_block(), ino_recs.as_slice(), inodes.len());
        push_bytes(&mut buf, fino.as_slice());
        proof {
            k = k + 1;
        }
    }
    if f.rmapbt {
        let rmap_bytes = rmap_recs(plan.rmap.as_slice());
        let rmap = leaf_at(g, plan, uuid, btree::magic::RMAP, g.rmap_block(), rmap_bytes.as_slice(), plan.rmap.len());
        push_bytes(&mut buf, rmap.as_slice());
        proof {
            k = k + 1;
        }
    }
    if f.reflink {
        let empty: Vec<u8> = Vec::new();
        let refc = leaf_at(g, plan, uuid, btree::magic::REFC, g.refc_block(), empty.as_slice(), 0);
        push_bytes(&mut buf, refc.as_slice());
        proof {
            k = k + 1;
        }
    }
    assert(buf@ =~= plan_roots(g@, plan@, uuid@));
    assert(k == g@.prealloc_blocks() - g@.header_blocks());
    buf
}

/// The header sectors and btree roots of one AG: blocks `0..prealloc`.
pub fn ag_head(g: &Geometry, plan: &AgPlan, uuid: &[u8; 16], sbs: &SbState) -> (buf: Vec<u8>)
    requires
        g@.wf(),
        head_fits(g@, plan@),
    ensures
        buf@ == spec_ag_head(g@, plan@, uuid@, *sbs),
        buf@.len() == g@.prealloc_blocks() * g.blocksize,
{
    reveal(spec_ag_head);
    let mut buf = head_sectors(g, plan, uuid, sbs);
    let roots = head_roots(g, plan, uuid);
    push_bytes(&mut buf, roots.as_slice());
    proof {
        let b = g.blocksize as int;
        assert(g@.header_blocks() * b + (g@.prealloc_blocks() - g@.header_blocks()) * b
            == g@.prealloc_blocks() * b) by (nonlinear_arith);
    }
    buf
}

proof fn lemma_insert_len(s: Seq<AllocRec>, r: AllocRec)
    ensures
        insert_by_size(s, r).len() == s.len() + 1,
    decreases s.len(),
{
    if s.len() > 0 && !size_key_lt(r, s[0]) {
        lemma_insert_len(s.drop_first(), r);
    }
}

proof fn lemma_by_size_len(s: Seq<AllocRec>)
    ensures
        by_size(s).len() == s.len(),
    decreases s.len(),
{
    if s.len() > 0 {
        lemma_by_size_len(s.drop_last());
        lemma_insert_len(by_size(s.drop_last()), s.last());
    }
}


/// An AG's header blocks start with its superblock sector, and its
/// preallocated blocks hold at least the header blocks.
#[verifier::spinoff_prover]
#[verifier::rlimit(40)]
pub proof fn lemma_head_prefix(g: GeometryView, p: AgPlanView, uuid: Seq<u8>, s: SbState)
    requires
        g.wf(),
        uuid.len() == 16,
    ensures
        spec_ag_head(g, p, uuid, s).len() >= g.header_blocks() * g.blocksize,
        g.header_blocks() * g.blocksize >= 4 * g.sectsize,
        forall|i: int| 0 <= i < g.sectsize ==> #[trigger] spec_ag_head(g, p, uuid, s)[i] == sb_sector(g, s)[i],
{
    reveal(spec_ag_head);
    crate::geometry::lemma_wf_sizes(g);
    let ss = g.sectsize as nat;
    let bs = g.blocksize as int;
    crate::structs::sb::lemma_sb_sector_len(g, s);
    crate::structs::ag::lemma_agf_sector_len(plan_agf(g, p), uuid, ss);
    crate::structs::ag::lemma_agi_sector_len(plan_agi(g, p), uuid, ss);
    crate::structs::ag::lemma_agfl_sector_len(p.agno as u32, uuid, 1, p.agfl, ss);
    let n = 4 * ss as int;
    vstd::arithmetic::div_mod::lemma_fundamental_div_mod(n, bs);
    assert(g.header_blocks() * bs >= n) by (nonlinear_arith)
        requires
            bs > 0,
            n == bs * (n / bs) + n % bs,
            0 <= n % bs < bs,
            g.header_blocks() == n / bs + if n % bs != 0 { 1int } else { 0int },
    ;
}


/// Each AG's AGI counts the inode btree blocks it holds: with inobtcount,
/// `agi_iblocks` is the inode btree's one root block (its level) and
/// `agi_fblocks` the free inode btree's (its level, none without finobt);
/// without inobtcount both are zero. The inode btree is one level deep.
/// The AG holding the root chunk counts its 64 inodes, 61 of them free
/// (all but the root directory and the realtime bitmap and summary);
/// every other AG holds no inodes and names no new one.
#[verifier::spinoff_prover]
#[verifier::rlimit(40)]
pub proof fn lemma_agi_counts_blocks(g: GeometryView, p: AgPlanView, uuid: Seq<u8>, s: SbState)
    requires
        g.wf(),
        uuid.len() == 16,
    ensures
        ({
            let ss = g.sectsize as int;
            let agi_b = spec_ag_head(g, p, uuid, s).subrange(2 * ss, 3 * ss);
            let level = crate::bytes::spec_be32(agi_b, agi::LEVEL as int);
            let free_level = crate::bytes::spec_be32(agi_b, agi::FREE_LEVEL as int);
            let iblocks = crate::bytes::spec_be32(agi_b, agi::IBLOCKS as int);
            let fblocks = crate::bytes::spec_be32(agi_b, agi::FBLOCKS as int);
            &&& level == 1
            &&& free_level == (if g.features.finobt { 1u32 } else { 0u32 })
            &&& g.features.inobtcount ==> iblocks == level && fblocks == free_level
            &&& !g.features.inobtcount ==> iblocks == 0 && fblocks == 0
            &&& crate::bytes::spec_be32(agi_b, agi::COUNT as int) == (if p.chunk is Some { 64u32 } else { 0u32 })
            &&& crate::bytes::spec_be32(agi_b, agi::FREECOUNT as int) == (if p.chunk is Some { 61u32 } else { 0u32 })
            &&& p.chunk is None ==> crate::bytes::spec_be32(agi_b, agi::NEWINO as int) == NULL32
        }),
{
    reveal(spec_ag_head);
    crate::geometry::lemma_wf_sizes(g);
    let ss = g.sectsize as nat;
    crate::structs::sb::lemma_sb_sector_len(g, s);
    crate::structs::ag::lemma_agf_sector_len(plan_agf(g, p), uuid, ss);
    crate::structs::ag::lemma_agi_sector_len(plan_agi(g, p), uuid, ss);
    crate::structs::ag::lemma_agi_sector_counts(plan_agi(g, p), uuid, ss);
    let head = spec_ag_head(g, p, uuid, s);
    let a = agi_sector(plan_agi(g, p), uuid, ss);
    let x = sb_sector(g, s) + agf_sector(plan_agf(g, p), uuid, ss);
    assert(head.subrange(2 * ss as int, 3 * ss as int) =~= a) by {
        assert forall|i: int| 0 <= i < ss implies #[trigger] head[2 * ss + i] == a[i] by {
            assert((x + a)[2 * ss + i] == a[i]);
        }
    }
}


/// The longest free extent is at least as long as every free extent, and
/// is one of them (or zero where there is none).
#[verifier::spinoff_prover]
#[verifier::rlimit(40)]
pub proof fn lemma_max_count(free: Seq<AllocRec>)
    ensures
        forall|i: int| 0 <= i < free.len() ==> #[trigger] free[i].count <= max_count(free),
        free.len() == 0 ==> max_count(free) == 0,
        free.len() > 0 ==> exists|i: int| 0 <= i < free.len() && #[trigger] free[i].count == max_count(free),
    decreases free.len(),
{
    if free.len() > 0 {
        let d = free.drop_last();
        lemma_max_count(d);
        assert forall|i: int| 0 <= i < free.len() implies #[trigger] free[i].count <= max_count(free) by {
            if i < d.len() {
                assert(free[i] == d[i]);
            }
        }
        if free.last().count > max_count(d) {
            assert(free[free.len() - 1].count == max_count(free));
        } else if d.len() > 0 {
            let j = choose|j: int| 0 <= j < d.len() && #[trigger] d[j].count == max_count(d);
            assert(free[j] == d[j]);
        } else {
            assert(free[0].count == 0);
        }
    }
}

/// An AG's second header sector is its AGF.
#[verifier::spinoff_prover]
#[verifier::rlimit(40)]
proof fn lemma_head_agf(g: GeometryView, p: AgPlanView, uuid: Seq<u8>, s: SbState)
    requires
        g.wf(),
        uuid.len() == 16,
    ensures
        spec_ag_head(g, p, uuid, s).subrange(g.sectsize as int, 2 * g.sectsize as int) == agf_sector(
            plan_agf(g, p),
            uuid,
            g.sectsize as nat,
        ),
{
    reveal(spec_ag_head);
    crate::geometry::lemma_wf_sizes(g);
    let ss = g.sectsize as nat;
    crate::structs::sb::lemma_sb_sector_len(g, s);
    crate::structs::ag::lemma_agf_sector_len(plan_agf(g, p), uuid, ss);
    let head = spec_ag_head(g, p, uuid, s);
    let a = agf_sector(plan_agf(g, p), uuid, ss);
    let x = sb_sector(g, s);
    assert(head.subrange(ss as int, 2 * ss as int) =~= a) by {
        assert forall|i: int| 0 <= i < ss implies #[trigger] head[ss + i] == a[i] by {
            assert((x + a)[ss + i] == a[i]);
        }
    }
}

/// Each AG's AGF sums up its free space and sizes its btrees: `freeblks`
/// is the total of the free extents, `longest` the longest of them,
/// `flcount` the blocks on the free list; the free space btrees are one
/// block deep, each other btree is one block deep where its feature is on
/// and absent otherwise, and its block count is its level.
#[verifier::spinoff_prover]
#[verifier::rlimit(40)]
pub proof fn lemma_agf_counts(g: GeometryView, p: AgPlanView, uuid: Seq<u8>, s: SbState)
    requires
        g.wf(),
        uuid.len() == 16,
        sum_counts(p.free) <= u32::MAX,
        p.agfl.len() <= u32::MAX,
    ensures
        ({
            let ss = g.sectsize as int;
            let agf_b = spec_ag_head(g, p, uuid, s).subrange(ss, 2 * ss);
            let r = |o: usize| crate::bytes::spec_be32(agf_b, o as int);
            &&& r(agf::FREEBLKS) == sum_counts(p.free)
            &&& forall|i: int| 0 <= i < p.free.len() ==> #[trigger] p.free[i].count <= r(agf::LONGEST)
            &&& p.free.len() > 0 ==> exists|i: int| 0 <= i < p.free.len() && #[trigger] p.free[i].count == r(agf::LONGEST)
            &&& p.free.len() == 0 ==> r(agf::LONGEST) == 0
            &&& r(agf::FLCOUNT) == p.agfl.len()
            &&& r(agf::BNO_LEVEL) == 1 && r(agf::CNT_LEVEL) == 1
            &&& r(agf::RMAP_LEVEL) == (if g.features.rmapbt { 1u32 } else { 0u32 })
            &&& r(agf::RMAP_BLOCKS) == r(agf::RMAP_LEVEL)
            &&& r(agf::REFCOUNT_LEVEL) == (if g.features.reflink { 1u32 } else { 0u32 })
            &&& r(agf::REFCOUNT_BLOCKS) == r(agf::REFCOUNT_LEVEL)
            &&& r(agf::BTREEBLKS) == 0
        }),
{
    crate::geometry::lemma_wf_sizes(g);
    let ss = g.sectsize as nat;
    lemma_head_agf(g, p, uuid, s);
    crate::structs::ag::lemma_agf_sector_counts(plan_agf(g, p), uuid, ss);
    lemma_max_count(p.free);
    crate::format::lemma_sum_counts_nonneg(p.free);
    let m = max_count(p.free);
    assert(0 <= m <= u32::MAX) by {
        if p.free.len() > 0 {
            let j = choose|j: int| 0 <= j < p.free.len() && #[trigger] p.free[j].count == m;
        }
    }
}

} // verus!
