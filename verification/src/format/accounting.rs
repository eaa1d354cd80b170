//! What planning an AG keeps: every block taken from free space goes to
//! the free list or the root inode chunk, and the lists stay small enough
//! for one btree block each.
use vstd::prelude::*;
use crate::format::{
    alloc_end, fill_freelist, first_holding, holds, initial_free, initial_rmap, pick,
    spec_plan_ag, spec_rmap_insert, spec_take, sum_counts, lower_bound,
};
use crate::geometry::GeometryView;
use crate::structs::btree::{owner, AllocRec, RmapRec};

verus! {

/// The total of two lists of extents is the sum of their totals.
pub proof fn lemma_sum_counts_concat(a: Seq<AllocRec>, b: Seq<AllocRec>)
    ensures
        sum_counts(a + b) == sum_counts(a) + sum_counts(b),
    decreases b.len(),
{
    if b.len() == 0 {
        assert(a + b =~= a);
    } else {
        lemma_sum_counts_concat(a, b.drop_last());
        assert((a + b).drop_last() =~= a + b.drop_last());
    }
}

proof fn lemma_sum_counts_one(r: AllocRec)
    ensures
        sum_counts(seq![r]) == r.count,
{
    assert(seq![r].drop_last() =~= Seq::<AllocRec>::empty());
    assert(sum_counts(Seq::<AllocRec>::empty()) == 0);
}

proof fn lemma_first_holding_bound(free: Seq<AllocRec>, start: int, len: int)
    ensures
        0 <= first_holding(free, start, len) <= free.len(),
        first_holding(free, start, len) < free.len() ==> holds(free[first_holding(free, start, len)], start, len),
    decreases free.len(),
{
    if free.len() > 0 && !holds(free[0], start, len) {
        lemma_first_holding_bound(free.drop_first(), start, len);
    }
}

/// Taking `len` blocks out of the free extents takes exactly `len` blocks
/// from their total, and adds at most one extent (a split).
pub proof fn lemma_take_sum(free: Seq<AllocRec>, start: int, len: int)
    requires
        spec_take(free, start, len) is Some,
        len >= 0,
    ensures
        sum_counts(spec_take(free, start, len)->Some_0) == sum_counts(free) - len,
        spec_take(free, start, len)->Some_0.len() <= free.len() + 1,
{
    lemma_first_holding_bound(free, start, len);
    let i = first_holding(free, start, len);
    let r = free[i];
    let left = if start > r.start {
        seq![AllocRec { start: r.start, count: (start - r.start) as u32 }]
    } else {
        Seq::empty()
    };
    let right = if start + len < alloc_end(r) {
        seq![AllocRec { start: (start + len) as u32, count: (alloc_end(r) - start - len) as u32 }]
    } else {
        Seq::empty()
    };
    let pre = free.subrange(0, i);
    let post = free.subrange(i + 1, free.len() as int);
    assert(free =~= pre + seq![r] + post);
    lemma_sum_counts_concat(pre + seq![r], post);
    lemma_sum_counts_concat(pre, seq![r]);
    lemma_sum_counts_concat(pre + left + right, post);
    lemma_sum_counts_concat(pre + left, right);
    lemma_sum_counts_concat(pre, left);
    lemma_sum_counts_one(r);
    if start > r.start {
        lemma_sum_counts_one(left[0]);
        assert(left =~= seq![left[0]]);
    }
    if start + len < alloc_end(r) {
        lemma_sum_counts_one(right[0]);
        assert(right =~= seq![right[0]]);
    }
}

/// Merging or inserting a reverse mapping adds at most one record.
pub proof fn lemma_rmap_insert_len(rmap: Seq<RmapRec>, rec: RmapRec)
    requires
        0 <= lower_bound(rmap, rec.start) <= rmap.len(),
    ensures
        spec_rmap_insert(rmap, rec).len() <= rmap.len() + 1,
{
}

proof fn lemma_lower_bound_range(rmap: Seq<RmapRec>, s: u32)
    ensures
        0 <= lower_bound(rmap, s) <= rmap.len(),
    decreases rmap.len(),
{
    if rmap.len() > 0 && rmap[0].start < s {
        lemma_lower_bound_range(rmap.drop_first(), s);
    }
}

/// Filling the free list from the free extents: it ends holding exactly
/// `need` blocks, each taken from the free extents' total, and each fill
/// step adds at most one extent and one reverse mapping.
pub proof fn lemma_fill_freelist(free: Seq<AllocRec>, agfl: Seq<u32>, rmap: Seq<RmapRec>, need: int, rmapbt: bool)
    requires
        agfl.len() <= need,
    ensures
        fill_freelist(free, agfl, rmap, need, rmapbt) matches Some((f2, a2, r2)) ==> {
            &&& a2.len() == need
            &&& sum_counts(f2) + a2.len() == sum_counts(free) + agfl.len()
            &&& f2.len() <= free.len() + need - agfl.len()
            &&& r2.len() <= rmap.len() + need - agfl.len()
        },
    decreases need - agfl.len(),
{
    if agfl.len() < need {
        let want = need - agfl.len();
        if let Some(p) = pick(free, want) {
            let len = if want <= p.count { want } else { p.count as int };
            if len > 0 {
                if let Some(free2) = spec_take(free, p.start as int, len) {
                    let agfl2 = agfl + Seq::new(len as nat, |i: int| (p.start + i) as u32);
                    let rec = RmapRec { start: p.start, count: len as u32, owner: owner::AG };
                    let rmap2 = if rmapbt { spec_rmap_insert(rmap, rec) } else { rmap };
                    lemma_take_sum(free, p.start as int, len);
                    lemma_lower_bound_range(rmap, rec.start);
                    lemma_rmap_insert_len(rmap, rec);
                    lemma_fill_freelist(free2, agfl2, rmap2, need, rmapbt);
                }
            }
        }
    }
}

/// Blocks an AG starts with in its free space btrees: all but the
/// preallocated headers and roots, and the log in its AG.
pub open spec fn initial_free_blocks(g: GeometryView, agno: int) -> int {
    sum_counts(initial_free(g, agno))
}

/// Planning an AG accounts for every free block: what is still free, plus
/// the free list, plus the root inode chunk in AG 0, is what the AG
/// started with. The free list holds exactly `min_freelist` blocks, and
/// the free extents and reverse mappings stay within one btree block.
pub proof fn lemma_plan_accounting(g: GeometryView, agno: int)
    requires
        g.wf(),
        0 <= agno < g.agcount,
    ensures
        spec_plan_ag(g, agno) matches Some((free, agfl, rmap, chunk)) ==> {
            &&& sum_counts(free) + agfl.len() + (if agno == 0 { g.chunk_blocks() } else { 0 })
                == initial_free_blocks(g, agno)
            &&& agfl.len() == g.min_freelist()
            &&& free.len() <= 9
            &&& rmap.len() <= 13
            &&& (chunk is Some <==> agno == 0)
        },
{
    let rmapbt = g.features.rmapbt;
    let f0 = initial_free(g, agno);
    let r0 = initial_rmap(g, agno);
    lemma_fill_freelist(f0, Seq::empty(), r0, g.min_freelist(), rmapbt);
    if let Some((free, agfl, rmap)) = fill_freelist(f0, Seq::empty(), r0, g.min_freelist(), rmapbt) {
        if agno == 0 {
            let at = g.root_chunk_agbno();
            if let Some(free2) = spec_take(free, at, g.chunk_blocks()) {
                assert(g.chunk_blocks() >= 0) by {
                    crate::geometry::lemma_wf_sizes(g);
                    vstd::arithmetic::div_mod::lemma_div_pos_is_pos(64 * g.inodesize as int, g.blocksize as int);
                }
                lemma_take_sum(free, at, g.chunk_blocks());
                let rec = RmapRec { start: at as u32, count: g.chunk_blocks() as u32, owner: owner::INODES };
                lemma_lower_bound_range(rmap, rec.start);
                lemma_rmap_insert_len(rmap, rec);
            }
        }
    }
}

} // verus!
