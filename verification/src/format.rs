//! The formatter: lays down what `mkfs.xfs` would leave on the device.
//!
//! `mkfs.xfs` gets there by writing AG headers, then running libxfs
//! transactions — fill each AGFL, allocate the root inode chunk, create the
//! root directory and the realtime bitmap and summary inodes — and writing
//! back whatever those transactions left. This crate computes that end state
//! directly ([`plan_ag`]) and then the writes that lay it down, in order.
pub mod chunk;
pub mod head;
pub mod accounting;
pub mod writes;
pub mod apply;

use vstd::prelude::*;
use crate::error::{Error, message1, message2};
use crate::geometry::{Geometry, GeometryView};
use crate::structs::btree::{owner, AllocRec, RmapRec};

verus! {

/// The end state of one allocation group's metadata.
#[derive(Debug, Clone)]
pub struct AgPlan {
    /// AG number.
    pub agno: u64,
    /// Blocks in this AG.
    pub length: u64,
    /// Free extents, by block.
    pub free: Vec<AllocRec>,
    /// Blocks on the free list, in AGFL order.
    pub agfl: Vec<u32>,
    /// Reverse mappings, by block.
    pub rmap: Vec<RmapRec>,
    /// The root inode chunk's first block, in AG 0.
    pub chunk: Option<u64>,
}

/// The lists of an [`AgPlan`] as sequences.
pub struct AgPlanView {
    pub agno: u64,
    pub length: u64,
    pub free: Seq<AllocRec>,
    pub agfl: Seq<u32>,
    pub rmap: Seq<RmapRec>,
    pub chunk: Option<u64>,
}

impl View for AgPlan {
    type V = AgPlanView;

    open spec fn view(&self) -> AgPlanView {
        AgPlanView {
            agno: self.agno,
            length: self.length,
            free: self.free@,
            agfl: self.agfl@,
            rmap: self.rmap@,
            chunk: self.chunk,
        }
    }
}

/// Total length of the extents.
pub open spec fn sum_counts(free: Seq<AllocRec>) -> int
    decreases free.len(),
{
    if free.len() == 0 {
        0
    } else {
        sum_counts(free.drop_last()) + free.last().count
    }
}

/// The longest extent's length, or 0.
pub open spec fn max_count(free: Seq<AllocRec>) -> int
    decreases free.len(),
{
    if free.len() == 0 {
        0
    } else {
        let m = max_count(free.drop_last());
        if free.last().count > m { free.last().count as int } else { m }
    }
}

proof fn lemma_sum_counts_nonneg(free: Seq<AllocRec>)
    ensures
        0 <= sum_counts(free),
{
    lemma_sum_counts_bound(free);
}

proof fn lemma_sum_counts_bound(free: Seq<AllocRec>)
    ensures
        0 <= sum_counts(free) <= free.len() * 0xffff_ffff,
    decreases free.len(),
{
    if free.len() > 0 {
        lemma_sum_counts_bound(free.drop_last());
    }
}

impl AgPlan {
    /// Free blocks in the free space btrees.
    pub fn freeblks(&self) -> (r: u64)
        requires
            self.free@.len() <= 0x1_0000_0000,
        ensures
            r == sum_counts(self.free@),
    {
        let mut total: u64 = 0;
        let mut i: usize = 0;
        while i < self.free.len()
            invariant
                i <= self.free@.len() <= 0x1_0000_0000,
                total == sum_counts(self.free@.subrange(0, i as int)),
            decreases self.free@.len() - i,
        {
            proof {
                let s = self.free@.subrange(0, i + 1);
                assert(s.drop_last() =~= self.free@.subrange(0, i as int));
                lemma_sum_counts_bound(self.free@.subrange(0, i as int));
                assert(i * 0xffff_ffff + 0xffff_ffff <= 0x1_0000_0000 * 0xffff_ffffu64) by (nonlinear_arith)
                    requires
                        i < 0x1_0000_0000,
                ;
            }
            total = total + self.free[i].count as u64;
            i += 1;
        }
        assert(self.free@.subrange(0, self.free@.len() as int) =~= self.free@);
        total
    }

    /// The longest free extent.
    pub fn longest(&self) -> (r: u64)
        ensures
            r == max_count(self.free@),
    {
        let mut best: u64 = 0;
        let mut i: usize = 0;
        while i < self.free.len()
            invariant
                i <= self.free@.len(),
                best == max_count(self.free@.subrange(0, i as int)),
                best <= 0xffff_ffff,
            decreases self.free@.len() - i,
        {
            proof {
                let s = self.free@.subrange(0, i + 1);
                assert(s.drop_last() =~= self.free@.subrange(0, i as int));
            }
            if self.free[i].count as u64 > best {
                best = self.free[i].count as u64;
            }
            i += 1;
        }
        assert(self.free@.subrange(0, self.free@.len() as int) =~= self.free@);
        best
    }
}

/// End of a reverse mapping, one past its last block.
pub open spec fn rmap_end(r: RmapRec) -> int {
    r.start + r.count
}

/// Mappings in order of first block, none running past 32 bits.
pub open spec fn rmap_ordered(rmap: Seq<RmapRec>) -> bool {
    &&& forall|i: int, j: int| 0 <= i < j < rmap.len() ==> rmap[i].start <= rmap[j].start
    &&& forall|i: int| 0 <= i < rmap.len() ==> rmap_end(#[trigger] rmap[i]) <= u32::MAX
}

/// How many leading mappings start before `s`: where `partition_point`
/// puts a mapping starting at `s` in an ordered list.
pub open spec fn lower_bound(rmap: Seq<RmapRec>, s: u32) -> int
    decreases rmap.len(),
{
    if rmap.len() == 0 {
        0
    } else if rmap[0].start < s {
        1 + lower_bound(rmap.drop_first(), s)
    } else {
        0
    }
}

/// `xfs_rmap_map` for a special owner: `rec` merged with a contiguous
/// neighbour of the same owner on either side, or inserted in order.
pub open spec fn spec_rmap_insert(rmap: Seq<RmapRec>, rec: RmapRec) -> Seq<RmapRec> {
    let pos = lower_bound(rmap, rec.start);
    let left = pos >= 1 && rmap[pos - 1].owner == rec.owner && rmap_end(rmap[pos - 1]) == rec.start;
    let right = pos < rmap.len() && rmap[pos].owner == rec.owner && rmap_end(rec) == rmap[pos].start;
    if left && right {
        let l = rmap[pos - 1];
        rmap.update(
            pos - 1,
            RmapRec { count: (l.count + rec.count + rmap[pos].count) as u32, ..l },
        ).remove(pos)
    } else if left {
        let l = rmap[pos - 1];
        rmap.update(pos - 1, RmapRec { count: (l.count + rec.count) as u32, ..l })
    } else if right {
        let r = rmap[pos];
        rmap.update(pos, RmapRec { start: rec.start, count: (r.count + rec.count) as u32, ..r })
    } else {
        rmap.insert(pos, rec)
    }
}

proof fn lemma_lower_bound(rmap: Seq<RmapRec>, s: u32)
    requires
        forall|i: int, j: int| 0 <= i < j < rmap.len() ==> rmap[i].start <= rmap[j].start,
    ensures
        0 <= lower_bound(rmap, s) <= rmap.len(),
        forall|i: int| 0 <= i < lower_bound(rmap, s) ==> rmap[i].start < s,
        forall|i: int| lower_bound(rmap, s) <= i < rmap.len() ==> rmap[i].start >= s,
    decreases rmap.len(),
{
    if rmap.len() > 0 && rmap[0].start < s {
        let t = rmap.drop_first();
        assert forall|i: int, j: int| 0 <= i < j < t.len() implies t[i].start <= t[j].start by {
            assert(t[i] == rmap[i + 1] && t[j] == rmap[j + 1]);
        }
        lemma_lower_bound(t, s);
        assert forall|i: int| 0 <= i < lower_bound(rmap, s) implies rmap[i].start < s by {
            if i > 0 {
                assert(rmap[i] == t[i - 1]);
            }
        }
        assert forall|i: int| lower_bound(rmap, s) <= i < rmap.len() implies rmap[i].start >= s by {
            assert(rmap[i] == t[i - 1]);
        }
    }
}

/// Insert a reverse mapping the way `xfs_rmap_map` does for a special
/// owner: merged with a contiguous neighbour of the same owner.
pub fn rmap_insert(rmap: &mut Vec<RmapRec>, rec: RmapRec)
    requires
        rmap_ordered(old(rmap)@),
        rmap_end(rec) <= u32::MAX,
    ensures
        final(rmap)@ == spec_rmap_insert(old(rmap)@, rec),
        rmap_ordered(final(rmap)@),
{
    let ghost r0 = rmap@;
    proof {
        lemma_lower_bound(r0, rec.start);
    }
    let mut pos: usize = 0;
    assert(r0.subrange(0, r0.len() as int) =~= r0);
    while pos < rmap.len() && rmap[pos].start < rec.start
        invariant
            pos <= rmap@.len(),
            rmap@ == r0,
            lower_bound(r0, rec.start) == pos + lower_bound(r0.subrange(pos as int, r0.len() as int), rec.start),
        decreases rmap@.len() - pos,
    {
        proof {
            let t = r0.subrange(pos as int, r0.len() as int);
            assert(t.drop_first() =~= r0.subrange(pos + 1, r0.len() as int));
        }
        pos += 1;
    }
    proof {
        let t = r0.subrange(pos as int, r0.len() as int);
        if pos < r0.len() {
            assert(t[0] == r0[pos as int]);
        }
        assert(lower_bound(r0, rec.start) == pos);
    }
    let left = pos >= 1 && rmap[pos - 1].owner == rec.owner && rmap[pos - 1].start as u64
        + rmap[pos - 1].count as u64 == rec.start as u64;
    let right = pos < rmap.len() && rmap[pos].owner == rec.owner && rec.start as u64 + rec.count as u64
        == rmap[pos].start as u64;
    if left && right {
        let l = rmap[pos - 1];
        let r = rmap[pos];
        rmap.set(pos - 1, RmapRec { count: l.count + rec.count + r.count, ..l });
        rmap.remove(pos);
    } else if left {
        let l = rmap[pos - 1];
        rmap.set(pos - 1, RmapRec { count: l.count + rec.count, ..l });
    } else if right {
        let r = rmap[pos];
        rmap.set(pos, RmapRec { start: rec.start, count: r.count + rec.count, ..r });
    } else {
        rmap.insert(pos, rec);
    }
    proof {
        assert(rmap@ =~= spec_rmap_insert(r0, rec));
        lemma_rmap_insert_ordered(r0, rec);
    }
}

proof fn lemma_rmap_insert_ordered(r0: Seq<RmapRec>, rec: RmapRec)
    requires
        rmap_ordered(r0),
        rmap_end(rec) <= u32::MAX,
    ensures
        rmap_ordered(spec_rmap_insert(r0, rec)),
{
    lemma_lower_bound(r0, rec.start);
    let pos = lower_bound(r0, rec.start);
    let n = spec_rmap_insert(r0, rec);
    let left = pos >= 1 && r0[pos - 1].owner == rec.owner && rmap_end(r0[pos - 1]) == rec.start;
    let right = pos < r0.len() && r0[pos].owner == rec.owner && rmap_end(rec) == r0[pos].start;
    if left && right {
        assert forall|i: int, j: int| 0 <= i < j < n.len() implies n[i].start <= n[j].start by {
            let ii = if i < pos { i } else { i + 1 };
            let jj = if j < pos { j } else { j + 1 };
            assert(n[i].start == r0[ii].start);
            assert(n[j].start == r0[jj].start);
        }
        assert forall|i: int| 0 <= i < n.len() implies rmap_end(#[trigger] n[i]) <= u32::MAX by {
            if i != pos - 1 {
                let ii = if i < pos { i } else { i + 1 };
                assert(n[i] == r0[ii]);
            }
        }
    } else if left {
        assert forall|i: int| 0 <= i < n.len() implies rmap_end(#[trigger] n[i]) <= u32::MAX by {
            if i != pos - 1 {
                assert(n[i] == r0[i]);
            }
        }
    } else if right {
        assert forall|i: int, j: int| 0 <= i < j < n.len() implies n[i].start <= n[j].start by {
            assert(n[i].start == r0[i].start || i == pos);
            assert(n[j].start == r0[j].start || j == pos);
        }
        assert forall|i: int| 0 <= i < n.len() implies rmap_end(#[trigger] n[i]) <= u32::MAX by {
            if i != pos {
                assert(n[i] == r0[i]);
            }
        }
    } else {
        assert forall|i: int, j: int| 0 <= i < j < n.len() implies n[i].start <= n[j].start by {
            let ii = if i < pos { i } else { i - 1 };
            let jj = if j < pos { j } else { j - 1 };
            if i != pos {
                assert(n[i] == r0[ii]);
            }
            if j != pos {
                assert(n[j] == r0[jj]);
            }
        }
        assert forall|i: int| 0 <= i < n.len() implies rmap_end(#[trigger] n[i]) <= u32::MAX by {
            if i != pos {
                let ii = if i < pos { i } else { i - 1 };
                assert(n[i] == r0[ii]);
            }
        }
    }
}


/// End of a free extent, one past its last block.
pub open spec fn alloc_end(r: AllocRec) -> int {
    r.start + r.count
}

/// Extent `r` holds all of `[start, start + len)`.
pub open spec fn holds(r: AllocRec, start: int, len: int) -> bool {
    r.start <= start && start + len <= alloc_end(r)
}

/// Index of the first extent that holds `[start, start + len)`, or the
/// list's length.
pub open spec fn first_holding(free: Seq<AllocRec>, start: int, len: int) -> int
    decreases free.len(),
{
    if free.len() == 0 {
        0
    } else if holds(free[0], start, len) {
        0
    } else {
        1 + first_holding(free.drop_first(), start, len)
    }
}

/// `[start, start + len)` taken out of the free extents: the first extent
/// holding it is replaced by what is left on either side, or `None` if no
/// extent holds it.
pub open spec fn spec_take(free: Seq<AllocRec>, start: int, len: int) -> Option<Seq<AllocRec>> {
    let i = first_holding(free, start, len);
    if i >= free.len() {
        None
    } else {
        let r = free[i];
        let left = if start > r.start {
            seq![AllocRec { start: r.start, count: (start - r.start) as u32 }]
        } else {
            Seq::empty()
        };
        let right = if start + len < alloc_end(r) {
            seq![AllocRec { start: (start + len) as u32, count: (alloc_end(r) - start - len) as u32 }]
        } else {
            Seq::empty()
        };
        Some(free.subrange(0, i) + left + right + free.subrange(i + 1, free.len() as int))
    }
}

proof fn lemma_first_holding(free: Seq<AllocRec>, start: int, len: int)
    ensures
        0 <= first_holding(free, start, len) <= free.len(),
        first_holding(free, start, len) < free.len() ==> holds(free[first_holding(free, start, len)], start, len),
        forall|k: int| 0 <= k < first_holding(free, start, len) ==> !holds(#[trigger] free[k], start, len),
    decreases free.len(),
{
    if free.len() > 0 && !holds(free[0], start, len) {
        let t = free.drop_first();
        lemma_first_holding(t, start, len);
        assert forall|k: int| 0 <= k < first_holding(free, start, len) implies !holds(#[trigger] free[k], start, len) by {
            if k > 0 {
                assert(free[k] == t[k - 1]);
            }
        }
    }
}

/// Take `[start, start + len)` out of the free extents.
pub fn take(free: &mut Vec<AllocRec>, start: u64, len: u64) -> (r: Result<(), Error>)
    requires
        start + len <= u64::MAX,
    ensures
        match r {
            Ok(()) => spec_take(old(free)@, start as int, len as int) == Some(final(free)@),
            Err(e) => spec_take(old(free)@, start as int, len as int) is None && e is InvalidParams
                && final(free)@ == old(free)@,
        },
{
    let ghost f0 = free@;
    proof {
        lemma_first_holding(f0, start as int, len as int);
    }
    let mut i: usize = 0;
    assert(f0.subrange(0, f0.len() as int) =~= f0);
    while i < free.len() && !(free[i].start as u64 <= start && start + len <= free[i].start as u64
        + free[i].count as u64)
        invariant
            i <= free@.len(),
            free@ == f0,
            start + len <= u64::MAX,
            first_holding(f0, start as int, len as int) == i + first_holding(
                f0.subrange(i as int, f0.len() as int),
                start as int,
                len as int,
            ),
        decreases free@.len() - i,
    {
        proof {
            let t = f0.subrange(i as int, f0.len() as int);
            assert(t.drop_first() =~= f0.subrange(i + 1, f0.len() as int));
        }
        i += 1;
    }
    proof {
        if i < f0.len() {
            let t = f0.subrange(i as int, f0.len() as int);
            assert(t[0] == f0[i as int]);
        }
    }
    if i == free.len() {
        return Err(Error::InvalidParams(message2("blocks ", start, "+", len, " are not free")));
    }
    let r = free.remove(i);
    let rs = r.start as u64;
    let re = r.start as u64 + r.count as u64;
    let mut at = i;
    if start > rs {
        free.insert(at, AllocRec { start: rs as u32, count: (start - rs) as u32 });
        at += 1;
    }
    if start + len < re {
        free.insert(at, AllocRec { start: (start + len) as u32, count: (re - start - len) as u32 });
    }
    proof {
        assert(free@ =~= spec_take(f0, start as int, len as int)->Some_0);
    }
    Ok(())
}

/// `(count, start)` of `a` is below that of `b`.
pub open spec fn size_key_lt(a: AllocRec, b: AllocRec) -> bool {
    a.count < b.count || (a.count == b.count && a.start < b.start)
}

/// The smallest extent, by `(count, start)`, of the first `n` that hold at
/// least `want` blocks; the first of equals.
pub open spec fn best_fit(free: Seq<AllocRec>, want: int, n: int) -> Option<AllocRec>
    decreases n,
{
    if n <= 0 {
        None
    } else {
        let prev = best_fit(free, want, n - 1);
        let r = free[n - 1];
        if r.count >= want && (prev is None || size_key_lt(r, prev->Some_0)) {
            Some(r)
        } else {
            prev
        }
    }
}

/// The largest extent of the first `n`, by `(count, Reverse(start))`; the
/// last of equals.
pub open spec fn largest(free: Seq<AllocRec>, n: int) -> Option<AllocRec>
    decreases n,
{
    if n <= 0 {
        None
    } else {
        let prev = largest(free, n - 1);
        let r = free[n - 1];
        if prev is None || r.count > prev->Some_0.count || (r.count == prev->Some_0.count
            && r.start <= prev->Some_0.start) {
            Some(r)
        } else {
            prev
        }
    }
}

/// What `xfs_alloc_fix_freelist` allocates next: the smallest extent that
/// holds what is still needed, or else the largest.
pub open spec fn pick(free: Seq<AllocRec>, want: int) -> Option<AllocRec> {
    match best_fit(free, want, free.len() as int) {
        Some(r) => Some(r),
        None => largest(free, free.len() as int),
    }
}

proof fn lemma_picks_member(free: Seq<AllocRec>, want: int, n: int)
    requires
        0 <= n <= free.len(),
    ensures
        best_fit(free, want, n) matches Some(r) ==> exists|k: int| 0 <= k < n && free[k] == r,
        best_fit(free, want, n) matches Some(r) ==> r.count >= want,
        largest(free, n) matches Some(r) ==> exists|k: int| 0 <= k < n && free[k] == r,
        n > 0 ==> largest(free, n) is Some,
    decreases n,
{
    if n > 0 {
        lemma_picks_member(free, want, n - 1);
    }
}

fn pick_extent(free: &Vec<AllocRec>, want: u64) -> (r: Option<AllocRec>)
    ensures
        r == pick(free@, want as int),
{
    let mut best: Option<AllocRec> = None;
    let mut i: usize = 0;
    while i < free.len()
        invariant
            i <= free@.len(),
            best == best_fit(free@, want as int, i as int),
        decreases free@.len() - i,
    {
        let r = free[i];
        let better = match best {
            None => true,
            Some(b) => r.count < b.count || (r.count == b.count && r.start < b.start),
        };
        if r.count as u64 >= want && better {
            best = Some(r);
        }
        i += 1;
    }
    if best.is_some() {
        return best;
    }
    let mut big: Option<AllocRec> = None;
    let mut i: usize = 0;
    while i < free.len()
        invariant
            i <= free@.len(),
            big == largest(free@, i as int),
        decreases free@.len() - i,
    {
        let r = free[i];
        let better = match big {
            None => true,
            Some(b) => r.count > b.count || (r.count == b.count && r.start <= b.start),
        };
        if better {
            big = Some(r);
        }
        i += 1;
    }
    big
}


/// Every extent holds at least one block and ends by `bound`.
pub open spec fn extents_within(free: Seq<AllocRec>, bound: int) -> bool {
    forall|k: int| 0 <= k < free.len() ==> #[trigger] free[k].count >= 1 && alloc_end(free[k]) <= bound
}

proof fn lemma_take_within(free: Seq<AllocRec>, start: int, len: int, bound: int)
    requires
        extents_within(free, bound),
        len >= 1,
        start >= 0,
        spec_take(free, start, len) is Some,
    ensures
        extents_within(spec_take(free, start, len)->Some_0, bound),
{
    lemma_first_holding(free, start, len);
    let i = first_holding(free, start, len);
    let f2 = spec_take(free, start, len)->Some_0;
    let r = free[i];
    assert(r.count >= 1 && alloc_end(r) <= bound);
    assert forall|k: int| 0 <= k < f2.len() implies #[trigger] f2[k].count >= 1 && alloc_end(f2[k]) <= bound by {
        let nl: int = if start > r.start { 1 } else { 0 };
        let nr: int = if start + len < alloc_end(r) { 1 } else { 0 };
        if k < i {
            assert(f2[k] == free[k]);
        } else if k >= i + nl + nr {
            assert(f2[k] == free[k - nl - nr + 1]);
        }
    }
}

/// `xfs_alloc_fix_freelist`: allocate by size — the smallest extent that
/// holds what is still needed, from its start — until the free list holds
/// `need` blocks. `None` where no space is left.
pub open spec fn fill_freelist(
    free: Seq<AllocRec>,
    agfl: Seq<u32>,
    rmap: Seq<RmapRec>,
    need: int,
    rmapbt: bool,
) -> Option<(Seq<AllocRec>, Seq<u32>, Seq<RmapRec>)>
    decreases need - agfl.len(),
{
    if agfl.len() >= need {
        Some((free, agfl, rmap))
    } else {
        let want = need - agfl.len();
        match pick(free, want) {
            None => None,
            Some(p) => {
                let len = if want <= p.count { want } else { p.count as int };
                if len <= 0 {
                    None
                } else {
                    match spec_take(free, p.start as int, len) {
                        None => None,
                        Some(free2) => fill_freelist(
                            free2,
                            agfl + Seq::new(len as nat, |i: int| (p.start + i) as u32),
                            if rmapbt {
                                spec_rmap_insert(
                                    rmap,
                                    RmapRec { start: p.start, count: len as u32, owner: owner::AG },
                                )
                            } else {
                                rmap
                            },
                            need,
                            rmapbt,
                        ),
                    }
                }
            },
        }
    }
}

/// `xfs_freesp_init_recs`: everything after the preallocated blocks is
/// free, less the log in its AG.
pub open spec fn initial_free(g: GeometryView, agno: int) -> Seq<AllocRec> {
    let length = g.ag_blocks(agno);
    let p = g.prealloc_blocks();
    if agno == g.logagno {
        let ls = g.log_agbno as int;
        let le = ls + g.logblocks;
        (if ls > p {
            seq![AllocRec { start: p as u32, count: (ls - p) as u32 }]
        } else {
            Seq::empty()
        }) + (if le < length {
            seq![AllocRec { start: le as u32, count: (length - le) as u32 }]
        } else {
            Seq::empty()
        })
    } else {
        seq![AllocRec { start: p as u32, count: (length - p) as u32 }]
    }
}

/// `xfs_rmaproot_init`: the static reverse mappings, and the log's in its
/// AG (none without rmapbt).
pub open spec fn initial_rmap(g: GeometryView, agno: int) -> Seq<RmapRec> {
    let f = g.features;
    if f.rmapbt {
        seq![
            RmapRec { start: 0, count: g.bno_block() as u32, owner: owner::FS },
            RmapRec { start: g.bno_block() as u32, count: 2, owner: owner::AG },
            RmapRec {
                start: g.ibt_block() as u32,
                count: (g.rmap_block() - g.ibt_block()) as u32,
                owner: owner::INOBT,
            },
            RmapRec { start: g.rmap_block() as u32, count: 1, owner: owner::AG },
        ] + (if f.reflink {
            seq![RmapRec { start: g.refc_block() as u32, count: 1, owner: owner::REFC }]
        } else {
            Seq::empty()
        }) + (if agno == g.logagno {
            seq![RmapRec { start: g.log_agbno as u32, count: g.logblocks as u32, owner: owner::LOG }]
        } else {
            Seq::empty()
        })
    } else {
        Seq::empty()
    }
}

/// The end state of allocation group `agno`: free extents, free list and
/// reverse mappings after the free list is filled and, in AG 0, the root
/// inode chunk is allocated; `None` where there is no room for either.
pub open spec fn spec_plan_ag(g: GeometryView, agno: int) -> Option<(Seq<AllocRec>, Seq<u32>, Seq<RmapRec>, Option<u64>)> {
    let rmapbt = g.features.rmapbt;
    match fill_freelist(initial_free(g, agno), Seq::empty(), initial_rmap(g, agno), g.min_freelist(), rmapbt) {
        None => None,
        Some((free, agfl, rmap)) => if agno == 0 {
            let at = g.root_chunk_agbno();
            match spec_take(free, at, g.chunk_blocks()) {
                None => None,
                Some(free2) => Some(
                    (
                        free2,
                        agfl,
                        if rmapbt {
                            spec_rmap_insert(
                                rmap,
                                RmapRec { start: at as u32, count: g.chunk_blocks() as u32, owner: owner::INODES },
                            )
                        } else {
                            rmap
                        },
                        Some(at as u64),
                    ),
                ),
            }
        } else {
            Some((free, agfl, rmap, None))
        },
    }
}

/// An AG that `plan_ag` can lay out: it exists, and holds more than its
/// headers and btree roots.
pub open spec fn plannable(g: GeometryView, agno: int) -> bool {
    &&& 0 <= agno < g.agcount
    &&& agno == g.agcount - 1 ==> agno * g.agsize <= g.dblocks
    &&& g.ag_blocks(agno) > g.prealloc_blocks()
}

/// Fill the free list from the free extents, as `xfs_alloc_fix_freelist`
/// does, recording each allocation in the reverse mappings.
fn fill_freelist_exec(
    free: &mut Vec<AllocRec>,
    rmap: &mut Vec<RmapRec>,
    need: u64,
    rmapbt: bool,
    length: u64,
    agno: u64,
) -> (r: Result<Vec<u32>, Error>)
    requires
        need <= 6,
        length < 0x4000_0000,
        extents_within(old(free)@, length as int),
        rmap_ordered(old(rmap)@),
    ensures
        match r {
            Ok(agfl) => {
                &&& fill_freelist(old(free)@, Seq::empty(), old(rmap)@, need as int, rmapbt) == Some(
                    (final(free)@, agfl@, final(rmap)@),
                )
                &&& extents_within(final(free)@, length as int)
                &&& rmap_ordered(final(rmap)@)
            },
            Err(e) => fill_freelist(old(free)@, Seq::empty(), old(rmap)@, need as int, rmapbt) is None
                && e is InvalidParams,
        },
{
    let mut agfl: Vec<u32> = Vec::new();
    let ghost free0 = free@;
    let ghost rmap0 = rmap@;
    assert(free0 == old(free)@ && rmap0 == old(rmap)@);
    while (agfl.len() as u64) < need
        invariant
            need <= 6,
            agfl@.len() <= need,
            length < 0x4000_0000,
            extents_within(free@, length as int),
            rmap_ordered(rmap@),
            free0 == old(free)@,
            rmap0 == old(rmap)@,
            fill_freelist(free@, agfl@, rmap@, need as int, rmapbt) == fill_freelist(
                free0,
                Seq::empty(),
                rmap0,
                need as int,
                rmapbt,
            ),
        decreases need - agfl@.len(),
    {
        let want = need - agfl.len() as u64;
        let picked = pick_extent(free, want);
        let pk = match picked {
            Some(pk) => pk,
            None => {
                assert(fill_freelist(free@, agfl@, rmap@, need as int, rmapbt) is None);
                assert(fill_freelist(free0, Seq::<u32>::empty(), rmap0, need as int, rmapbt) is None);
                return Err(Error::InvalidParams(message1("AG ", agno, " has no space for its free list")));
            },
        };
        proof {
            lemma_picks_member(free@, want as int, free@.len() as int);
            let k = choose|k: int| 0 <= k < free@.len() && free@[k] == pk;
            assert(free@[k].count >= 1);
        }
        let len = if want <= pk.count as u64 { want } else { pk.count as u64 };
        let ghost agfl_before = agfl@;
        let ghost free_before = free@;
        let ghost rmap_before = rmap@;
        match take(free, pk.start as u64, len) {
            Ok(()) => {},
            Err(e) => {
                assert(fill_freelist(free_before, agfl_before, rmap_before, need as int, rmapbt) is None);
                assert(fill_freelist(free0, Seq::<u32>::empty(), rmap0, need as int, rmapbt) is None);
                return Err(e);
            },
        }
        proof {
            lemma_take_within(free_before, pk.start as int, len as int, length as int);
        }
        let mut i: u64 = 0;
        while i < len
            invariant
                i <= len,
                len <= 6,
                pk.start + len <= u32::MAX,
                agfl@ == agfl_before + Seq::new(i as nat, |j: int| (pk.start + j) as u32),
            decreases len - i,
        {
            agfl.push(pk.start + i as u32);
            i += 1;
            assert(agfl@ =~= agfl_before + Seq::new(i as nat, |j: int| (pk.start + j) as u32));
        }
        if rmapbt {
            rmap_insert(rmap, RmapRec { start: pk.start, count: len as u32, owner: owner::AG });
        }
        assert(fill_freelist(free_before, agfl_before, rmap_before, need as int, rmapbt) == fill_freelist(
            free@,
            agfl@,
            rmap@,
            need as int,
            rmapbt,
        ));
    }
    Ok(agfl)
}

/// The free extents and reverse mappings an AG starts with.
fn initial_lists(g: &Geometry, agno: u64) -> (r: (Vec<AllocRec>, Vec<RmapRec>))
    requires
        g@.wf(),
        plannable(g@, agno as int),
    ensures
        r.0@ == initial_free(g@, agno as int),
        r.1@ == initial_rmap(g@, agno as int),
        extents_within(r.0@, g@.ag_blocks(agno as int)),
        rmap_ordered(r.1@),
        g@.ag_blocks(agno as int) < 0x4000_0000,
{
    proof {
        crate::geometry::lemma_wf_sizes(g@);
        lemma_ag_blocks_bound(g@, agno as int);
    }
    let length = g.ag_blocks(agno);
    let p = g.prealloc_blocks();
    let f = g.features;
    let mut free: Vec<AllocRec> = Vec::new();
    let mut rmap: Vec<RmapRec> = Vec::new();
    // xfs_rmaproot_init: the static records, written as they are.
    if f.rmapbt {
        rmap.push(RmapRec { start: 0, count: g.bno_block() as u32, owner: owner::FS });
        rmap.push(RmapRec { start: g.bno_block() as u32, count: 2, owner: owner::AG });
        rmap.push(
            RmapRec {
                start: g.ibt_block() as u32,
                count: (g.rmap_block() - g.ibt_block()) as u32,
                owner: owner::INOBT,
            },
        );
        rmap.push(RmapRec { start: g.rmap_block() as u32, count: 1, owner: owner::AG });
        if f.reflink {
            rmap.push(RmapRec { start: g.refc_block() as u32, count: 1, owner: owner::REFC });
        }
    }
    if agno == g.logagno {
        let ls = g.log_agbno;
        let le = g.log_agbno + g.logblocks;
        if ls > p {
            free.push(AllocRec { start: p as u32, count: (ls - p) as u32 });
        }
        if le < length {
            free.push(AllocRec { start: le as u32, count: (length - le) as u32 });
        }
        if f.rmapbt {
            rmap.push(RmapRec { start: ls as u32, count: g.logblocks as u32, owner: owner::LOG });
        }
    } else {
        free.push(AllocRec { start: p as u32, count: (length - p) as u32 });
    }
    assert(free@ =~= initial_free(g@, agno as int));
    assert(rmap@ =~= initial_rmap(g@, agno as int));
    (free, rmap)
}

proof fn lemma_ag_blocks_bound(g: GeometryView, agno: int)
    requires
        g.wf(),
        plannable(g, agno),
    ensures
        g.ag_blocks(agno) <= g.agsize,
{
    if agno == g.agcount - 1 {
        assert(g.dblocks - agno * g.agsize <= g.agsize) by (nonlinear_arith)
            requires
                g.dblocks <= g.agcount * g.agsize,
                agno == g.agcount - 1,
        ;
    }
}

/// The end state of allocation group `agno` after `mkfs.xfs`'s header
/// initialisation (`xfs_ag_init_headers`), freelist fill
/// (`xfs_alloc_fix_freelist`) and, in AG 0, root inode chunk allocation.
pub fn plan_ag(g: &Geometry, agno: u64) -> (r: Result<AgPlan, Error>)
    requires
        g@.wf(),
        plannable(g@, agno as int),
    ensures
        match r {
            Ok(plan) => {
                &&& plan.agno == agno
                &&& plan.length == g@.ag_blocks(agno as int)
                &&& spec_plan_ag(g@, agno as int) == Some((plan.free@, plan.agfl@, plan.rmap@, plan.chunk))
            },
            Err(e) => spec_plan_ag(g@, agno as int) is None && e is InvalidParams,
        },
{
    proof {
        crate::geometry::lemma_wf_sizes(g@);
    }
    let length = g.ag_blocks(agno);
    let f = g.features;
    let (mut free, mut rmap) = initial_lists(g, agno);
    // xfs_alloc_fix_freelist: allocate by size — the smallest extent that
    // holds what is still needed, from its start — until the list is full.
    let agfl = fill_freelist_exec(&mut free, &mut rmap, g.min_freelist(), f.rmapbt, length, agno)?;
    // The root inode chunk, where xfs_ialloc_calc_rootino says it must be.
    let chunk = if agno == 0 {
        let at = g.root_chunk_agbno();
        let cb = g.chunk_blocks();
        proof {
            assert(cb <= 128) by {
                vstd::arithmetic::div_mod::lemma_div_is_ordered(
                    64 * g.inodesize,
                    64 * 2048int,
                    g.blocksize as int,
                );
                vstd::arithmetic::div_mod::lemma_div_is_ordered_by_denominator(64 * 2048int, 1024, g.blocksize as int);
            }
        }
        match take(&mut free, at, cb) {
            Ok(()) => {},
            Err(_) => {
                return Err(
                    Error::InvalidParams(message1("the root inode chunk at block ", at, " of AG 0 is not free")),
                );
            },
        }
        if f.rmapbt {
            rmap_insert(&mut rmap, RmapRec { start: at as u32, count: cb as u32, owner: owner::INODES });
        }
        Some(at)
    } else {
        None
    };
    Ok(AgPlan { agno, length, free, agfl, rmap, chunk })
}

} // verus!
