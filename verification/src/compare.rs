//! Diff two XFS filesystems, field by field.
//!
//! Every key present in either dump is compared. A difference is judged by
//! the field's [`Class`]: only [`Class::Substantive`] differences mean the
//! filesystems differ — the UUID and the random or clock-derived values do
//! not. A field one side lacks is substantive whatever it holds.
pub mod index;

use vstd::prelude::*;
use crate::compare::index::{index, index_view, keyed, place, EntryView, Rel};
use crate::device::BlockDevice;
use crate::error::Error;
use crate::inspect::whole::{dump, spec_dump};
use crate::inspect::{Class, Dump, FieldView};
use crate::text::{append, chars_of, string_of};

verus! {

/// One field that differs.
#[derive(Debug, Clone)]
pub struct Difference {
    /// The field.
    pub key: String,
    /// Our value, or `None` if we lack the field.
    pub ours: Option<String>,
    /// Their value, or `None` if they lack it.
    pub theirs: Option<String>,
    /// How the difference is judged.
    pub class: Class,
}

/// A difference as its key, the two values, and its class.
pub type DifferenceView = (Seq<char>, Option<Seq<char>>, Option<Seq<char>>, Class);

/// A string's text, where there is one.
pub open spec fn opt_view(v: Option<String>) -> Option<Seq<char>> {
    match v {
        Some(s) => Some(s@),
        None => None,
    }
}

impl View for Difference {
    type V = DifferenceView;

    open spec fn view(&self) -> DifferenceView {
        (self.key@, opt_view(self.ours), opt_view(self.theirs), self.class)
    }
}

/// A class's name.
pub open spec fn class_name(c: Class) -> Seq<char> {
    match c {
        Class::Substantive => "Structural"@,
        Class::Identity => "Identity"@,
        Class::Incidental => "Incidental"@,
    }
}

/// A value, or `<absent>` where a side lacks the field.
pub open spec fn shown(v: Option<Seq<char>>) -> Seq<char> {
    match v {
        Some(s) => s,
        None => "<absent>"@,
    }
}

/// A difference as one line: class, key, and both values.
pub open spec fn difference_text(d: DifferenceView) -> Seq<char> {
    class_name(d.3) + seq![' '] + d.0 + ": ours "@ + shown(d.1) + " theirs "@ + shown(d.2)
}

fn push_shown(out: &mut Vec<char>, v: &Option<String>)
    ensures
        final(out)@ == old(out)@ + shown(opt_view(*v)),
{
    match v {
        Some(s) => append(out, chars_of(s.as_str()).as_slice()),
        None => append(out, chars_of("<absent>").as_slice()),
    }
}

impl Difference {
    /// The difference as one line: its class, key, and both values.
    pub fn text(&self) -> (s: String)
        ensures
            s@ == difference_text(self@),
    {
        let mut out: Vec<char> = match self.class {
            Class::Substantive => chars_of("Structural"),
            Class::Identity => chars_of("Identity"),
            Class::Incidental => chars_of("Incidental"),
        };
        out.push(' ');
        append(&mut out, chars_of(self.key.as_str()).as_slice());
        append(&mut out, chars_of(": ours ").as_slice());
        push_shown(&mut out, &self.ours);
        append(&mut out, chars_of(" theirs ").as_slice());
        push_shown(&mut out, &self.theirs);
        assert(out@ =~= difference_text(self@));
        string_of(out.as_slice())
    }
}

/// The differences as views.
pub open spec fn diffs_view(v: Seq<Difference>) -> Seq<DifferenceView> {
    v.map_values(|x: Difference| x@)
}

/// The value and class the field `k` has in `fields`: the last field with
/// that key holds it.
pub open spec fn lookup(fields: Seq<FieldView>, k: Seq<char>) -> Option<(Seq<char>, Class)>
    decreases fields.len(),
{
    if fields.len() == 0 {
        None
    } else if fields.last().0 == k {
        Some((fields.last().1, fields.last().2))
    } else {
        lookup(fields.drop_last(), k)
    }
}

/// The value a lookup found.
pub open spec fn value_of(v: Option<(Seq<char>, Class)>) -> Option<Seq<char>> {
    match v {
        Some(x) => Some(x.0),
        None => None,
    }
}

/// The difference at key `k`: the class is ours where both sides hold the
/// field, substantive where one lacks it.
pub open spec fn difference_at(ours: Seq<FieldView>, theirs: Seq<FieldView>, k: Seq<char>) -> DifferenceView {
    let x = lookup(ours, k);
    let y = lookup(theirs, k);
    let class = if x is Some && y is Some {
        x.unwrap().1
    } else {
        Class::Substantive
    };
    (k, value_of(x), value_of(y), class)
}

/// The two dumps disagree on key `k`: one lacks it, or the values differ.
pub open spec fn differs(ours: Seq<FieldView>, theirs: Seq<FieldView>, k: Seq<char>) -> bool {
    value_of(lookup(ours, k)) != value_of(lookup(theirs, k))
}

/// `a` sorts before `b`, character by character, a prefix first: the order
/// of `str`.
pub open spec fn key_lt(a: Seq<char>, b: Seq<char>) -> bool
    decreases a.len(),
{
    if b.len() == 0 {
        false
    } else if a.len() == 0 {
        true
    } else if a[0] != b[0] {
        (a[0] as int) < (b[0] as int)
    } else {
        key_lt(a.drop_first(), b.drop_first())
    }
}

/// `r` is every difference between the dumps, once each, in key order.
pub open spec fn is_diff(ours: Seq<FieldView>, theirs: Seq<FieldView>, r: Seq<DifferenceView>) -> bool {
    &&& forall|i: int, j: int| 0 <= i < j < r.len() ==> key_lt(#[trigger] r[i].0, #[trigger] r[j].0)
    &&& forall|i: int| 0 <= i < r.len() ==> differs(ours, theirs, #[trigger] r[i].0) && r[i] == difference_at(
        ours,
        theirs,
        r[i].0,
    )
    &&& forall|k: Seq<char>| #[trigger] differs(ours, theirs, k) ==> exists|i: int| 0 <= i < r.len() && r[i].0 == k
}

/// No key sorts before itself.
pub proof fn lemma_lt_irreflexive(a: Seq<char>)
    ensures
        !key_lt(a, a),
    decreases a.len(),
{
    if a.len() > 0 {
        lemma_lt_irreflexive(a.drop_first());
    }
}

/// The order is transitive.
pub proof fn lemma_lt_transitive(a: Seq<char>, b: Seq<char>, c: Seq<char>)
    requires
        key_lt(a, b),
        key_lt(b, c),
    ensures
        key_lt(a, c),
    decreases a.len(),
{
    if a.len() > 0 && b.len() > 0 && c.len() > 0 && a[0] == b[0] && b[0] == c[0] {
        lemma_lt_transitive(a.drop_first(), b.drop_first(), c.drop_first());
    }
}

/// Of two different keys, one sorts before the other.
pub proof fn lemma_lt_total(a: Seq<char>, b: Seq<char>)
    requires
        a != b,
    ensures
        key_lt(a, b) || key_lt(b, a),
    decreases a.len(),
{
    if a.len() > 0 && b.len() > 0 && a[0] == b[0] {
        if a.drop_first() == b.drop_first() {
            assert(a =~= seq![a[0]] + a.drop_first());
            assert(b =~= seq![b[0]] + b.drop_first());
        }
        lemma_lt_total(a.drop_first(), b.drop_first());
    } else if a.len() > 0 && b.len() > 0 {
        assert((a[0] as int) != (b[0] as int));
    } else if a.len() == 0 && b.len() == 0 {
        assert(a =~= b);
    }
}

/// The order is asymmetric.
pub proof fn lemma_lt_asymmetric(a: Seq<char>, b: Seq<char>)
    requires
        key_lt(a, b),
    ensures
        !key_lt(b, a),
{
    if key_lt(b, a) {
        lemma_lt_transitive(a, b, a);
        lemma_lt_irreflexive(a);
    }
}

proof fn lemma_absent(fields: Seq<FieldView>, e: Seq<EntryView>, k: Seq<char>, j: int)
    requires
        keyed(fields, e),
        0 <= j <= e.len(),
        forall|y: int| 0 <= y < j ==> key_lt(#[trigger] e[y].0, k),
        j < e.len() ==> key_lt(k, e[j].0),
    ensures
        lookup(fields, k) is None,
{
    if lookup(fields, k) is Some {
        let y = choose|y: int| 0 <= y < e.len() && e[y].0 == k;
        lemma_lt_irreflexive(k);
        if y > j {
            lemma_lt_transitive(k, e[j].0, e[y].0);
        }
    }
}

/// The invariant of a merge of the entries `a` and `b` that has taken the
/// first `i` of `a` and the first `j` of `b` and emitted `r`.
pub open spec fn merged(
    ours: Seq<FieldView>,
    theirs: Seq<FieldView>,
    a: Seq<EntryView>,
    b: Seq<EntryView>,
    i: int,
    j: int,
    r: Seq<DifferenceView>,
) -> bool {
    &&& keyed(ours, a)
    &&& keyed(theirs, b)
    &&& 0 <= i <= a.len()
    &&& 0 <= j <= b.len()
    &&& forall|x: int, y: int| i <= x < a.len() && 0 <= y < j ==> key_lt(#[trigger] b[y].0, #[trigger] a[x].0)
    &&& forall|x: int, y: int| 0 <= x < i && j <= y < b.len() ==> key_lt(#[trigger] a[x].0, #[trigger] b[y].0)
    &&& forall|p: int, q: int| 0 <= p < q < r.len() ==> key_lt(#[trigger] r[p].0, #[trigger] r[q].0)
    &&& forall|p: int| 0 <= p < r.len() ==> differs(ours, theirs, #[trigger] r[p].0) && r[p] == difference_at(
        ours,
        theirs,
        r[p].0,
    )
    &&& forall|p: int, x: int| 0 <= p < r.len() && i <= x < a.len() ==> key_lt(#[trigger] r[p].0, #[trigger] a[x].0)
    &&& forall|p: int, y: int| 0 <= p < r.len() && j <= y < b.len() ==> key_lt(#[trigger] r[p].0, #[trigger] b[y].0)
    &&& forall|x: int| 0 <= x < i && #[trigger] differs(ours, theirs, a[x].0) ==> exists|p: int|
        0 <= p < r.len() && r[p].0 == a[x].0
    &&& forall|y: int| 0 <= y < j && #[trigger] differs(ours, theirs, b[y].0) ==> exists|p: int|
        0 <= p < r.len() && r[p].0 == b[y].0
}

proof fn lemma_merged_done(
    ours: Seq<FieldView>,
    theirs: Seq<FieldView>,
    a: Seq<EntryView>,
    b: Seq<EntryView>,
    r: Seq<DifferenceView>,
)
    requires
        merged(ours, theirs, a, b, a.len() as int, b.len() as int, r),
    ensures
        is_diff(ours, theirs, r),
{
    assert forall|k: Seq<char>| #[trigger] differs(ours, theirs, k) implies exists|i: int| 0 <= i < r.len() && r[i].0 == k by {
        if lookup(ours, k) is Some {
            let x = choose|x: int| 0 <= x < a.len() && a[x].0 == k;
            assert(differs(ours, theirs, a[x].0));
        } else {
            assert(lookup(theirs, k) is Some);
            let y = choose|y: int| 0 <= y < b.len() && b[y].0 == k;
            assert(differs(ours, theirs, b[y].0));
        }
    }
}

fn some_text(v: &Vec<char>) -> (r: Option<String>)
    ensures
        opt_view(r) == Some(v@),
{
    Some(string_of(v.as_slice()))
}

/// Every difference between two dumps, in key order.
#[verifier::spinoff_prover]
pub fn diff(ours: &Dump, theirs: &Dump) -> (r: Vec<Difference>)
    ensures
        is_diff(ours@, theirs@, diffs_view(r@)),
{
    let a = index(ours);
    let b = index(theirs);
    let ghost av = index_view(a@);
    let ghost bv = index_view(b@);
    let mut r: Vec<Difference> = Vec::new();
    let mut i: usize = 0;
    let mut j: usize = 0;
    assert(diffs_view(r@) =~= Seq::<DifferenceView>::empty());
    while i < a.len() || j < b.len()
        invariant
            av == index_view(a@),
            bv == index_view(b@),
            merged(ours@, theirs@, av, bv, i as int, j as int, diffs_view(r@)),
        decreases a@.len() - i + b@.len() - j,
    {
        let ghost rv = diffs_view(r@);
        let rel = if i == a.len() {
            Rel::After
        } else if j == b.len() {
            Rel::Before
        } else {
            place(a[i].key.as_slice(), b[j].key.as_slice())
        };
        match rel {
            Rel::Before => {
                let ghost k = av[i as int].0;
                assert(a@[i as int].key@ == k);
                proof {
                    lemma_absent(theirs@, bv, k, j as int);
                    assert forall|y: int| j <= y < bv.len() implies key_lt(k, #[trigger] bv[y].0) by {
                        if y > j {
                            lemma_lt_transitive(k, bv[j as int].0, bv[y].0);
                        }
                    }
                }
                let dv = Difference {
                    key: string_of(a[i].key.as_slice()),
                    ours: some_text(&a[i].value),
                    theirs: None,
                    class: Class::Substantive,
                };
                r.push(dv);
                proof {
                    let nv = diffs_view(r@);
                    assert(nv =~= rv.push(dv@));
                    assert(nv[rv.len() as int].0 == k);
                    assert forall|x: int| 0 <= x < i + 1 && #[trigger] differs(ours@, theirs@, av[x].0) implies exists|p: int|
                        0 <= p < nv.len() && nv[p].0 == av[x].0 by {
                        if x < i {
                            let p = choose|p: int| 0 <= p < rv.len() && rv[p].0 == av[x].0;
                            assert(nv[p] == rv[p]);
                        }
                    }
                    assert forall|y: int| 0 <= y < j && #[trigger] differs(ours@, theirs@, bv[y].0) implies exists|p: int|
                        0 <= p < nv.len() && nv[p].0 == bv[y].0 by {
                        let p = choose|p: int| 0 <= p < rv.len() && rv[p].0 == bv[y].0;
                        assert(nv[p] == rv[p]);
                    }
                    assert forall|p: int, x: int| 0 <= p < nv.len() && i + 1 <= x < av.len() implies key_lt(
                        #[trigger] nv[p].0,
                        #[trigger] av[x].0,
                    ) by {
                        if p < rv.len() {
                            assert(nv[p] == rv[p]);
                        }
                    }
                    assert forall|x: int, y: int| 0 <= x < i + 1 && j <= y < bv.len() implies key_lt(
                        #[trigger] av[x].0,
                        #[trigger] bv[y].0,
                    ) by {
                        if x == i {
                            assert(key_lt(k, bv[y].0));
                        }
                    }
                }
                i += 1;
            },
            Rel::After => {
                let ghost k = bv[j as int].0;
                assert(b@[j as int].key@ == k);
                proof {
                    lemma_absent(ours@, av, k, i as int);
                    assert forall|x: int| i <= x < av.len() implies key_lt(k, #[trigger] av[x].0) by {
                        if x > i {
                            lemma_lt_transitive(k, av[i as int].0, av[x].0);
                        }
                    }
                }
                let dv = Difference {
                    key: string_of(b[j].key.as_slice()),
                    ours: None,
                    theirs: some_text(&b[j].value),
                    class: Class::Substantive,
                };
                r.push(dv);
                proof {
                    let nv = diffs_view(r@);
                    assert(nv =~= rv.push(dv@));
                    assert(nv[rv.len() as int].0 == k);
                    assert forall|y: int| 0 <= y < j + 1 && #[trigger] differs(ours@, theirs@, bv[y].0) implies exists|p: int|
                        0 <= p < nv.len() && nv[p].0 == bv[y].0 by {
                        if y < j {
                            let p = choose|p: int| 0 <= p < rv.len() && rv[p].0 == bv[y].0;
                            assert(nv[p] == rv[p]);
                        }
                    }
                    assert forall|x: int| 0 <= x < i && #[trigger] differs(ours@, theirs@, av[x].0) implies exists|p: int|
                        0 <= p < nv.len() && nv[p].0 == av[x].0 by {
                        let p = choose|p: int| 0 <= p < rv.len() && rv[p].0 == av[x].0;
                        assert(nv[p] == rv[p]);
                    }
                    assert forall|p: int, y: int| 0 <= p < nv.len() && j + 1 <= y < bv.len() implies key_lt(
                        #[trigger] nv[p].0,
                        #[trigger] bv[y].0,
                    ) by {
                        if p < rv.len() {
                            assert(nv[p] == rv[p]);
                        }
                    }
                    assert forall|x: int, y: int| i <= x < av.len() && 0 <= y < j + 1 implies key_lt(
                        #[trigger] bv[y].0,
                        #[trigger] av[x].0,
                    ) by {
                        if y == j {
                            assert(key_lt(k, av[x].0));
                        }
                    }
                }
                j += 1;
            },
            Rel::Same => {
                let ghost k = av[i as int].0;
                assert(a@[i as int].key@ == k);
                assert(b@[j as int].key@ == k);
                proof {
                    assert forall|x: int| i < x < av.len() implies key_lt(k, #[trigger] av[x].0) by {}
                    assert forall|y: int| j < y < bv.len() implies key_lt(k, #[trigger] bv[y].0) by {}
                }
                if !crate::inspect::same_chars(&a[i].value, &b[j].value) {
                    let dv = Difference {
                        key: string_of(a[i].key.as_slice()),
                        ours: some_text(&a[i].value),
                        theirs: some_text(&b[j].value),
                        class: a[i].class,
                    };
                    r.push(dv);
                    proof {
                        let nv = diffs_view(r@);
                        assert(nv =~= rv.push(dv@));
                        assert(nv[rv.len() as int].0 == k);
                        assert forall|x: int| 0 <= x < i + 1 && #[trigger] differs(ours@, theirs@, av[x].0) implies exists|p: int|
                            0 <= p < nv.len() && nv[p].0 == av[x].0 by {
                            if x < i {
                                let p = choose|p: int| 0 <= p < rv.len() && rv[p].0 == av[x].0;
                                assert(nv[p] == rv[p]);
                            }
                        }
                        assert forall|y: int| 0 <= y < j + 1 && #[trigger] differs(ours@, theirs@, bv[y].0) implies exists|p: int|
                            0 <= p < nv.len() && nv[p].0 == bv[y].0 by {
                            if y < j {
                                let p = choose|p: int| 0 <= p < rv.len() && rv[p].0 == bv[y].0;
                                assert(nv[p] == rv[p]);
                            }
                        }
                        assert forall|p: int, x: int| 0 <= p < nv.len() && i + 1 <= x < av.len() implies key_lt(
                            #[trigger] nv[p].0,
                            #[trigger] av[x].0,
                        ) by {
                            if p < rv.len() {
                                assert(nv[p] == rv[p]);
                            }
                        }
                        assert forall|p: int, y: int| 0 <= p < nv.len() && j + 1 <= y < bv.len() implies key_lt(
                            #[trigger] nv[p].0,
                            #[trigger] bv[y].0,
                        ) by {
                            if p < rv.len() {
                                assert(nv[p] == rv[p]);
                            }
                        }
                    }
                } else {
                    proof {
                        assert(!differs(ours@, theirs@, k));
                    }
                }
                i += 1;
                j += 1;
            },
        }
    }
    proof {
        lemma_merged_done(ours@, theirs@, av, bv, diffs_view(r@));
    }
    r
}

/// Dump both devices and diff them.
pub fn compare<A: BlockDevice, B: BlockDevice>(ours: &A, theirs: &B) -> (r: Result<Vec<Difference>, Error>)
    ensures
        r matches Ok(v) ==> match (spec_dump(ours.bytes()), spec_dump(theirs.bytes())) {
            (Ok(a), Ok(b)) => is_diff(a, b, diffs_view(v@)),
            _ => false,
        },
        r is Err ==> !ours.reliable() || !theirs.reliable() || spec_dump(ours.bytes()) is Err || spec_dump(
            theirs.bytes(),
        ) is Err,
{
    let a = dump(ours)?;
    let b = dump(theirs)?;
    Ok(diff(&a, &b))
}

/// Only the differences that matter: the substantive ones, in order.
pub fn structural(diffs: &[Difference]) -> (r: Vec<&Difference>)
    ensures
        r@.map_values(|x: &Difference| x@) == diffs_view(diffs@).filter(|x: DifferenceView| x.3 == Class::Substantive),
{
    let mut r: Vec<&Difference> = Vec::new();
    let mut i: usize = 0;
    while i < diffs.len()
        invariant
            i <= diffs@.len(),
            r@.map_values(|x: &Difference| x@) == diffs_view(diffs@.subrange(0, i as int)).filter(
                |x: DifferenceView| x.3 == Class::Substantive,
            ),
        decreases diffs@.len() - i,
    {
        let ghost before = r@.map_values(|x: &Difference| x@);
        let d = &diffs[i];
        if d.class == Class::Substantive {
            r.push(d);
        }
        proof {
            let s = diffs_view(diffs@.subrange(0, i + 1));
            assert(s.drop_last() =~= diffs_view(diffs@.subrange(0, i as int)));
            assert(s.last() == d@);
            diffs_view(diffs@.subrange(0, i as int)).lemma_filter_push(d@, |x: DifferenceView| x.3 == Class::Substantive);
            assert(s =~= diffs_view(diffs@.subrange(0, i as int)).push(d@));
            assert(r@.map_values(|x: &Difference| x@) =~= s.filter(|x: DifferenceView| x.3 == Class::Substantive));
        }
        i += 1;
    }
    assert(diffs@.subrange(0, diffs@.len() as int) =~= diffs@);
    r
}

/// A dump compared with itself has no differences.
pub proof fn lemma_diff_self(fields: Seq<FieldView>, r: Seq<DifferenceView>)
    requires
        is_diff(fields, fields, r),
    ensures
        r.len() == 0,
{
    if r.len() > 0 {
        assert(differs(fields, fields, r[0].0));
    }
}

/// Two dumps have no differences exactly when every key reads the same
/// in both, or is absent from both.
pub proof fn lemma_diff_empty_iff(ours: Seq<FieldView>, theirs: Seq<FieldView>, r: Seq<DifferenceView>)
    requires
        is_diff(ours, theirs, r),
    ensures
        r.len() == 0 <==> forall|k: Seq<char>| !differs(ours, theirs, k),
{
    if r.len() > 0 {
        assert(differs(ours, theirs, r[0].0));
    }
    if r.len() == 0 {
        assert forall|k: Seq<char>| !differs(ours, theirs, k) by {
            if differs(ours, theirs, k) {
                let i = choose|i: int| 0 <= i < r.len() && r[i].0 == k;
            }
        }
    }
}

} // verus!
