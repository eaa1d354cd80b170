//! A dump's fields by key: one entry per key, in key order, holding the
//! value and class of the last field with that key.
use vstd::prelude::*;
use crate::compare::{key_lt, lemma_lt_irreflexive, lemma_lt_total, lemma_lt_transitive, lookup};
use crate::inspect::{Class, Dump, FieldView};
use crate::text::chars_of;

verus! {

/// One key's value and class.
pub struct Entry {
    /// The key.
    pub key: Vec<char>,
    /// Its value.
    pub value: Vec<char>,
    /// Its class.
    pub class: Class,
}

/// An entry as its key, value and class.
pub type EntryView = (Seq<char>, Seq<char>, Class);

/// The entries as views.
pub open spec fn index_view(e: Seq<Entry>) -> Seq<EntryView> {
    e.map_values(|x: Entry| (x.key@, x.value@, x.class))
}

/// The entries' keys strictly increase.
pub open spec fn by_key(e: Seq<EntryView>) -> bool {
    forall|i: int, j: int| 0 <= i < j < e.len() ==> key_lt(#[trigger] e[i].0, #[trigger] e[j].0)
}

/// `e` holds, in key order, each key of `fields` once with what the
/// lookup finds for it.
pub open spec fn keyed(fields: Seq<FieldView>, e: Seq<EntryView>) -> bool {
    &&& by_key(e)
    &&& forall|i: int| 0 <= i < e.len() ==> lookup(fields, #[trigger] e[i].0) == Some((e[i].1, e[i].2))
    &&& forall|k: Seq<char>| #[trigger] lookup(fields, k) is Some ==> exists|i: int| 0 <= i < e.len() && e[i].0 == k
}

/// Of entries in key order, two with the same key are the same entry.
pub proof fn lemma_index_distinct(e: Seq<EntryView>, i: int, j: int)
    requires
        by_key(e),
        0 <= i < e.len(),
        0 <= j < e.len(),
        e[i].0 == e[j].0,
    ensures
        i == j,
{
    if i < j {
        lemma_lt_irreflexive(e[i].0);
        assert(key_lt(e[i].0, e[j].0));
    } else if j < i {
        lemma_lt_irreflexive(e[i].0);
        assert(key_lt(e[j].0, e[i].0));
    }
}

/// How two keys are placed.
pub enum Rel {
    /// The first sorts before the second.
    Before,
    /// They are the same.
    Same,
    /// The first sorts after the second.
    After,
}

proof fn lemma_lt_skip(a: Seq<char>, b: Seq<char>, i: int)
    requires
        0 <= i <= a.len(),
        i <= b.len(),
        a.subrange(0, i) == b.subrange(0, i),
    ensures
        key_lt(a, b) == key_lt(a.subrange(i, a.len() as int), b.subrange(i, b.len() as int)),
    decreases i,
{
    if i > 0 {
        assert(a[0] == a.subrange(0, i)[0]);
        assert(b[0] == b.subrange(0, i)[0]);
        let a1 = a.drop_first();
        let b1 = b.drop_first();
        assert(a1.subrange(0, i - 1) =~= a.subrange(0, i).drop_first());
        assert(b1.subrange(0, i - 1) =~= b.subrange(0, i).drop_first());
        lemma_lt_skip(a1, b1, i - 1);
        assert(a1.subrange(i - 1, a1.len() as int) =~= a.subrange(i, a.len() as int));
        assert(b1.subrange(i - 1, b1.len() as int) =~= b.subrange(i, b.len() as int));
    } else {
        assert(a.subrange(0, a.len() as int) =~= a);
        assert(b.subrange(0, b.len() as int) =~= b);
    }
}

/// How `a` and `b` are placed in key order.
pub fn place(a: &[char], b: &[char]) -> (r: Rel)
    ensures
        r is Before <==> key_lt(a@, b@),
        r is Same <==> a@ == b@,
        r is After <==> key_lt(b@, a@),
{
    let mut i: usize = 0;
    while i < a.len() && i < b.len() && a[i] == b[i]
        invariant
            i <= a@.len(),
            i <= b@.len(),
            a@.subrange(0, i as int) == b@.subrange(0, i as int),
        decreases a@.len() - i,
    {
        i += 1;
        assert(a@.subrange(0, i as int) =~= a@.subrange(0, i - 1).push(a@[i - 1]));
        assert(b@.subrange(0, i as int) =~= b@.subrange(0, i - 1).push(b@[i - 1]));
    }
    proof {
        lemma_lt_skip(a@, b@, i as int);
        lemma_lt_skip(b@, a@, i as int);
    }
    let ghost ra = a@.subrange(i as int, a@.len() as int);
    let ghost rb = b@.subrange(i as int, b@.len() as int);
    if i == a.len() && i == b.len() {
        assert(a@.subrange(0, i as int) =~= a@);
        assert(b@.subrange(0, i as int) =~= b@);
        assert(a@ =~= b@);
        proof {
            lemma_lt_irreflexive(a@);
        }
        Rel::Same
    } else if i == a.len() {
        assert(ra.len() == 0 && rb.len() > 0);
        assert(a@ != b@);
        Rel::Before
    } else if i == b.len() {
        assert(rb.len() == 0 && ra.len() > 0);
        assert(a@ != b@);
        Rel::After
    } else {
        assert(ra[0] == a@[i as int] && rb[0] == b@[i as int]);
        assert(a@[i as int] != b@[i as int]);
        assert((a@[i as int] as int) != (b@[i as int] as int));
        assert(a@ != b@);
        assert(key_lt(ra, rb) == ((ra[0] as int) < (rb[0] as int)));
        assert(key_lt(rb, ra) == ((rb[0] as int) < (ra[0] as int)));
        if a[i] < b[i] {
            Rel::Before
        } else {
            Rel::After
        }
    }
}

/// Where `key` belongs among entries in key order: every entry before it
/// sorts before `key`, none from it on does.
fn position(e: &Vec<Entry>, key: &[char]) -> (p: usize)
    requires
        by_key(index_view(e@)),
    ensures
        p <= e@.len(),
        forall|i: int| 0 <= i < p ==> key_lt(#[trigger] index_view(e@)[i].0, key@),
        forall|i: int| p <= i < e@.len() ==> !key_lt(#[trigger] index_view(e@)[i].0, key@),
{
    let ghost v = index_view(e@);
    let mut lo: usize = 0;
    let mut hi: usize = e.len();
    while lo < hi
        invariant
            lo <= hi <= e@.len(),
            v == index_view(e@),
            by_key(v),
            forall|i: int| 0 <= i < lo ==> key_lt(#[trigger] v[i].0, key@),
            forall|i: int| hi <= i < e@.len() ==> !key_lt(#[trigger] v[i].0, key@),
        decreases hi - lo,
    {
        let mid = lo + (hi - lo) / 2;
        assert(v[mid as int].0 == e@[mid as int].key@);
        match place(e[mid].key.as_slice(), key) {
            Rel::Before => {
                assert forall|i: int| 0 <= i <= mid implies key_lt(#[trigger] v[i].0, key@) by {
                    if i < mid {
                        lemma_lt_transitive(v[i].0, v[mid as int].0, key@);
                    }
                }
                lo = mid + 1;
            },
            _ => {
                assert forall|i: int| mid <= i < e@.len() implies !key_lt(#[trigger] v[i].0, key@) by {
                    if i > mid && key_lt(v[i].0, key@) {
                        lemma_lt_transitive(v[mid as int].0, v[i].0, key@);
                    }
                }
                hi = mid;
            },
        }
    }
    lo
}

proof fn lemma_lookup_push(fields: Seq<FieldView>, f: FieldView, k: Seq<char>)
    ensures
        lookup(fields.push(f), k) == (if f.0 == k { Some((f.1, f.2)) } else { lookup(fields, k) }),
{
    assert(fields.push(f).drop_last() =~= fields);
}

/// Index a dump's fields by key.
#[verifier::spinoff_prover]
pub fn index(d: &Dump) -> (e: Vec<Entry>)
    ensures
        keyed(d@, index_view(e@)),
{
    let mut e: Vec<Entry> = Vec::new();
    let mut n: usize = 0;
    assert(d@.subrange(0, 0) =~= Seq::<FieldView>::empty());
    while n < d.fields.len()
        invariant
            n <= d.fields@.len(),
            d@.len() == d.fields@.len(),
            keyed(d@.subrange(0, n as int), index_view(e@)),
        decreases d.fields@.len() - n,
    {
        let ghost pre = d@.subrange(0, n as int);
        let ghost f = d@[n as int];
        assert(d@.subrange(0, n + 1) =~= pre.push(f));
        let key = chars_of(d.fields[n].key.as_str());
        let value = chars_of(d.fields[n].value.as_str());
        let class = d.fields[n].class;
        assert(f == (key@, value@, class));
        let ghost old_v = index_view(e@);
        let p = position(&e, key.as_slice());
        let same = p < e.len() && match place(e[p].key.as_slice(), key.as_slice()) {
            Rel::Same => true,
            _ => false,
        };
        if same {
            e.set(p, Entry { key, value, class });
            let ghost v = index_view(e@);
            assert(v =~= old_v.update(p as int, (key@, value@, class)));
            proof {
                assert forall|i: int, j: int| 0 <= i < j < v.len() implies key_lt(#[trigger] v[i].0, #[trigger] v[j].0) by {
                    assert(old_v[i].0 == v[i].0 && old_v[j].0 == v[j].0);
                }
                assert forall|i: int| 0 <= i < v.len() implies lookup(pre.push(f), #[trigger] v[i].0) == Some((v[i].1, v[i].2)) by {
                    lemma_lookup_push(pre, f, v[i].0);
                    if i != p {
                        if v[i].0 == key@ {
                            lemma_index_distinct(old_v, i, p as int);
                        }
                    }
                }
                assert forall|k: Seq<char>| #[trigger] lookup(pre.push(f), k) is Some implies exists|i: int|
                    0 <= i < v.len() && v[i].0 == k by {
                    lemma_lookup_push(pre, f, k);
                    if k == key@ {
                        assert(v[p as int].0 == k);
                    } else {
                        let i = choose|i: int| 0 <= i < old_v.len() && old_v[i].0 == k;
                        assert(v[i].0 == k);
                    }
                }
            }
        } else {
            e.insert(p, Entry { key, value, class });
            let ghost v = index_view(e@);
            assert(v =~= old_v.insert(p as int, (key@, value@, class)));
            proof {
                if p < old_v.len() {
                    lemma_lt_total(old_v[p as int].0, key@);
                }
                assert forall|i: int, j: int| 0 <= i < j < v.len() implies key_lt(#[trigger] v[i].0, #[trigger] v[j].0) by {
                    if j < p {
                        assert(old_v[i].0 == v[i].0 && old_v[j].0 == v[j].0);
                    } else if j == p {
                        assert(old_v[i].0 == v[i].0);
                    } else if i > p {
                        assert(old_v[i - 1].0 == v[i].0 && old_v[j - 1].0 == v[j].0);
                    } else if i == p {
                        assert(old_v[j - 1].0 == v[j].0);
                        if j - 1 > p {
                            lemma_lt_transitive(key@, old_v[p as int].0, old_v[j - 1].0);
                        }
                    } else {
                        assert(old_v[i].0 == v[i].0 && old_v[j - 1].0 == v[j].0);
                    }
                }
                assert forall|i: int| 0 <= i < v.len() implies lookup(pre.push(f), #[trigger] v[i].0) == Some((v[i].1, v[i].2)) by {
                    lemma_lookup_push(pre, f, v[i].0);
                    if i < p {
                        assert(v[i] == old_v[i]);
                        lemma_lt_irreflexive(key@);
                    } else if i > p {
                        assert(v[i] == old_v[i - 1]);
                        if v[i].0 == key@ {
                            lemma_lt_irreflexive(key@);
                            if i - 1 > p {
                                lemma_lt_transitive(key@, old_v[p as int].0, old_v[i - 1].0);
                            }
                        }
                    }
                }
                assert forall|k: Seq<char>| #[trigger] lookup(pre.push(f), k) is Some implies exists|i: int|
                    0 <= i < v.len() && v[i].0 == k by {
                    lemma_lookup_push(pre, f, k);
                    if k == key@ {
                        assert(v[p as int].0 == k);
                    } else {
                        let i = choose|i: int| 0 <= i < old_v.len() && old_v[i].0 == k;
                        if i < p {
                            assert(v[i].0 == k);
                        } else {
                            assert(v[i + 1].0 == k);
                        }
                    }
                }
            }
        }
        n += 1;
    }
    assert(d@.subrange(0, d@.len() as int) =~= d@);
    e
}

} // verus!
