//! Named destinations, and the order in which a name tree has them.

use vstd::prelude::*;
use vstd::utf8::encode_utf8;

use crate::names::{bytes_leq, lemma_lexical_total, lemma_lexical_transitive, lexical_leq};
use crate::reference::Ref;

verus! {

/// A place in the document that is referred to by its name.
pub struct NamedDestination {
    /// The name.
    pub name: String,
}

/// An entry of a name tree: the bytes of a name, and what it refers to.
pub type NameEntry = (Seq<u8>, Ref);

/// The destinations as entries of a name tree, in the order given.
pub open spec fn named(destinations: Seq<(NamedDestination, Ref)>) -> Seq<NameEntry> {
    destinations.map_values(|d: (NamedDestination, Ref)| (encode_utf8(d.0.name@), d.1))
}

/// Whether the entries stand in ascending order of their names.
pub open spec fn ascending(entries: Seq<NameEntry>) -> bool {
    forall|i: int, j: int|
        0 <= i <= j < entries.len() ==> #[trigger] lexical_leq(entries[i].0, entries[j].0)
}

/// Whether `sorted` holds the given entries in ascending order of their names.
pub open spec fn arranged(sorted: Seq<NameEntry>, entries: Seq<NameEntry>) -> bool {
    &&& ascending(sorted)
    &&& sorted.to_multiset() == entries.to_multiset()
}

/// The entries at the given indices.
spec fn picked(entries: Seq<NameEntry>, order: Seq<usize>) -> Seq<NameEntry> {
    order.map_values(|i: usize| entries[i as int])
}

/// Whether every index lies in the given range.
spec fn within(order: Seq<usize>, lo: int, hi: int) -> bool {
    forall|i: int| 0 <= i < order.len() ==> lo <= #[trigger] order[i] < hi
}

proof fn lemma_ascending_push(entries: Seq<NameEntry>, entry: NameEntry)
    requires
        ascending(entries),
        entries.len() > 0 ==> lexical_leq(entries.last().0, entry.0),
    ensures
        ascending(entries.push(entry)),
{
    let pushed = entries.push(entry);
    assert forall|i: int, j: int| 0 <= i <= j < pushed.len() implies #[trigger] lexical_leq(
        pushed[i].0,
        pushed[j].0,
    ) by {
        if j < entries.len() {
            assert(lexical_leq(entries[i].0, entries[j].0));
        } else if i < entries.len() {
            assert(lexical_leq(entries[i].0, entries[entries.len() - 1].0));
            lemma_lexical_transitive(entries[i].0, entries.last().0, entry.0);
        } else {
            crate::names::lemma_lexical_reflexive(entry.0);
        }
    }
}

/// Compares the names of two destinations.
fn name_leq(destinations: &Vec<(NamedDestination, Ref)>, i: usize, j: usize) -> (leq: bool)
    requires
        i < destinations@.len(),
        j < destinations@.len(),
    ensures
        leq == lexical_leq(named(destinations@)[i as int].0, named(destinations@)[j as int].0),
{
    bytes_leq(
        destinations[i].0.name.as_str().as_bytes(),
        destinations[j].0.name.as_str().as_bytes(),
    )
}

/// Merges two ascending orders into one.
fn merge(
    destinations: &Vec<(NamedDestination, Ref)>,
    a: &Vec<usize>,
    b: &Vec<usize>,
    lo: usize,
    hi: usize,
) -> (out: Vec<usize>)
    requires
        hi <= destinations@.len(),
        within(a@, lo as int, hi as int),
        within(b@, lo as int, hi as int),
        ascending(picked(named(destinations@), a@)),
        ascending(picked(named(destinations@), b@)),
    ensures
        within(out@, lo as int, hi as int),
        ascending(picked(named(destinations@), out@)),
        picked(named(destinations@), out@).to_multiset() == picked(
            named(destinations@),
            a@,
        ).to_multiset().add(picked(named(destinations@), b@).to_multiset()),
{
    broadcast use vstd::seq_lib::group_to_multiset_ensures;

    let ghost entries = named(destinations@);
    let ghost pa = picked(entries, a@);
    let ghost pb = picked(entries, b@);
    let mut out: Vec<usize> = Vec::new();
    let mut i: usize = 0;
    let mut j: usize = 0;
    proof {
        assert(picked(entries, out@) =~= Seq::<NameEntry>::empty());
        assert(pa.take(0) =~= Seq::<NameEntry>::empty());
        assert(pb.take(0) =~= Seq::<NameEntry>::empty());
        assert(picked(entries, out@).to_multiset() =~= pa.take(0).to_multiset().add(
            pb.take(0).to_multiset(),
        ));
    }
    while i < a.len() || j < b.len()
        invariant
            entries == named(destinations@),
            pa == picked(entries, a@),
            pb == picked(entries, b@),
            hi <= destinations@.len(),
            within(a@, lo as int, hi as int),
            within(b@, lo as int, hi as int),
            ascending(pa),
            ascending(pb),
            i <= a@.len(),
            j <= b@.len(),
            within(out@, lo as int, hi as int),
            ascending(picked(entries, out@)),
            picked(entries, out@).to_multiset() == pa.take(i as int).to_multiset().add(
                pb.take(j as int).to_multiset(),
            ),
            out@.len() > 0 && i < a@.len() ==> lexical_leq(
                picked(entries, out@).last().0,
                pa[i as int].0,
            ),
            out@.len() > 0 && j < b@.len() ==> lexical_leq(
                picked(entries, out@).last().0,
                pb[j as int].0,
            ),
        decreases a@.len() - i + b@.len() - j,
    {
        let ghost before = out@;
        let from_a = if i == a.len() {
            false
        } else if j == b.len() {
            true
        } else {
            proof {
                lemma_lexical_total(pa[i as int].0, pb[j as int].0);
            }
            name_leq(destinations, a[i], b[j])
        };
        if from_a {
            out.push(a[i]);
            proof {
                lemma_ascending_push(picked(entries, before), pa[i as int]);
                assert(picked(entries, out@) =~= picked(entries, before).push(pa[i as int]));
                assert(pa.take(i + 1) =~= pa.take(i as int).push(pa[i as int]));
                vstd::seq_lib::to_multiset_build(picked(entries, before), pa[i as int]);
                vstd::seq_lib::to_multiset_build(pa.take(i as int), pa[i as int]);
                assert(picked(entries, out@).to_multiset() =~= pa.take(i + 1).to_multiset().add(
                    pb.take(j as int).to_multiset(),
                ));
                if i + 1 < a@.len() {
                    assert(lexical_leq(pa[i as int].0, pa[i + 1].0));
                }
            }
            i += 1;
        } else {
            out.push(b[j]);
            proof {
                lemma_ascending_push(picked(entries, before), pb[j as int]);
                assert(picked(entries, out@) =~= picked(entries, before).push(pb[j as int]));
                assert(pb.take(j + 1) =~= pb.take(j as int).push(pb[j as int]));
                vstd::seq_lib::to_multiset_build(picked(entries, before), pb[j as int]);
                vstd::seq_lib::to_multiset_build(pb.take(j as int), pb[j as int]);
                assert(picked(entries, out@).to_multiset() =~= pa.take(i as int).to_multiset().add(
                    pb.take(j + 1).to_multiset(),
                ));
                if j + 1 < b@.len() {
                    assert(lexical_leq(pb[j as int].0, pb[j + 1].0));
                }
            }
            j += 1;
        }
    }
    assert(pa.take(i as int) =~= pa);
    assert(pb.take(j as int) =~= pb);
    out
}

/// The indices of the destinations from `lo` up to `hi`, in ascending order of
/// their names.
fn sorted_range(destinations: &Vec<(NamedDestination, Ref)>, lo: usize, hi: usize) -> (order: Vec<
    usize,
>)
    requires
        lo <= hi <= destinations@.len(),
    ensures
        within(order@, lo as int, hi as int),
        ascending(picked(named(destinations@), order@)),
        picked(named(destinations@), order@).to_multiset() == named(destinations@).subrange(
            lo as int,
            hi as int,
        ).to_multiset(),
    decreases hi - lo,
{
    let ghost entries = named(destinations@);
    if hi - lo <= 1 {
        let mut order: Vec<usize> = Vec::new();
        if lo < hi {
            order.push(lo);
        }
        proof {
            assert(picked(entries, order@) =~= entries.subrange(lo as int, hi as int));
            assert forall|i: int, j: int|
                0 <= i <= j < picked(entries, order@).len() implies #[trigger] lexical_leq(
                picked(entries, order@)[i].0,
                picked(entries, order@)[j].0,
            ) by {
                crate::names::lemma_lexical_reflexive(picked(entries, order@)[i].0);
            }
        }
        order
    } else {
        let mid: usize = lo + (hi - lo) / 2;
        let a = sorted_range(destinations, lo, mid);
        let b = sorted_range(destinations, mid, hi);
        proof {
            let left = entries.subrange(lo as int, mid as int);
            let right = entries.subrange(mid as int, hi as int);
            assert(entries.subrange(lo as int, hi as int) =~= left + right);
            vstd::seq_lib::lemma_multiset_commutative(left, right);
        }
        merge(destinations, &a, &b, lo, hi)
    }
}

/// The destinations in ascending order of the bytes of their names, where a
/// shorter name stands before a longer one that begins with it.
pub fn sorted_by_name(destinations: &Vec<(NamedDestination, Ref)>) -> (order: Vec<usize>)
    ensures
        order@.len() == destinations@.len(),
        forall|i: int| 0 <= i < order@.len() ==> #[trigger] order@[i] < destinations@.len(),
        arranged(
            order@.map_values(|i: usize| named(destinations@)[i as int]),
            named(destinations@),
        ),
{
    broadcast use vstd::seq_lib::group_to_multiset_ensures;

    let order = sorted_range(destinations, 0, destinations.len());
    proof {
        let entries = named(destinations@);
        assert(entries.subrange(0, entries.len() as int) =~= entries);
        assert(picked(entries, order@).len() == entries.len()) by {
            assert(picked(entries, order@).to_multiset().len() == picked(entries, order@).len());
            assert(entries.to_multiset().len() == entries.len());
        }
        assert(picked(entries, order@) =~= order@.map_values(
            |i: usize| named(destinations@)[i as int],
        ));
    }
    order
}

} // verus!
