//! What holds of the names that a document lists.

use vstd::prelude::*;
use vstd::utf8::encode_utf8;

use crate::destinations::{arranged, ascending, named, NameEntry, NamedDestination};
use crate::embedded_files::strictly_ascending;
use crate::names::{
    lemma_lexical_antisymmetric, lemma_lexical_prefix, lemma_lexical_reflexive, lexical_leq,
};
use crate::reference::Ref;

verus! {

/// The first byte in which two names differ decides: the name with the smaller
/// byte there stands first, whatever follows.
pub proof fn law_first_different_byte_decides(a: Seq<u8>, b: Seq<u8>, k: int)
    requires
        0 <= k < a.len(),
        k < b.len(),
        a.take(k) == b.take(k),
        a[k] < b[k],
    ensures
        lexical_leq(a, b),
        !lexical_leq(b, a),
    decreases k,
{
    if k > 0 {
        assert(a[0] == a.take(k)[0] && b[0] == b.take(k)[0]);
        assert(a.drop_first().take(k - 1) =~= a.take(k).drop_first());
        assert(b.drop_first().take(k - 1) =~= b.take(k).drop_first());
        law_first_different_byte_decides(a.drop_first(), b.drop_first(), k - 1);
    }
}

/// A name that another one begins with stands first.
pub proof fn law_beginning_stands_first(a: Seq<u8>, b: Seq<u8>)
    requires
        a.is_prefix_of(b),
    ensures
        lexical_leq(a, b),
        a.len() < b.len() ==> !lexical_leq(b, a),
{
    let rest = b.skip(a.len() as int);
    assert(b =~= a + rest);
    lemma_lexical_prefix(a, rest);
    if a.len() < b.len() && lexical_leq(b, a) {
        lemma_lexical_antisymmetric(a, b);
    }
}

/// Whether `a` has the smaller byte where the names first differ, or is the
/// beginning of `b`.
pub open spec fn stands_before(a: Seq<u8>, b: Seq<u8>) -> bool {
    ||| a.is_prefix_of(b)
    ||| exists|k: int|
        0 <= k < a.len() && k < b.len() && #[trigger] a.take(k) == b.take(k) && a[k] < b[k]
}

/// The order of names is the order of their bytes, and no other.
pub proof fn law_order_is_that_of_the_bytes(a: Seq<u8>, b: Seq<u8>)
    ensures
        lexical_leq(a, b) <==> stands_before(a, b),
    decreases a.len(),
{
    if stands_before(a, b) {
        if a.is_prefix_of(b) {
            law_beginning_stands_first(a, b);
        } else {
            let k = choose|k: int|
                0 <= k < a.len() && k < b.len() && #[trigger] a.take(k) == b.take(k) && a[k]
                    < b[k];
            law_first_different_byte_decides(a, b, k);
        }
    }
    if lexical_leq(a, b) {
        if a.len() == 0 {
            assert(a =~= b.subrange(0, 0));
        } else if a[0] != b[0] {
            assert(a.take(0) =~= b.take(0));
        } else {
            let (x, y) = (a.drop_first(), b.drop_first());
            law_order_is_that_of_the_bytes(x, y);
            if x.is_prefix_of(y) {
                assert(a =~= b.subrange(0, a.len() as int)) by {
                    assert forall|i: int| 0 <= i < a.len() implies a[i] == b[i] by {
                        if i > 0 {
                            assert(x[i - 1] == y.subrange(0, x.len() as int)[i - 1]);
                        }
                    }
                }
            } else {
                let k = choose|k: int|
                    0 <= k < x.len() && k < y.len() && #[trigger] x.take(k) == y.take(k) && x[k]
                        < y[k];
                assert(a.take(k + 1) =~= b.take(k + 1)) by {
                    assert forall|i: int| 0 <= i < k + 1 implies a[i] == b[i] by {
                        if i > 0 {
                            assert(x.take(k)[i - 1] == y.take(k)[i - 1]);
                        }
                    }
                }
            }
        }
    }
}

/// The listed destinations are those that were collected, each as often as it
/// was, under the bytes of its name; and of two of them the one whose name
/// stands before the other by its bytes is listed first.
pub proof fn law_destinations_are_listed_by_their_bytes(
    sorted: Seq<NameEntry>,
    destinations: Seq<(NamedDestination, Ref)>,
)
    requires
        arranged(sorted, named(destinations)),
    ensures
        sorted.to_multiset() == destinations.map_values(
            |d: (NamedDestination, Ref)| (encode_utf8(d.0.name@), d.1),
        ).to_multiset(),
        sorted.len() == destinations.len(),
        forall|i: int, j: int|
            0 <= i < j < sorted.len() ==> #[trigger] stands_before(sorted[i].0, sorted[j].0),
{
    broadcast use vstd::seq_lib::group_to_multiset_ensures;

    let plain = destinations.map_values(
        |d: (NamedDestination, Ref)| (encode_utf8(d.0.name@), d.1),
    );
    assert(named(destinations) =~= plain);
    assert(sorted.to_multiset().len() == plain.to_multiset().len());
    assert forall|i: int, j: int| 0 <= i < j < sorted.len() implies #[trigger] stands_before(
        sorted[i].0,
        sorted[j].0,
    ) by {
        assert(lexical_leq(sorted[i].0, sorted[j].0));
        law_order_is_that_of_the_bytes(sorted[i].0, sorted[j].0);
    }
}

/// Whatever is in ascending order by its bytes is accepted as ascending, and
/// nothing else.
pub proof fn law_ascending_by_bytes(entries: Seq<NameEntry>)
    ensures
        ascending(entries) <==> forall|i: int, j: int|
            0 <= i < j < entries.len() ==> #[trigger] stands_before(entries[i].0, entries[j].0),
{
    if ascending(entries) {
        assert forall|i: int, j: int| 0 <= i < j < entries.len() implies #[trigger] stands_before(
            entries[i].0,
            entries[j].0,
        ) by {
            assert(lexical_leq(entries[i].0, entries[j].0));
            law_order_is_that_of_the_bytes(entries[i].0, entries[j].0);
        }
    }
    if forall|i: int, j: int|
        0 <= i < j < entries.len() ==> #[trigger] stands_before(entries[i].0, entries[j].0) {
        assert forall|i: int, j: int| 0 <= i <= j < entries.len() implies #[trigger] lexical_leq(
            entries[i].0,
            entries[j].0,
        ) by {
            lemma_lexical_reflexive(entries[i].0);
            if i < j {
                assert(stands_before(entries[i].0, entries[j].0));
                law_order_is_that_of_the_bytes(entries[i].0, entries[j].0);
            }
        }
    }
}

/// Embedded files are in ascending order of the bytes of their names, and no
/// name occurs twice.
pub proof fn law_files_are_listed_by_their_bytes(files: Seq<NameEntry>)
    ensures
        strictly_ascending(files) <==> forall|i: int, j: int|
            0 <= i < j < files.len() ==> #[trigger] stands_before(files[i].0, files[j].0)
                && files[i].0 != files[j].0,
{
    assert forall|i: int, j: int| 0 <= i < j < files.len() implies lexical_leq(
        files[i].0,
        files[j].0,
    ) == #[trigger] stands_before(files[i].0, files[j].0) by {
        law_order_is_that_of_the_bytes(files[i].0, files[j].0);
    }
    if strictly_ascending(files) {
        assert forall|i: int, j: int| 0 <= i < j < files.len() implies #[trigger] stands_before(
            files[i].0,
            files[j].0,
        ) && files[i].0 != files[j].0 by {
            assert(lexical_leq(files[i].0, files[j].0));
        }
    }
    if forall|i: int, j: int|
        0 <= i < j < files.len() ==> #[trigger] stands_before(files[i].0, files[j].0)
            && files[i].0 != files[j].0 {
        assert forall|i: int, j: int| 0 <= i < j < files.len() implies (#[trigger] lexical_leq(
            files[i].0,
            files[j].0,
        ) && files[i].0 != files[j].0) by {
            assert(stands_before(files[i].0, files[j].0));
        }
    }
}

} // verus!
